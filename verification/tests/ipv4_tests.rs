use packet_codec::ipv4::{Ipv4NextLevelPacket, Ipv4Option, Ipv4OptionClass, Ipv4Packet};
use packet_codec::util::{checksum, DecodeError, Ipv4Address};

fn sample_header() -> Vec<u8> {
    vec![
        0x45, 0x00, 0x00, 0x14, 0x00, 0x00, 0x00, 0x00, 0x40, 0x06, 0x00, 0x00, 0x0a, 0x00, 0x00,
        0x01, 0x0a, 0x00, 0x00, 0x02,
    ]
}

#[test]
fn ipv4_checksum_scenario() {
    // ttl=64, protocol=6, 10.0.0.1 -> 10.0.0.2, header_len=20, total_len=20,
    // all else zero: the checksum must match RFC 1071 over those 20 bytes.
    let mut packet = Ipv4Packet::new();
    packet.header_len = 20;
    packet.total_len = 20;
    packet.ttl = 64;
    packet.protocol = 6;
    packet.source = Ipv4Address::new(10, 0, 0, 1);
    packet.destination = Ipv4Address::new(10, 0, 0, 2);
    packet.recalculate_checksum();
    assert_eq!(packet.checksum, checksum(sample_header()));
    assert_eq!(packet.checksum, 0x66e2);
}

#[test]
fn ipv4_checksum_verifies_to_zero() {
    let mut packet = Ipv4Packet::new();
    packet.header_len = 20;
    packet.total_len = 20;
    packet.ttl = 64;
    packet.protocol = 6;
    packet.source = Ipv4Address::new(10, 0, 0, 1);
    packet.destination = Ipv4Address::new(10, 0, 0, 2);
    packet.recalculate_checksum();
    assert_eq!(checksum(packet.header_to_bytes()), 0);
}

#[test]
fn ipv4_bytes_round_trip_without_options() {
    let mut bytes = sample_header();
    bytes.extend_from_slice(&[0xca, 0xfe]);
    let packet = Ipv4Packet::from_bytes(&bytes).unwrap();
    assert_eq!(packet.header_len, 20);
    assert_eq!(packet.ttl, 64);
    assert_eq!(packet.protocol, 6);
    assert_eq!(packet.source.octets(), [10, 0, 0, 1]);
    assert_eq!(packet.payload, vec![0xca, 0xfe]);
    assert_eq!(packet.to_bytes(), bytes);
}

#[test]
fn ipv4_options_round_trip() {
    let mut packet = Ipv4Packet::new();
    packet.source = Ipv4Address::new(1, 2, 3, 4);
    packet.destination = Ipv4Address::new(5, 6, 7, 8);
    let mut option = Ipv4Option::new();
    option.copy = true;
    option.class = Ipv4OptionClass::Control;
    option.number = 3;
    option.data = vec![9, 9, 9];
    option.recalculate_length();
    assert_eq!(option.length, 5);
    packet.options.push(option);
    packet.recalculate_lengths();
    // 20 fixed + 5 option bytes + 3 padding = 28.
    assert_eq!(packet.header_len, 28);
    assert_eq!(packet.total_len, 28);
    let bytes = packet.to_bytes();
    let again = Ipv4Packet::from_bytes(&bytes).unwrap();
    assert_eq!(again.options.len(), 1);
    assert!(again.options[0].copy);
    assert_eq!(again.options[0].number, 3);
    assert_eq!(again.options[0].length, 5);
    assert_eq!(again.options[0].data, vec![9, 9, 9]);
    assert_eq!(again.to_bytes(), bytes);
}

#[test]
fn ipv4_header_length_is_multiple_of_four() {
    let mut packet = Ipv4Packet::new();
    let mut option = Ipv4Option::new();
    option.number = 7;
    option.data = vec![1];
    option.recalculate_length();
    packet.options.push(option);
    assert_eq!(packet.header_to_bytes().len() % 4, 0);
}

#[test]
fn ipv4_recalculate_is_idempotent() {
    let mut packet = Ipv4Packet::new();
    packet.ttl = 9;
    packet.payload = vec![1, 2, 3];
    packet.recalculate_lengths();
    packet.recalculate_checksum();
    let (h1, t1, c1) = (packet.header_len, packet.total_len, packet.checksum);
    packet.recalculate_lengths();
    packet.recalculate_checksum();
    assert_eq!((h1, t1, c1), (packet.header_len, packet.total_len, packet.checksum));
}

#[test]
fn ipv4_short_buffer_is_length_error() {
    // One byte short of the 20-byte minimum.
    let mut bytes = sample_header();
    bytes.pop();
    assert!(matches!(
        Ipv4Packet::from_bytes(&bytes),
        Err(DecodeError::LengthError)
    ));
}

#[test]
fn ipv4_wrong_version_is_invalid_version() {
    let mut bytes = sample_header();
    bytes[0] = 0x65;
    assert!(matches!(
        Ipv4Packet::from_bytes(&bytes),
        Err(DecodeError::InvalidVersion)
    ));
}

#[test]
fn ipv4_header_len_past_buffer_is_length_error() {
    let mut bytes = sample_header();
    bytes[0] = 0x46; // header_len 24, but only 20 bytes supplied
    assert!(matches!(
        Ipv4Packet::from_bytes(&bytes),
        Err(DecodeError::LengthError)
    ));
}

#[test]
fn ipv4_bad_option_length_is_invalid_field_value() {
    let mut bytes = sample_header();
    bytes[0] = 0x46; // header_len 24
    bytes.extend_from_slice(&[0x07, 0x01, 0x00, 0x00]); // option with length byte 1
    assert!(matches!(
        Ipv4Packet::from_bytes(&bytes),
        Err(DecodeError::InvalidFieldValue)
    ));
}

#[test]
fn ipv4_next_level_dispatch() {
    let mut packet = Ipv4Packet::from_bytes(&sample_header()).unwrap();
    packet.protocol = 6;
    packet.payload = vec![
        0x00, 0x50, 0x01, 0xbb, 0x00, 0x00, 0x00, 0x01, 0x00, 0x00, 0x00, 0x00, 0x50, 0x02, 0x20,
        0x00, 0x00, 0x00, 0x00, 0x00,
    ];
    match packet.get_next_level_packet() {
        Ok(Ipv4NextLevelPacket::Tcp(t)) => {
            assert_eq!(t.source, 80);
            assert_eq!(t.destination, 443);
        }
        _ => panic!("expected a TCP packet"),
    }
    packet.protocol = 99;
    assert!(matches!(
        packet.get_next_level_packet(),
        Err(DecodeError::UnsupportedProtocol(99))
    ));
    packet.protocol = 17;
    packet.payload = vec![0, 7]; // too short for UDP
    assert!(matches!(
        packet.get_next_level_packet(),
        Err(DecodeError::LengthError)
    ));
}

#[test]
fn ipv4_fragment_fields_round_trip() {
    let mut bytes = sample_header();
    bytes[6] = 0x60 | 0x05; // DF + MF + offset high bits
    bytes[7] = 0x39;
    let packet = Ipv4Packet::from_bytes(&bytes).unwrap();
    assert!(packet.dont_fragment);
    assert!(packet.more_fragments);
    assert_eq!(packet.fragment_offset, (0x05 * 256 + 0x39) * 8);
    assert_eq!(packet.to_bytes(), bytes);
}

#[test]
fn ipv4_option_class_codec() {
    assert!(matches!(Ipv4OptionClass::from_bits(0), Ipv4OptionClass::Control));
    assert!(matches!(Ipv4OptionClass::from_bits(2), Ipv4OptionClass::Debug));
    assert!(matches!(Ipv4OptionClass::from_bits(1), Ipv4OptionClass::Reserved(false)));
    assert!(matches!(Ipv4OptionClass::from_bits(3), Ipv4OptionClass::Reserved(true)));
    assert_eq!(Ipv4OptionClass::Debug.to_bits(), 2);
}

#[test]
fn ipv4_option_from_bytes_unpacks_first_byte() {
    let option = Ipv4Option::from_bytes(&[0x83, 0x04, 0x01, 0x02]);
    assert!(option.copy);
    assert!(matches!(option.class, Ipv4OptionClass::Control));
    assert_eq!(option.number, 3);
    assert_eq!(option.length, 4);
    assert_eq!(option.data, vec![1, 2]);
    assert_eq!(option.to_bytes(), vec![0x83, 0x04, 0x01, 0x02]);
}
