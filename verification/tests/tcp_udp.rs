use packet_codec::tcp::{TcpFlags, TcpOption, TcpPacket};
use packet_codec::udp::UdpPacket;
use packet_codec::util::{DecodeError, IpAddress, Ipv4Address, Ipv6Address};

fn sample_tcp() -> Vec<u8> {
    vec![
        0x00, 0x50, 0x01, 0xbb, 0x12, 0x34, 0x56, 0x78, 0x9a, 0xbc, 0xde, 0xf0, 0x51, 0x18, 0x20,
        0x00, 0x00, 0x00, 0x00, 0x00,
    ]
}

#[test]
fn tcp_bytes_round_trip() {
    let mut bytes = sample_tcp();
    bytes.extend_from_slice(&[1, 2, 3]);
    let packet = TcpPacket::from_bytes(bytes.clone()).unwrap();
    assert_eq!(packet.source, 80);
    assert_eq!(packet.destination, 443);
    assert_eq!(packet.sequence_number, 0x12345678);
    assert_eq!(packet.acknowledgement_number, 0x9abcdef0);
    assert_eq!(packet.data_offset, 20);
    assert!(packet.flags.nonce_sum);
    assert!(packet.flags.ack);
    assert!(packet.flags.psh);
    assert!(!packet.flags.syn);
    assert_eq!(packet.window_size, 0x2000);
    assert_eq!(packet.payload, vec![1, 2, 3]);
    assert_eq!(packet.to_bytes(), bytes);
}

#[test]
fn tcp_options_round_trip() {
    // A 24-byte header: MSS option (4 bytes) needs no padding beyond itself.
    let mut bytes = sample_tcp();
    bytes[12] = 0x60; // data_offset 24
    bytes.extend_from_slice(&[0x02, 0x04, 0x05, 0xb4]);
    bytes.extend_from_slice(&[0xaa]);
    let packet = TcpPacket::from_bytes(bytes.clone()).unwrap();
    assert_eq!(packet.options.len(), 1);
    assert_eq!(packet.options[0].kind, 2);
    assert_eq!(packet.options[0].length, 4);
    assert_eq!(packet.options[0].data, vec![0x05, 0xb4]);
    assert_eq!(packet.payload, vec![0xaa]);
    assert_eq!(packet.to_bytes(), bytes);
}

#[test]
fn tcp_header_length_is_multiple_of_four() {
    let mut packet = TcpPacket::new();
    let mut option = TcpOption::new();
    option.kind = 8;
    option.data = vec![0; 10];
    option.recalculate_length();
    assert_eq!(option.length, 12);
    packet.options.push(option);
    assert_eq!(packet.header_to_bytes().len() % 4, 0);
}

#[test]
fn tcp_short_buffer_is_length_error() {
    // One byte short of the 20-byte minimum.
    let mut bytes = sample_tcp();
    bytes.pop();
    assert!(matches!(
        TcpPacket::from_bytes(bytes),
        Err(DecodeError::LengthError)
    ));
}

#[test]
fn tcp_small_data_offset_is_invalid_field_value() {
    let mut bytes = sample_tcp();
    bytes[12] = 0x40; // data_offset 16, below the 20-byte header
    assert!(matches!(
        TcpPacket::from_bytes(bytes),
        Err(DecodeError::InvalidFieldValue)
    ));
}

#[test]
fn tcp_flags_pack_and_unpack() {
    let flags = TcpFlags::from_bits(true, 0b1010_0101);
    assert!(flags.cwr && flags.urg && flags.rst && flags.fin);
    assert!(!flags.ece && !flags.ack && !flags.psh && !flags.syn);
    let (ns, byte) = flags.to_bits();
    assert!(ns);
    assert_eq!(byte, 0b1010_0101);
}

#[test]
fn tcp_recalculate_all_is_idempotent() {
    let mut packet = TcpPacket::from_bytes(sample_tcp()).unwrap();
    packet.payload = vec![9; 5];
    let mut option = TcpOption::new();
    option.kind = 3;
    option.data = vec![1];
    packet.options.push(option);
    let src = Ipv4Address::new(10, 0, 0, 1);
    let dst = Ipv4Address::new(10, 0, 0, 2);
    packet.recalculate_all(src, dst);
    let (d1, c1, l1) = (packet.data_offset, packet.checksum, packet.options[0].length);
    packet.recalculate_all(src, dst);
    assert_eq!((d1, c1, l1), (packet.data_offset, packet.checksum, packet.options[0].length));
    assert_eq!(l1, 3);
    assert_eq!(d1, 24);
}

#[test]
fn tcp_checksum_known_value() {
    // A fully zero 20-byte segment between 10.0.0.1 and 10.0.0.2: the
    // pseudo-header sums to 0a00 + 0001 + 0a00 + 0002 + 0006 + 0014 + 5000
    // (data offset byte) = 0x641d, so the checksum is its complement.
    let mut packet = TcpPacket::new();
    packet.data_offset = 20;
    packet.recalculate_checksum(Ipv4Address::new(10, 0, 0, 1), Ipv4Address::new(10, 0, 0, 2));
    assert_eq!(packet.checksum, !0x641du16);
}

#[test]
fn udp_bytes_round_trip() {
    let bytes: Vec<u8> = vec![0x00, 0x35, 0xc0, 0x01, 0x00, 0x0a, 0xab, 0xcd, 0xff, 0xee];
    let packet = UdpPacket::from_bytes(&bytes).unwrap();
    assert_eq!(packet.source, 53);
    assert_eq!(packet.destination, 0xc001);
    assert_eq!(packet.length, 10);
    assert_eq!(packet.checksum, 0xabcd);
    assert_eq!(packet.payload, vec![0xff, 0xee]);
    assert_eq!(packet.to_bytes(), bytes);
}

#[test]
fn udp_short_buffer_is_length_error() {
    // One byte short of the 8-byte minimum.
    let bytes = vec![0u8; 7];
    assert!(matches!(
        UdpPacket::from_bytes(&bytes),
        Err(DecodeError::LengthError)
    ));
}

#[test]
fn udp_mixed_families_are_invalid_argument() {
    let mut packet = UdpPacket::new();
    let before = packet.checksum;
    let r = packet.recalculate_checksum(
        IpAddress::V4(Ipv4Address::new(10, 0, 0, 1)),
        IpAddress::V6(Ipv6Address::new()),
    );
    assert!(matches!(r, Err(DecodeError::InvalidArgument)));
    assert_eq!(packet.checksum, before);
}

#[test]
fn udp_recalculate_all_is_idempotent() {
    let mut packet = UdpPacket::new();
    packet.source = 1234;
    packet.destination = 5678;
    packet.payload = vec![1, 2, 3, 4, 5];
    let src = IpAddress::V4(Ipv4Address::new(192, 168, 0, 1));
    let dst = IpAddress::V4(Ipv4Address::new(192, 168, 0, 2));
    packet.recalculate_all(src, dst).unwrap();
    let (l1, c1) = (packet.length, packet.checksum);
    packet.recalculate_all(src, dst).unwrap();
    assert_eq!((l1, c1), (packet.length, packet.checksum));
    assert_eq!(l1, 13);
}

#[test]
fn udp_v6_checksum_differs_from_v4() {
    let mut a = UdpPacket::new();
    a.payload = vec![0xaa, 0xbb];
    let mut b = a.clone();
    a.recalculate_checksum(
        IpAddress::V4(Ipv4Address::new(1, 2, 3, 4)),
        IpAddress::V4(Ipv4Address::new(5, 6, 7, 8)),
    )
    .unwrap();
    let mut v6a = [0u8; 16];
    v6a[15] = 1;
    let mut v6b = [0u8; 16];
    v6b[15] = 2;
    b.recalculate_checksum(
        IpAddress::V6(Ipv6Address::from_bytes(v6a)),
        IpAddress::V6(Ipv6Address::from_bytes(v6b)),
    )
    .unwrap();
    assert_ne!(a.checksum, b.checksum);
}
