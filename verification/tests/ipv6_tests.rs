use packet_codec::ipv6::{
    Ipv6ExtensionHeader, Ipv6NextLevelPacket, Ipv6Option, Ipv6Packet,
};
use packet_codec::util::{DecodeError, DscpType, EcnType};

fn fixed_header(next_header: u8) -> Vec<u8> {
    let mut bytes = vec![0u8; 40];
    bytes[0] = 0x60;
    bytes[6] = next_header;
    bytes[7] = 64;
    bytes[23] = 1; // source ::1.xx
    bytes[39] = 2;
    bytes
}

fn sample_tcp_segment() -> Vec<u8> {
    vec![
        0x00, 0x50, 0x01, 0xbb, 0x00, 0x00, 0x00, 0x01, 0x00, 0x00, 0x00, 0x00, 0x50, 0x02, 0x20,
        0x00, 0x00, 0x00, 0x00, 0x00,
    ]
}

#[test]
fn ipv6_extension_chain_scenario() {
    // next_header = 0 (Hop-by-Hop) whose embedded next header is 6 (TCP),
    // an 8-byte body, then a TCP segment: exactly one extension header is
    // decoded and the next-level packet is the TCP variant.
    let mut bytes = fixed_header(0);
    bytes.extend_from_slice(&[6, 0, 1, 4, 0, 0, 0, 0]); // Hop-by-Hop, PadN body
    bytes.extend_from_slice(&sample_tcp_segment());
    let packet = Ipv6Packet::from_bytes(&bytes).unwrap();
    assert_eq!(packet.extension_headers.len(), 1);
    match &packet.extension_headers[0] {
        Ipv6ExtensionHeader::HopByHopOptions { next_header, options } => {
            assert_eq!(*next_header, 6);
            assert_eq!(options.len(), 1);
            assert_eq!(options[0].kind, 1);
            assert_eq!(options[0].data, vec![0, 0, 0, 0]);
        }
        _ => panic!("expected a Hop-by-Hop header"),
    }
    assert_eq!(packet.payload.len(), 20);
    match packet.get_next_level_packet() {
        Ok(Ipv6NextLevelPacket::Tcp(t)) => {
            assert_eq!(t.source, 80);
            assert_eq!(t.destination, 443);
        }
        _ => panic!("expected a TCP packet"),
    }
}

#[test]
fn ipv6_bytes_round_trip_with_chain() {
    let mut bytes = fixed_header(0);
    bytes.extend_from_slice(&[43, 0, 1, 4, 0, 0, 0, 0]); // Hop-by-Hop -> Routing
    bytes.extend_from_slice(&[59, 0, 7, 7, 7, 7, 7, 7]); // Routing -> No Next Header
    bytes.extend_from_slice(&[0xde, 0xad]);
    let packet = Ipv6Packet::from_bytes(&bytes).unwrap();
    assert_eq!(packet.extension_headers.len(), 2);
    assert_eq!(packet.extension_headers[0].get_type(), 0);
    assert_eq!(packet.extension_headers[0].get_next_header_type(), 43);
    assert_eq!(packet.extension_headers[1].get_type(), 43);
    assert_eq!(packet.extension_headers[1].get_next_header_type(), 59);
    assert_eq!(packet.payload, vec![0xde, 0xad]);
    assert_eq!(packet.to_bytes(), bytes);
}

#[test]
fn ipv6_plain_packet_round_trip() {
    let mut bytes = fixed_header(17);
    bytes[0] = 0x62; // version 6, top DSCP bits of code point 8 (CS1)
    bytes[1] = 0x23; // low DSCP bits, ECN 2, flow-label high nibble 3
    bytes[2] = 0x45;
    bytes[3] = 0x67;
    bytes.extend_from_slice(&[0x00, 0x35, 0x00, 0x35, 0x00, 0x08, 0x00, 0x00]);
    let packet = Ipv6Packet::from_bytes(&bytes).unwrap();
    assert_eq!(packet.dscp, DscpType::CS1);
    assert_eq!(packet.ecn, EcnType::ECT0);
    assert_eq!(packet.flow_label, 0x34567);
    assert!(packet.extension_headers.is_empty());
    match packet.get_next_level_packet() {
        Ok(Ipv6NextLevelPacket::Udp(u)) => {
            assert_eq!(u.source, 53);
            assert_eq!(u.length, 8);
        }
        _ => panic!("expected a UDP packet"),
    }
    assert_eq!(packet.to_bytes(), bytes);
}

#[test]
fn ipv6_unknown_protocol_hands_back_raw_bytes() {
    let mut bytes = fixed_header(59); // No Next Header
    bytes.extend_from_slice(&[1, 2, 3]);
    let packet = Ipv6Packet::from_bytes(&bytes).unwrap();
    match packet.get_next_level_packet() {
        Ok(Ipv6NextLevelPacket::Unimplemented(raw)) => assert_eq!(raw, vec![1, 2, 3]),
        _ => panic!("expected the raw payload"),
    }
}

#[test]
fn ipv6_short_buffer_is_length_error() {
    // One byte short of the 40-byte minimum.
    let bytes = vec![0x60; 39];
    assert!(matches!(
        Ipv6Packet::from_bytes(&bytes),
        Err(DecodeError::LengthError)
    ));
}

#[test]
fn ipv6_wrong_version_is_invalid_version() {
    let mut bytes = fixed_header(59);
    bytes[0] = 0x40;
    assert!(matches!(
        Ipv6Packet::from_bytes(&bytes),
        Err(DecodeError::InvalidVersion)
    ));
}

#[test]
fn ipv6_illegal_dscp_is_invalid_field_value() {
    let mut bytes = fixed_header(59);
    bytes[0] = 0x60 | 0x01; // DSCP bits 0b000111 = 7, not a legal code point
    bytes[1] = 0xc0;
    assert!(matches!(
        Ipv6Packet::from_bytes(&bytes),
        Err(DecodeError::InvalidFieldValue)
    ));
}

#[test]
fn ipv6_truncated_extension_is_length_error() {
    let mut bytes = fixed_header(0);
    bytes.extend_from_slice(&[6, 1, 0, 0, 0, 0, 0, 0]); // declares 16 bytes, has 8
    assert!(matches!(
        Ipv6Packet::from_bytes(&bytes),
        Err(DecodeError::LengthError)
    ));
}

#[test]
fn ipv6_extension_headers_encode_to_multiples_of_eight() {
    let hbh = Ipv6ExtensionHeader::HopByHopOptions {
        next_header: 6,
        options: vec![Ipv6Option { kind: 5, data: vec![1, 2, 3] }],
    };
    let b = hbh.to_bytes();
    assert_eq!(b.len() % 8, 0);
    assert_eq!(b.len(), 8); // 2 prologue + 5 option + 1 Pad1
    assert_eq!(b[7], 0); // the Pad1 byte
    let dest = Ipv6ExtensionHeader::DestinationOptions {
        next_header: 6,
        options: vec![Ipv6Option { kind: 5, data: vec![1] }],
    };
    let b = dest.to_bytes();
    assert_eq!(b.len(), 8); // 2 prologue + 3 option + PadN(3)
    assert_eq!(&b[5..8], &[1, 1, 0]); // PadN: kind 1, length 1, one zero
    let frag = Ipv6ExtensionHeader::Fragment { next_header: 6, payload: vec![0; 7] };
    assert_eq!(frag.to_bytes().len(), 8);
    let mob = Ipv6ExtensionHeader::Mobility { next_header: 6, payload: vec![9; 3] };
    let b = mob.to_bytes();
    assert_eq!(b.len() % 8, 0);
    assert_eq!(b.len(), 8); // 2 prologue + 3 payload + 3 zeros
}

#[test]
fn ipv6_pad1_option_encodes_as_one_byte() {
    let pad = Ipv6Option { kind: 0, data: Vec::new() };
    assert_eq!(pad.to_bytes(), vec![0]);
    let opt = Ipv6Option { kind: 5, data: vec![7, 8] };
    assert_eq!(opt.to_bytes(), vec![5, 2, 7, 8]);
}

#[test]
fn ipv6_recalculate_is_idempotent() {
    let mut packet = Ipv6Packet::new();
    packet.next_header = 59;
    packet.payload = vec![1, 2, 3, 4];
    packet.extension_headers.push(Ipv6ExtensionHeader::Fragment {
        next_header: 59,
        payload: vec![0; 7],
    });
    packet.recalculate_all();
    let (l1, n1) = (packet.payload_len, packet.next_header);
    packet.recalculate_all();
    assert_eq!((l1, n1), (packet.payload_len, packet.next_header));
    assert_eq!(l1, 12); // 8 extension bytes + 4 payload bytes
    assert_eq!(n1, 44);
}

#[test]
fn ipv6_recalculate_next_header_keeps_upper_protocol_when_chainless() {
    let mut packet = Ipv6Packet::new();
    packet.next_header = 17;
    packet.recalculate_next_header();
    assert_eq!(packet.next_header, 17);
}

#[test]
fn ipv6_decode_encode_structural_round_trip() {
    // Decode, then re-encode after recalculation: the derived fields were
    // already consistent, so the bytes survive unchanged.
    let mut bytes = fixed_header(44);
    bytes[4] = 0x00;
    bytes[5] = 0x0c; // payload_len 12: 8 extension bytes + 4 payload bytes
    bytes.extend_from_slice(&[59, 0, 0, 0, 0, 0, 0, 1]);
    bytes.extend_from_slice(&[9, 9, 9, 9]);
    let mut packet = Ipv6Packet::from_bytes(&bytes).unwrap();
    packet.recalculate_all();
    assert_eq!(packet.to_bytes(), bytes);
}
