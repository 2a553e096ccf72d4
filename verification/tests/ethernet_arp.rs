use packet_codec::arp::{ArpExtendedPacket, ArpOperation, ArpPacket};
use packet_codec::ethernet::EthernetPacket;
use packet_codec::util::{DecodeError, Ipv4Address, MacAddress};

#[test]
fn ethernet_bytes_round_trip() {
    let bytes: Vec<u8> = vec![
        0xff, 0xff, 0xff, 0xff, 0xff, 0xff, 0x00, 0x11, 0x22, 0x33, 0x44, 0x55, 0x08, 0x00, 0xde,
        0xad, 0xbe, 0xef,
    ];
    let frame = EthernetPacket::from_bytes(&bytes).unwrap();
    assert_eq!(frame.destination.to_bytes(), [0xff; 6]);
    assert_eq!(frame.source.to_bytes(), [0x00, 0x11, 0x22, 0x33, 0x44, 0x55]);
    assert_eq!(frame.protocol, 0x0800);
    assert_eq!(frame.payload, vec![0xde, 0xad, 0xbe, 0xef]);
    assert_eq!(frame.to_bytes(), bytes);
}

#[test]
fn ethernet_header_is_14_bytes() {
    let frame = EthernetPacket::new();
    assert_eq!(frame.header_to_bytes().len(), 14);
}

#[test]
fn ethernet_short_buffer_is_length_error() {
    // One byte short of the 14-byte minimum.
    let bytes = vec![0u8; 13];
    assert!(matches!(
        EthernetPacket::from_bytes(&bytes),
        Err(DecodeError::LengthError)
    ));
}

#[test]
fn arp_fixed_request_wire_format() {
    // The exact 28-byte encoding of an Ethernet/IPv4 request.
    let mut packet = ArpPacket::new();
    packet.operation = ArpOperation::Request;
    packet.sender_mac = MacAddress::from_bytes([0xaa, 0xbb, 0xcc, 0xdd, 0xee, 0xff]);
    packet.sender_ip = Ipv4Address::new(192, 168, 1, 1);
    packet.target_mac = MacAddress::from_bytes([0, 0, 0, 0, 0, 0]);
    packet.target_ip = Ipv4Address::new(192, 168, 1, 2);
    let expected: Vec<u8> = vec![
        0x00, 0x01, 0x08, 0x00, 0x06, 0x04, 0x00, 0x01, 0xaa, 0xbb, 0xcc, 0xdd, 0xee, 0xff, 0xc0,
        0xa8, 0x01, 0x01, 0x00, 0x00, 0x00, 0x00, 0x00, 0x00, 0xc0, 0xa8, 0x01, 0x02,
    ];
    assert_eq!(packet.to_bytes(), expected);
    assert_eq!(packet.header_to_bytes(), expected);
}

#[test]
fn arp_fixed_bytes_round_trip() {
    let bytes: Vec<u8> = vec![
        0x00, 0x01, 0x08, 0x00, 0x06, 0x04, 0x00, 0x02, 0xaa, 0xbb, 0xcc, 0xdd, 0xee, 0xff, 0x0a,
        0x00, 0x00, 0x01, 0x11, 0x22, 0x33, 0x44, 0x55, 0x66, 0x0a, 0x00, 0x00, 0x02,
    ];
    let packet = ArpPacket::from_bytes(&bytes).unwrap();
    assert!(matches!(packet.operation, ArpOperation::Reply));
    assert_eq!(packet.sender_ip.octets(), [10, 0, 0, 1]);
    assert_eq!(packet.to_bytes(), bytes);
}

#[test]
fn arp_fixed_short_buffer_is_length_error() {
    // One byte short of the 28-byte minimum.
    let bytes = vec![0u8; 27];
    assert!(matches!(
        ArpPacket::from_bytes(&bytes),
        Err(DecodeError::LengthError)
    ));
}

#[test]
fn arp_fixed_wrong_lengths_are_invalid_field_value() {
    let mut bytes = vec![0u8; 28];
    bytes[1] = 1;
    bytes[3] = 8;
    // hardware_addr_len 6 and protocol_addr_len 4 are mandatory
    bytes[4] = 8;
    bytes[5] = 4;
    assert!(matches!(
        ArpPacket::from_bytes(&bytes),
        Err(DecodeError::InvalidFieldValue)
    ));
}

#[test]
fn arp_operation_unknown_value_is_preserved() {
    let op = ArpOperation::from_value(7);
    assert!(matches!(op, ArpOperation::Other(7)));
    assert_eq!(op.to_value(), 7);
    assert_eq!(ArpOperation::from_value(3).to_value(), 3);
}

#[test]
fn arp_extended_variable_addresses_round_trip() {
    let mut packet = ArpExtendedPacket::new();
    packet.hardware_type = 16;
    packet.protocol_type = 0x0800;
    packet.hardware_addr_len = 2;
    packet.protocol_addr_len = 4;
    packet.operation = ArpOperation::Request;
    packet.sender_hardware_addr = vec![0x01, 0x02];
    packet.sender_protocol_addr = vec![10, 0, 0, 1];
    packet.target_hardware_addr = vec![0x03, 0x04];
    packet.target_protocol_addr = vec![10, 0, 0, 2];
    let bytes = packet.to_bytes();
    assert_eq!(bytes.len(), 8 + 2 * 2 + 2 * 4);
    let again = ArpExtendedPacket::from_bytes(&bytes).unwrap();
    assert_eq!(again.hardware_type, 16);
    assert_eq!(again.sender_hardware_addr, vec![0x01, 0x02]);
    assert_eq!(again.target_protocol_addr, vec![10, 0, 0, 2]);
    assert_eq!(again.to_bytes(), bytes);
}

#[test]
fn arp_extended_truncated_addresses_are_length_error() {
    // The prologue declares 6-byte and 4-byte addresses, so 28 bytes are
    // needed, but only 20 are supplied.
    let mut bytes = vec![0u8; 20];
    bytes[4] = 6;
    bytes[5] = 4;
    assert!(matches!(
        ArpExtendedPacket::from_bytes(&bytes),
        Err(DecodeError::LengthError)
    ));
}
