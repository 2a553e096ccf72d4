use packet_codec::util::{checksum, DecodeError, DscpType, EcnType, MacAddress};

#[test]
fn checksum_known_value() {
    // The classic RFC 1071 example: 00 01 f2 03 f4 f5 f6 f7.
    let bytes = vec![0x00, 0x01, 0xf2, 0x03, 0xf4, 0xf5, 0xf6, 0xf7];
    // Sum: 0x0001 + 0xf203 + 0xf4f5 + 0xf6f7 = 0x2ddf0 -> fold: 0xddf2 -> !0xddf2 = 0x220d.
    assert_eq!(checksum(bytes), 0x220d);
}

#[test]
fn checksum_pads_odd_length_with_zero() {
    // [ab] is checksummed as [ab 00].
    assert_eq!(checksum(vec![0xab]), checksum(vec![0xab, 0x00]));
}

#[test]
fn checksum_is_deterministic() {
    let bytes = vec![1, 2, 3, 4, 5, 6, 7];
    assert_eq!(checksum(bytes.clone()), checksum(bytes));
}

#[test]
fn checksum_complement_property() {
    // Writing the checksum into its zeroed field makes the buffer sum to zero.
    let mut buf = vec![0x45, 0x00, 0x00, 0x14, 0x12, 0x34, 0x00, 0x00, 0x40, 0x06, 0x00, 0x00];
    let c = checksum(buf.clone());
    buf[10] = (c >> 8) as u8;
    buf[11] = (c & 0xff) as u8;
    assert_eq!(checksum(buf), 0);
}

#[test]
fn checksum_empty_is_ffff() {
    assert_eq!(checksum(Vec::new()), 0xffff);
}

#[test]
fn dscp_codec_round_trips() {
    for bits in [0u8, 8, 16, 24, 32, 40, 46, 48, 56] {
        let d = DscpType::from_bits(bits).unwrap();
        assert_eq!(d.to_bits(), bits);
    }
    assert_eq!(DscpType::from_bits(46), Ok(DscpType::EF));
    assert_eq!(DscpType::from_bits(7), Err(DecodeError::InvalidFieldValue));
}

#[test]
fn ecn_codec_round_trips() {
    for bits in [0u8, 1, 2, 3] {
        let e = EcnType::from_bits(bits).unwrap();
        assert_eq!(e.to_bits(), bits);
    }
    assert_eq!(EcnType::from_bits(2), Ok(EcnType::ECT0));
    assert_eq!(EcnType::from_bits(4), Err(DecodeError::InvalidFieldValue));
}

#[test]
fn mac_address_from_short_slice_fails() {
    assert!(matches!(
        MacAddress::from_slice(&[1, 2, 3, 4, 5]),
        Err(DecodeError::LengthError)
    ));
    let m = MacAddress::from_slice(&[1, 2, 3, 4, 5, 6, 7]).unwrap();
    assert_eq!(m.to_bytes(), [1, 2, 3, 4, 5, 6]);
}
