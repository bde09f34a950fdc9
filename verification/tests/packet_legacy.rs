use moquette::packet::{ControlPacketType, FixedHeader, PublishFlag};

#[test]
fn packet_from_int_to_enum() {
    let x = 5;

    let cp_type = ControlPacketType::try_from(x);

    assert!(cp_type.is_ok());
    if let Ok(t) = cp_type {
        assert_eq!(t, ControlPacketType::Pubrec);
    } else {
        panic!("Failed to convert {:?}", cp_type.ok());
    }
}

#[test]
fn packet_from_int_to_enum_publish() {
    let x = 3;

    let cp_type = ControlPacketType::try_from(x);

    assert!(cp_type.is_ok());
    if let Ok(t) = cp_type {
        assert_eq!(t, ControlPacketType::Publish(PublishFlag::default()));
    } else {
        panic!("Failed to convert {:?}", cp_type.ok());
    }
}

#[test]
fn packet_decode_header_remaining_length() {
    // Length to 0
    let bytes = &[0x00];
    let res = FixedHeader::decoding_remainin_length(bytes).unwrap();
    assert_eq!(res.l, 0);
    assert_eq!(res.br, 1);

    // Length to 127 (max on 1 byte)
    let bytes = &[0x7F];
    let res = FixedHeader::decoding_remainin_length(bytes).unwrap();
    assert_eq!(res.l, 127);
    assert_eq!(res.br, 1);

    // Length to 128 (overlap on 2 byte)
    let bytes = &[0x80, 0x01];
    let res = FixedHeader::decoding_remainin_length(bytes).unwrap();
    assert_eq!(res.l, 128);
    assert_eq!(res.br, 2);

    // Incomplete byte (continue bit is on but no other bytes was provided)
    let bytes = &[0x80];
    let res = FixedHeader::decoding_remainin_length(bytes);
    assert!(res.is_err());
}

#[test]
fn legacy_type_numbers_out_of_range_are_refused() {
    assert_eq!(
        ControlPacketType::try_from(0u8),
        Err("Control packet type representation musty be between 1 and 14")
    );
    assert_eq!(
        ControlPacketType::try_from(15u8),
        Err("Control packet type representation musty be between 1 and 14")
    );
    assert_eq!(ControlPacketType::try_from(14u8), Ok(ControlPacketType::Disconnect));
    assert_eq!(ControlPacketType::try_from(1u8), Ok(ControlPacketType::Connect));
}

#[test]
fn legacy_check_flag_fills_publish_flags() {
    let mut t = ControlPacketType::Publish(PublishFlag::default());
    // dup, QoS 1, retain
    assert!(FixedHeader::check_flag(&mut t, 0x0B));
    assert_ne!(t, ControlPacketType::Publish(PublishFlag::default()));

    let mut t = ControlPacketType::Publish(PublishFlag::default());
    // QoS 3 is refused
    assert!(!FixedHeader::check_flag(&mut t, 0x06));

    let mut t = ControlPacketType::Subscribe;
    assert!(FixedHeader::check_flag(&mut t, 0x02));
    assert!(!FixedHeader::check_flag(&mut t, 0x00));

    let mut t = ControlPacketType::Connect;
    assert!(FixedHeader::check_flag(&mut t, 0x00));
    assert!(!FixedHeader::check_flag(&mut t, 0x02));
}

#[test]
fn legacy_from_raw_bytes_errors() {
    assert_eq!(
        FixedHeader::from_raw_bytes(&[0x00, 0x00]).err(),
        Some("Control packet type representation musty be between 1 and 14")
    );
    assert_eq!(FixedHeader::from_raw_bytes(&[0x11, 0x00]).err(), Some("Invalid flag detected"));
    assert_eq!(FixedHeader::from_raw_bytes(&[0x36, 0x00]).err(), Some("Invalid flag detected"));
    assert_eq!(
        FixedHeader::from_raw_bytes(&[0x10, 0x80]).err(),
        Some("Incomplete remaining length data")
    );
    assert_eq!(
        FixedHeader::from_raw_bytes(&[0x10, 0x80, 0x80, 0x80, 0x80, 0x01]).err(),
        Some("Malformed remaining length: exceeds 4 bytes")
    );
    assert!(FixedHeader::from_raw_bytes(&[0x82, 0x05]).is_ok());
    assert!(FixedHeader::from_raw_bytes(&[0x3B, 0x05]).is_ok());
}

#[test]
fn legacy_type_numbers() {
    for n in 1..=14u8 {
        assert_eq!(ControlPacketType::try_from(n).unwrap().number(), n);
    }
    let mut t = ControlPacketType::Publish(PublishFlag::default());
    assert!(FixedHeader::check_flag(&mut t, 0x0B));
    assert_eq!(t.number(), 3);
}
