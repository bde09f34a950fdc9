use moquette::packet::decoder::{decode_client_packet, parse_remaining_length, ControlPacket};
use moquette::packet::reader::BufferReader;
use moquette::packet::types::{ConnectFlag, ControlPacketType, Payload, VariableHeader};

#[test]
fn decoder_from_int_to_enum() {
    let x = 5;

    let cp_type = ControlPacketType::try_from(x);

    assert!(cp_type.is_ok());
    if let Ok(t) = cp_type {
        assert_eq!(t, ControlPacketType::Pubrec);
    } else {
        panic!("Failed to convert {:?}", cp_type.ok());
    }
}

#[test]
fn decoder_from_int_to_enum_publish() {
    let x = 3;

    let cp_type = ControlPacketType::try_from(x);

    assert!(cp_type.is_ok());
    if let Ok(t) = cp_type {
        assert_eq!(t, ControlPacketType::Publish);
    } else {
        panic!("Failed to convert {:?}", cp_type.ok());
    }
}

#[test]
fn decoder_decode_header_remaining_length() {
    // Length to 0
    let bytes = &[0x00];
    let res = parse_remaining_length(bytes).unwrap();
    assert_eq!(res.l, 0);
    assert_eq!(res.br, 1);

    // Length to 127 (max on 1 byte)
    let bytes = &[0x7F];
    let res = parse_remaining_length(bytes).unwrap();
    assert_eq!(res.l, 127);
    assert_eq!(res.br, 1);

    // Length to 128 (overlap on 2 byte)
    let bytes = &[0x80, 0x01];
    let res = parse_remaining_length(bytes).unwrap();
    assert_eq!(res.l, 128);
    assert_eq!(res.br, 2);

    // Incomplete byte (continue bit is on but no other bytes was provided)
    let bytes = &[0x80];
    let res = parse_remaining_length(bytes);
    assert!(res.is_err());
}

#[test]
fn test_parse_connect_packet() {
    let raw_packet: &[u8] = &[
        0x10, 0x10, // Header: CONNECT (0x10), Remaining Len: 16
        0x00, 0x04, b'M', b'Q', b'T', b'T', // Protocol Name: MQTT
        0x04, // Protocol Level: 4 (MQTT v3.1.1)
        0x02, // Connect Flags: Clean Session = 1
        0x00, 0x3C, // Keep Alive: 60s
        0x00, 0x04, b't', b'e', b's', b't', // Client ID: "test"
    ];

    let packet = ControlPacket::parse(raw_packet).expect("Failed to parse CONNECT packet");

    assert_eq!(packet.header.packet_type, ControlPacketType::Connect);

    if let VariableHeader::Connect {
        protocol_name,
        protocol_level,
        keep_alive,
        connect_flag,
    } = packet.vheader
    {
        assert_eq!(protocol_name, "MQTT");
        assert_eq!(protocol_level, 4);
        assert_eq!(keep_alive, 60);
        assert!(connect_flag.clean_session);
        assert!(!connect_flag.username_flag);
    } else {
        panic!("Expected VariableHeader::Connect");
    }

    if let Payload::Connect(connect_payload) = packet.payload {
        assert_eq!(connect_payload.client_id, "test");
        assert_eq!(connect_payload.username, None);
    } else {
        panic!("Expected Payload::Connect");
    }
}

#[test]
fn test_parse_publish_qos0() {
    let raw_packet: &[u8] = &[
        0x30, 0x09, // Header: PUBLISH (QoS 0, Dup 0, Retain 0), Len 9
        0x00, 0x04, b't', b'e', b'm', b'p', // Topic Name: "temp" (6 octets)
        b'2', b'2', b'C', // Payload: "22C" (3 octets)
    ];

    let packet = ControlPacket::parse(raw_packet).expect("Failed to parse PUBLISH packet");

    if let VariableHeader::Publish {
        topic_name,
        packet_id,
    } = packet.vheader
    {
        assert_eq!(topic_name, "temp");
        assert_eq!(packet_id, None); // No Packet ID with QoS 0
    } else {
        panic!("Expected VariableHeader::Publish");
    }

    assert_eq!(packet.payload, Payload::Publish(b"22C".to_vec()));
}

#[test]
fn test_parse_publish_qos1() {
    // PUBLISH (QoS 1) on "a", Packet ID = 10, payload = "hi"
    let raw_packet: &[u8] = &[
        0x32, 0x07, // Header: PUBLISH QoS 1 (0x30 | 0x02)
        0x00, 0x01, b'a', // Topic Name: "a"
        0x00, 0x0A, // Packet ID: 10
        b'h', b'i', // Payload: "hi"
    ];

    let packet = ControlPacket::parse(raw_packet).expect("Failed to parse PUBLISH QoS 1 packet");

    if let VariableHeader::Publish {
        topic_name,
        packet_id,
    } = packet.vheader
    {
        assert_eq!(topic_name, "a");
        assert_eq!(packet_id, Some(10));
    } else {
        panic!("Expected VariableHeader::Publish");
    }

    assert_eq!(packet.payload, Payload::Publish(b"hi".to_vec()));
}

#[test]
fn test_parse_incomplete_packet() {
    let raw_packet: &[u8] = &[0x10, 0x0A, 0x00, 0x04];
    let res = ControlPacket::parse(raw_packet);

    assert!(res.is_err());
    assert_eq!(res.err(), Some("Incomplete packet"));
}

#[test]
fn test_invalid_fixed_header_flags() {
    let raw_packet: &[u8] = &[0x80, 0x00];
    let res = ControlPacket::parse(raw_packet);

    assert!(res.is_err());
    assert_eq!(res.err(), Some("Invalid flag detected"));
}

#[test]
fn test_read_string_success() {
    let data: &[u8] = &[0x00, 0x04, b'T', b'e', b's', b't'];
    let mut reader = BufferReader::new(data);

    let res = reader.read_string().unwrap();
    assert_eq!(res, "Test");
    assert!(reader.is_empty());
}

#[test]
fn test_read_string_too_short() {
    let data: &[u8] = &[0x00, 0x05, b'T', b'e', b's', b't'];
    let mut reader = BufferReader::new(data);

    assert!(reader.read_string().is_err());
}

#[test]
fn test_parse_subscribe_payload() {
    let raw: &[u8] = &[
        0x00, 0x03, b'a', b'/', b'b', 0x01, 0x00, 0x03, b'c', b'/', b'd', 0x00,
    ];
    let mut reader = BufferReader::new(raw);

    let payload = Payload::parse_subscribe(&mut reader).unwrap();
    if let Payload::Subscribe(filters) = payload {
        assert_eq!(filters.len(), 2);
        assert_eq!(filters[0].filter, "a/b");
        assert_eq!(filters[0].qos, 1);
        assert_eq!(filters[1].filter, "c/d");
        assert_eq!(filters[1].qos, 0);
    } else {
        panic!("Expected Payload::Subscribe");
    }
}

#[test]
fn test_parse_subscribe_invalid_qos() {
    let raw: &[u8] = &[0x00, 0x03, b'a', b'/', b'b', 0x03];
    let mut reader = BufferReader::new(raw);
    assert!(Payload::parse_subscribe(&mut reader).is_err());
}

#[test]
fn test_parse_connect_payload_with_flags() {
    let flags = ConnectFlag {
        username_flag: true,
        password_flag: true,
        will_retain: false,
        will_qos: 0,
        will_flag: true,
        clean_session: true,
    };

    let vheader = VariableHeader::Connect {
        protocol_name: "MQTT".to_string(),
        protocol_level: 4,
        connect_flag: flags,
        keep_alive: 60,
    };

    // client_id = "client", will_topic = "will", will_msg = "bye", user = "user", pass = "pass"
    let raw: &[u8] = &[
        0x00, 0x06, b'c', b'l', b'i', b'e', b'n', b't', // Client ID
        0x00, 0x04, b'w', b'i', b'l', b'l', // Will Topic
        0x00, 0x03, b'b', b'y', b'e', // Will Message
        0x00, 0x04, b'u', b's', b'e', b'r', // Username
        0x00, 0x04, b'p', b'a', b's', b's', // Password
    ];
    let mut reader = BufferReader::new(raw);

    let payload = Payload::parse_connect(&mut reader, &vheader).unwrap();

    if let Payload::Connect(conn_payload) = payload {
        assert_eq!(conn_payload.client_id, "client");
        assert_eq!(conn_payload.will_topic.as_deref(), Some("will"));
        assert_eq!(conn_payload.will_message.as_deref(), Some(&b"bye"[..]));
        assert_eq!(conn_payload.username.as_deref(), Some("user"));
        assert_eq!(conn_payload.password.as_deref(), Some(&b"pass"[..]));
    } else {
        panic!("Expected Payload::Connect");
    }
}

#[test]
fn decode_errors_each_have_their_input() {
    assert_eq!(decode_client_packet(&[]).err(), Some("Empty buffer"));
    assert_eq!(
        decode_client_packet(&[0x00, 0x00]).err(),
        Some("Control packet type representation must be between 1 and 14")
    );
    assert_eq!(
        decode_client_packet(&[0x20, 0x02, 0x00, 0x00]).err(),
        Some("Unexpected or unsupported control packet type")
    );
    assert_eq!(
        decode_client_packet(&[0xC0]).err(),
        Some("Incomplete remaining length data")
    );
    assert_eq!(
        decode_client_packet(&[0xC0, 0xFF, 0xFF, 0xFF, 0xFF, 0x01]).err(),
        Some("Malformed remaining length: exceeds 4 bytes")
    );
    // PUBACK whose body is too short for its packet id
    assert_eq!(
        decode_client_packet(&[0x40, 0x01, 0x00]).err(),
        Some("Buffer underflow while reading u16")
    );
    // CONNECT whose body stops before the protocol level
    assert_eq!(
        decode_client_packet(&[0x10, 0x02, 0x00, 0x00]).err(),
        Some("Buffer underflow while reading u8")
    );
    // CONNECT with reserved bit 0 set in its flags
    assert_eq!(
        decode_client_packet(&[0x10, 0x06, 0x00, 0x00, 0x04, 0x01, 0x00, 0x3C]).err(),
        Some("Bit 0 of Connect flag must be 0")
    );
    // topic name that is not UTF-8
    assert_eq!(
        decode_client_packet(&[0x30, 0x03, 0x00, 0x01, 0xFF]).err(),
        Some("Invalid UTF-8 string")
    );
    // topic name longer than the body
    assert_eq!(
        decode_client_packet(&[0x30, 0x03, 0x00, 0x05, b'a']).err(),
        Some("Buffer underflow while reading string")
    );
}

#[test]
fn decode_simple_packets() {
    let (h, v, p) = decode_client_packet(&[0xC0, 0x00]).unwrap();
    assert_eq!(h.packet_type, ControlPacketType::Pingreq);
    assert!(matches!(v, VariableHeader::Empty));
    assert_eq!(p, Payload::Empty);

    let (h, v, p) = decode_client_packet(&[0xE0, 0x00, 0xFF]).unwrap();
    assert_eq!(h.packet_type, ControlPacketType::Disconnect);
    assert!(matches!(v, VariableHeader::Empty));
    assert_eq!(p, Payload::Empty);

    let (h, v, p) = decode_client_packet(&[0x62, 0x02, 0x12, 0x34]).unwrap();
    assert_eq!(h.packet_type, ControlPacketType::Pubrel);
    assert_eq!(h.flags, 2);
    assert!(matches!(v, VariableHeader::PacketId(0x1234)));
    assert_eq!(p, Payload::Empty);

    let (h, v, p) = decode_client_packet(&[0xA2, 0x05, 0x00, 0x07, 0x00, 0x01, b'x']).unwrap();
    assert_eq!(h.packet_type, ControlPacketType::Unsubscribe);
    assert!(matches!(v, VariableHeader::PacketId(7)));
    assert_eq!(p, Payload::Unsubscribe(vec!["x".to_string()]));
}

#[test]
fn reader_reads_in_order() {
    let data: &[u8] = &[0x07, 0x01, 0x02, 0x00, 0x02, 0xAA, 0xBB, 0x09];
    let mut reader = BufferReader::new(data);
    assert_eq!(reader.len(), 8);
    assert_eq!(reader.read_u8(), Ok(7));
    assert_eq!(reader.read_u16(), Ok(0x0102));
    assert_eq!(reader.read_bytes(), Ok(vec![0xAA, 0xBB]));
    assert_eq!(reader.len(), 1);
    assert_eq!(reader.read_remaining(), vec![0x09]);
    assert!(reader.is_empty());
    assert_eq!(reader.read_u8(), Err("Buffer underflow while reading u8"));
    assert_eq!(reader.read_u16(), Err("Buffer underflow while reading u16"));
    let mut short = BufferReader::new(&[0x00, 0x03, 0x01]);
    assert_eq!(short.read_bytes(), Err("Buffer underflow while reading bytes"));
}

#[test]
fn connect_flag_byte_rules() {
    assert_eq!(ConnectFlag::try_from(0x01u8), Err("Bit 0 of Connect flag must be 0"));
    assert_eq!(
        ConnectFlag::try_from(0x1Cu8),
        Err("Invalid Will QoS level (must be 0, 1 or 2)")
    );
    assert_eq!(
        ConnectFlag::try_from(0x20u8),
        Err("Will QoS and Will Retain must be 0 if Will Flag is 0")
    );
    assert_eq!(
        ConnectFlag::try_from(0xEEu8),
        Ok(ConnectFlag {
            username_flag: true,
            password_flag: true,
            will_retain: true,
            will_qos: 1,
            will_flag: true,
            clean_session: true,
        })
    );
}

#[test]
fn parse_connect_needs_a_connect_header() {
    let mut reader = BufferReader::new(&[0x00, 0x00]);
    let vheader = VariableHeader::PacketId(1);
    assert_eq!(
        Payload::parse_connect(&mut reader, &vheader).err(),
        Some("Invalid variable header for CONNECT payload")
    );
}

#[test]
fn type_numbers_round_trip() {
    for n in 1..=14u8 {
        assert_eq!(ControlPacketType::try_from(n).unwrap().number(), n);
    }
    assert_eq!(ControlPacketType::Connect.number(), 1);
    assert_eq!(ControlPacketType::Disconnect.number(), 14);
}
