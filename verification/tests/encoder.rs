use moquette::packet::encoder::{encode_remaining_length, encode_utf8_string, ServerPacket};
use moquette::packet::types::{ConnackReturnCode, SubackReturnCode};

#[test]
fn test_encode_connack() {
    let packet = ServerPacket::Connack {
        session_present: true,
        return_code: ConnackReturnCode::Accepted,
    };

    let bytes = packet.encode();
    assert_eq!(bytes, vec![0x20, 0x02, 0x01, 0x00]);
}

#[test]
fn test_encode_pingresp() {
    let packet = ServerPacket::Pingresp;
    assert_eq!(packet.encode(), vec![0xD0, 0x00]);
}

#[test]
fn test_encode_remaining_length() {
    let mut buf = Vec::new();

    encode_remaining_length(64, &mut buf);
    assert_eq!(buf, vec![0x40]);
    buf.clear();

    encode_remaining_length(321, &mut buf);
    assert_eq!(buf, vec![0xC1, 0x02]);
}

#[test]
fn test_encode_publish() {
    let packet = ServerPacket::Publish {
        topic_name: "a/b".to_string(),
        packet_id: None,
        payload: vec![0x01, 0x02],
        dup: false,
        qos: 0,
        retain: false,
    };

    let expected = vec![
        0x30, 0x07, // Header (QoS 0) + Remaining Length (7 octets)
        0x00, 0x03, b'a', b'/', b'b', // Topic name: Length (3) + "a/b"
        0x01, 0x02, // Payload
    ];
    assert_eq!(packet.encode(), expected);
}

#[test]
fn encode_remaining_length_edges() {
    let mut buf = Vec::new();
    encode_remaining_length(0, &mut buf);
    assert_eq!(buf, vec![0x00]);
    buf.clear();
    encode_remaining_length(127, &mut buf);
    assert_eq!(buf, vec![0x7F]);
    buf.clear();
    encode_remaining_length(128, &mut buf);
    assert_eq!(buf, vec![0x80, 0x01]);
    buf.clear();
    encode_remaining_length(16_383, &mut buf);
    assert_eq!(buf, vec![0xFF, 0x7F]);
    buf.clear();
    encode_remaining_length(16_384, &mut buf);
    assert_eq!(buf, vec![0x80, 0x80, 0x01]);
    buf.clear();
    encode_remaining_length(268_435_455, &mut buf);
    assert_eq!(buf, vec![0xFF, 0xFF, 0xFF, 0x7F]);
}

#[test]
fn encode_publish_with_flags_and_packet_id() {
    let packet = ServerPacket::Publish {
        topic_name: "t".to_string(),
        packet_id: Some(0x0102),
        payload: vec![0xAA],
        dup: true,
        qos: 1,
        retain: true,
    };
    assert_eq!(
        packet.encode(),
        vec![0x3B, 0x06, 0x00, 0x01, b't', 0x01, 0x02, 0xAA]
    );

    // QoS 0: the packet id is left out
    let packet = ServerPacket::Publish {
        topic_name: "t".to_string(),
        packet_id: Some(0x0102),
        payload: vec![],
        dup: false,
        qos: 0,
        retain: false,
    };
    assert_eq!(packet.encode(), vec![0x30, 0x03, 0x00, 0x01, b't']);
}

#[test]
fn encode_acks() {
    let suback = ServerPacket::Suback {
        packet_id: 1,
        return_code: vec![SubackReturnCode::SuccessQoS0, SubackReturnCode::Failure],
    };
    assert_eq!(suback.encode(), vec![0x90, 0x04, 0x00, 0x01, 0x00, 0x80]);

    let unsuback = ServerPacket::Unsuback { packet_id: 0x0203 };
    assert_eq!(unsuback.encode(), vec![0xB0, 0x02, 0x02, 0x03]);

    let puback = ServerPacket::Puback { packet_id: 9 };
    assert_eq!(puback.encode(), vec![0x40, 0x02, 0x00, 0x09]);

    let connack = ServerPacket::Connack {
        session_present: false,
        return_code: ConnackReturnCode::NotAuthorized,
    };
    assert_eq!(connack.encode(), vec![0x20, 0x02, 0x00, 0x05]);
}

#[test]
fn encode_into_appends() {
    let mut buf = vec![0xEE];
    ServerPacket::Pingresp.encode_into(&mut buf);
    ServerPacket::Puback { packet_id: 1 }.encode_into(&mut buf);
    assert_eq!(buf, vec![0xEE, 0xD0, 0x00, 0x40, 0x02, 0x00, 0x01]);
}

#[test]
fn encode_utf8_string_prefixes_length() {
    let mut buf = vec![0x01];
    encode_utf8_string("é", &mut buf);
    assert_eq!(buf, vec![0x01, 0x00, 0x02, 0xC3, 0xA9]);
}

#[test]
fn clone_keeps_packet() {
    let packet = ServerPacket::Publish {
        topic_name: "x/y".to_string(),
        packet_id: Some(3),
        payload: vec![1, 2, 3],
        dup: false,
        qos: 2,
        retain: true,
    };
    assert_eq!(packet.clone(), packet);
}
