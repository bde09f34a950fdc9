use moquette::network::codec::MqttCodec;
use moquette::network::server::{handl_packet, Action};
use moquette::packet::error::ParseError;
use moquette::packet::types::ControlPacketType;

fn answers(stream: &[u8]) -> Vec<u8> {
    let mut out = Vec::new();
    let mut pos = 0;
    let mut client_id = Some("c".to_string());
    while let Some((packet, n)) = MqttCodec::decode_frame(&stream[pos..]).unwrap() {
        pos += n;
        for action in handl_packet(&mut client_id, packet).unwrap() {
            if let Action::Reply(p) = action {
                p.encode_into(&mut out);
            }
        }
    }
    out
}

#[test]
fn test_concatenated_packets_in_single_write() {
    // Two PINGREQ packets concatenated in a single buffer
    let two_pingreqs = [0xC0, 0x00, 0xC0, 0x00];
    assert_eq!(answers(&two_pingreqs), vec![0xD0, 0x00, 0xD0, 0x00]);
}

#[test]
fn test_fragmented_packet_across_multiple_writes() {
    // Only the first byte of a PINGREQ: more bytes are needed
    assert!(matches!(MqttCodec::decode_frame(&[0xC0]), Ok(None)));
    // Once the second byte has come, the frame is complete
    assert_eq!(answers(&[0xC0, 0x00]), vec![0xD0, 0x00]);
}

#[test]
fn empty_stream_waits() {
    assert!(matches!(MqttCodec::decode_frame(&[]), Ok(None)));
}

#[test]
fn frame_takes_exactly_its_bytes() {
    let stream = [0x30, 0x03, 0x00, 0x01, b't', 0xC0, 0x00];
    let (packet, n) = MqttCodec::decode_frame(&stream).unwrap().unwrap();
    assert_eq!(n, 5);
    assert_eq!(packet.header.packet_type, ControlPacketType::Publish);
    // a packet whose length says more bytes are coming
    assert!(matches!(MqttCodec::decode_frame(&stream[..4]), Ok(None)));
}

#[test]
fn broken_stream_is_an_error() {
    assert_eq!(
        MqttCodec::decode_frame(&[0x80, 0x00]).err(),
        Some(ParseError::Invalid("Invalid flag detected"))
    );
    assert_eq!(
        MqttCodec::decode_frame(&[0x00]).err(),
        Some(ParseError::Invalid(
            "Control packet type representation must be between 1 and 14"
        ))
    );
    assert_eq!(
        MqttCodec::decode_frame(&[0xC0, 0x80, 0x80, 0x80, 0x80, 0x01]).err(),
        Some(ParseError::Invalid("Malformed remaining length: exceeds 4 bytes"))
    );
    // four bytes of a remaining length field that goes on: more bytes may end it
    assert!(matches!(MqttCodec::decode_frame(&[0xC0, 0x80, 0x80, 0x80, 0x80]), Ok(None)));
    // a complete packet whose body does not decode
    assert_eq!(
        MqttCodec::decode_frame(&[0x40, 0x01, 0x00]).err(),
        Some(ParseError::Invalid("Buffer underflow while reading u16"))
    );
}

#[test]
fn parse_error_texts() {
    assert_eq!(ParseError::Incomplete.describe(), "Incomplete packet");
    assert_eq!(
        ParseError::Invalid("Empty buffer").describe(),
        "Invalid packet: Empty buffer"
    );
    assert_eq!(ParseError::Io.describe(), "I/O error");
    assert_eq!(ParseError::from("x"), ParseError::Invalid("x"));
}
