use moquette::broker::state::BrokerState;
use moquette::packet::decoder::{decode_client_packet, parse_remaining_length};
use moquette::packet::encoder::{encode_remaining_length, ServerPacket};
use moquette::packet::types::{ControlPacketType, Payload, VariableHeader};

#[test]
fn remaining_length_round_trip() {
    for n in [0usize, 1, 127, 128, 300, 16_383, 16_384, 2_097_151, 2_097_152, 268_435_455] {
        let mut buf = Vec::new();
        encode_remaining_length(n, &mut buf);
        let len = buf.len();
        assert!((1..=4).contains(&len));
        buf.extend_from_slice(&[0xAB, 0xCD]);
        let rl = parse_remaining_length(&buf).unwrap();
        assert_eq!(rl.l, n);
        assert_eq!(rl.br, len);
    }
}

#[test]
fn publish_round_trip() {
    for qos in 0..=2u8 {
        let packet = ServerPacket::Publish {
            topic_name: "home/kitchen".to_string(),
            packet_id: Some(77),
            payload: vec![1, 2, 3, 4],
            dup: qos == 1,
            qos,
            retain: qos == 2,
        };
        let mut bytes = packet.encode();
        bytes.extend_from_slice(&[0xC0, 0x00]);
        let (h, v, p) = decode_client_packet(&bytes).unwrap();
        assert_eq!(h.packet_type, ControlPacketType::Publish);
        assert_eq!((h.flags >> 1) & 3, qos);
        assert_eq!(h.flags & 8 != 0, qos == 1);
        assert_eq!(h.flags & 1 != 0, qos == 2);
        match v {
            VariableHeader::Publish { topic_name, packet_id } => {
                assert_eq!(topic_name, "home/kitchen");
                assert_eq!(packet_id, if qos > 0 { Some(77) } else { None });
            }
            other => panic!("expected a PUBLISH header, got {:?}", other),
        }
        assert_eq!(p, Payload::Publish(vec![1, 2, 3, 4]));
    }
}

#[test]
fn puback_round_trip() {
    let bytes = ServerPacket::Puback { packet_id: 0xBEEF }.encode();
    let (h, v, p) = decode_client_packet(&bytes).unwrap();
    assert_eq!(h.packet_type, ControlPacketType::Puback);
    assert!(matches!(v, VariableHeader::PacketId(0xBEEF)));
    assert_eq!(p, Payload::Empty);
}

#[test]
fn subscriber_found_then_not_after_removal() {
    let mut broker = BrokerState::new();
    broker.subscribe("c".to_string(), "a/+/#".to_string(), 1);
    let ping = ServerPacket::Pingresp;
    for topic in ["a/b", "a/b/c", "a/x/y/z"] {
        assert_eq!(broker.deliveries(topic, &ping).len(), 1);
    }
    assert!(broker.deliveries("b/a", &ping).is_empty());
    broker.disconnect("c");
    for topic in ["a/b", "a/b/c", "a/x/y/z"] {
        assert!(broker.deliveries(topic, &ping).is_empty());
    }
}
