use moquette::broker::state::{forward_packet, BrokerState};
use moquette::packet::encoder::ServerPacket;

#[test]
fn publish_is_capped_to_subscriber_qos() {
    let mut broker = BrokerState::new();

    broker.subscribe("esp32".to_string(), "planty/mecha/motor".to_string(), 0);

    let publish = ServerPacket::Publish {
        topic_name: "planty/mecha/motor".to_string(),
        packet_id: Some(42),
        payload: b"open".to_vec(),
        dup: false,
        qos: 1,
        retain: false,
    };
    let deliveries = broker.deliveries("planty/mecha/motor", &publish);

    assert_eq!(deliveries.len(), 1, "message should be delivered");
    let (client, forwarded) = &deliveries[0];
    assert_eq!(client, "esp32");
    match forwarded {
        ServerPacket::Publish { qos, packet_id, .. } => {
            assert_eq!(*qos, 0, "QoS must be capped to the subscriber's max_qos (0)");
            assert_eq!(*packet_id, None, "QoS 0 publish must not carry a packet id");
        }
        other => panic!("expected a Publish, got {:?}", other),
    }
}

#[test]
fn publish_carries_packet_id_when_qos_allowed() {
    let mut broker = BrokerState::new();

    broker.subscribe("client".to_string(), "topic".to_string(), 2);

    let publish = ServerPacket::Publish {
        topic_name: "topic".to_string(),
        packet_id: Some(7),
        payload: b"hi".to_vec(),
        dup: false,
        qos: 2,
        retain: false,
    };
    let deliveries = broker.deliveries("topic", &publish);

    assert_eq!(deliveries.len(), 1, "message should be delivered");
    match &deliveries[0].1 {
        ServerPacket::Publish { qos, packet_id, .. } => {
            assert_eq!(*qos, 2, "QoS 2 subscriber keeps QoS 2");
            assert_eq!(*packet_id, Some(7));
        }
        other => panic!("expected a Publish, got {:?}", other),
    }
}

#[test]
fn forward_caps_to_the_lower_qos() {
    let publish = ServerPacket::Publish {
        topic_name: "t".to_string(),
        packet_id: Some(5),
        payload: vec![1],
        dup: true,
        qos: 1,
        retain: true,
    };
    // subscriber allows more than the message has: the message QoS stays
    assert_eq!(forward_packet(&publish, 2), publish);
    assert_eq!(
        forward_packet(&publish, 0),
        ServerPacket::Publish {
            topic_name: "t".to_string(),
            packet_id: None,
            payload: vec![1],
            dup: true,
            qos: 0,
            retain: true,
        }
    );
    // other packets go out unchanged
    assert_eq!(forward_packet(&ServerPacket::Pingresp, 0), ServerPacket::Pingresp);
}

#[test]
fn unsubscribe_and_disconnect_stop_deliveries() {
    let mut broker = BrokerState::default();
    broker.subscribe("a".to_string(), "sensors/+/temperature".to_string(), 1);
    broker.subscribe("b".to_string(), "sensors/#".to_string(), 1);
    let publish = ServerPacket::Publish {
        topic_name: "sensors/kitchen/temperature".to_string(),
        packet_id: Some(1),
        payload: b"21.5".to_vec(),
        dup: false,
        qos: 1,
        retain: false,
    };
    let mut clients: Vec<String> = broker
        .deliveries("sensors/kitchen/temperature", &publish)
        .into_iter()
        .map(|(c, _)| c)
        .collect();
    clients.sort();
    assert_eq!(clients, vec!["a".to_string(), "b".to_string()]);

    broker.unsubscribe("a", "sensors/+/temperature");
    let d = broker.deliveries("sensors/kitchen/temperature", &publish);
    assert_eq!(d.len(), 1);
    assert_eq!(d[0].0, "b");

    broker.disconnect("b");
    assert!(broker.deliveries("sensors/kitchen/temperature", &publish).is_empty());
}

#[test]
fn no_subscriber_no_delivery() {
    let broker = BrokerState::new();
    assert!(broker.deliveries("x", &ServerPacket::Pingresp).is_empty());
}
