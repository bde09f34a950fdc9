use moquette::broker::state::BrokerState;
use moquette::network::codec::MqttCodec;
use moquette::network::server::{handl_packet, Action};
use moquette::packet::encoder::ServerPacket;

/// One client session: its id and the packets written back to it.
struct Session {
    client_id: Option<String>,
    written: Vec<ServerPacket>,
}

impl Session {
    fn new() -> Self {
        Session { client_id: None, written: Vec::new() }
    }
}

/// Feeds the bytes of one client to the broker, carrying out the actions like the server
/// loop does; messages for subscribers are returned as (client, packet).
fn feed(broker: &mut BrokerState, session: &mut Session, bytes: &[u8]) -> Vec<(String, ServerPacket)> {
    let mut delivered = Vec::new();
    let mut pos = 0;
    while let Some((packet, n)) = MqttCodec::decode_frame(&bytes[pos..]).unwrap() {
        pos += n;
        for action in handl_packet(&mut session.client_id, packet).unwrap() {
            match action {
                Action::Reply(p) => session.written.push(p),
                Action::AssignGeneratedId => session.client_id = Some("auto-1".to_string()),
                Action::Subscribe { client_id, filter, max_qos } => {
                    broker.subscribe(client_id, filter, max_qos)
                }
                Action::Unsubscribe { client_id, filter } => broker.unsubscribe(&client_id, &filter),
                Action::Publish { topic, packet } => {
                    delivered.extend(broker.deliveries(&topic, &packet))
                }
            }
        }
    }
    assert_eq!(pos, bytes.len());
    delivered
}

fn connect(id: &str) -> Vec<u8> {
    let mut raw = vec![0x10, (12 + id.len()) as u8, 0x00, 0x04, b'M', b'Q', b'T', b'T', 0x04, 0x02, 0x00, 0x05];
    raw.push(0x00);
    raw.push(id.len() as u8);
    raw.extend_from_slice(id.as_bytes());
    raw
}

fn subscribe(packet_id: u16, filter: &str) -> Vec<u8> {
    let mut raw = vec![0x82, (5 + filter.len()) as u8];
    raw.extend_from_slice(&packet_id.to_be_bytes());
    raw.extend_from_slice(&(filter.len() as u16).to_be_bytes());
    raw.extend_from_slice(filter.as_bytes());
    raw.push(0x00);
    raw
}

fn unsubscribe(packet_id: u16, filter: &str) -> Vec<u8> {
    let mut raw = vec![0xA2, (4 + filter.len()) as u8];
    raw.extend_from_slice(&packet_id.to_be_bytes());
    raw.extend_from_slice(&(filter.len() as u16).to_be_bytes());
    raw.extend_from_slice(filter.as_bytes());
    raw
}

fn publish(topic: &str, payload: &str) -> Vec<u8> {
    let mut raw = vec![0x30, (2 + topic.len() + payload.len()) as u8];
    raw.extend_from_slice(&(topic.len() as u16).to_be_bytes());
    raw.extend_from_slice(topic.as_bytes());
    raw.extend_from_slice(payload.as_bytes());
    raw
}

#[test]
fn test_wildcards_and_unsubscribe() {
    let mut broker = BrokerState::new();
    let mut sub = Session::new();
    let mut publ = Session::new();

    feed(&mut broker, &mut sub, &connect("subscriber_client"));
    feed(&mut broker, &mut publ, &connect("publisher_client"));
    assert!(matches!(sub.written[0], ServerPacket::Connack { .. }));
    assert!(matches!(publ.written[0], ServerPacket::Connack { .. }));

    feed(&mut broker, &mut sub, &subscribe(1, "sensors/+/temperature"));
    assert!(matches!(sub.written[1], ServerPacket::Suback { .. }));

    let delivered = feed(&mut broker, &mut publ, &publish("sensors/kitchen/temperature", "21.5"));
    assert_eq!(delivered.len(), 1);
    assert_eq!(delivered[0].0, "subscriber_client");
    match &delivered[0].1 {
        ServerPacket::Publish { topic_name, payload, .. } => {
            assert_eq!(topic_name, "sensors/kitchen/temperature");
            assert_eq!(payload, b"21.5");
        }
        other => panic!("expected a Publish, got {:?}", other),
    }

    feed(&mut broker, &mut sub, &unsubscribe(2, "sensors/+/temperature"));
    assert_eq!(sub.written[2], ServerPacket::Unsuback { packet_id: 2 });

    let delivered = feed(&mut broker, &mut publ, &publish("sensors/kitchen/temperature", "23.0"));
    assert!(delivered.is_empty(), "Client received a message after unsubscribing");
}

#[test]
fn test_stress_concurrent_sub_unsub() {
    let mut broker = BrokerState::new();
    let client_count = 200;
    let mut sessions: Vec<Session> = (0..client_count).map(|_| Session::new()).collect();

    for (i, session) in sessions.iter_mut().enumerate() {
        feed(&mut broker, session, &connect(&format!("stress_client_{}", i)));
        feed(&mut broker, session, &subscribe(1, "device/#"));
    }
    let mut probe = Session::new();
    feed(&mut broker, &mut probe, &connect("probe"));
    assert_eq!(feed(&mut broker, &mut probe, &publish("device/x", "1")).len(), client_count);

    for session in sessions.iter_mut() {
        feed(&mut broker, session, &unsubscribe(2, "device/#"));
        assert_eq!(session.written.len(), 3);
        assert_eq!(session.written[2], ServerPacket::Unsuback { packet_id: 2 });
    }
    assert!(feed(&mut broker, &mut probe, &publish("device/x", "1")).is_empty());
}
