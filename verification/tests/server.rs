use moquette::network::server::{handl_packet, Action};
use moquette::packet::decoder::ControlPacket;
use moquette::packet::encoder::ServerPacket;
use moquette::packet::types::{ConnackReturnCode, SubackReturnCode};

fn connack() -> Action {
    Action::Reply(ServerPacket::Connack {
        session_present: false,
        return_code: ConnackReturnCode::Accepted,
    })
}

fn connect_with_id(id: &str) -> ControlPacket {
    let mut raw = vec![0x10, (12 + id.len()) as u8, 0x00, 0x04, b'M', b'Q', b'T', b'T', 0x04, 0x02, 0x00, 0x3C];
    raw.push(0x00);
    raw.push(id.len() as u8);
    raw.extend_from_slice(id.as_bytes());
    ControlPacket::parse(&raw).unwrap()
}

#[test]
fn connect_with_client_id_sets_it() {
    let mut client_id = None;
    let actions = handl_packet(&mut client_id, connect_with_id("test")).unwrap();
    assert_eq!(actions, vec![connack()]);
    assert_eq!(client_id, Some("test".to_string()));
}

#[test]
fn connect_without_client_id_asks_for_a_generated_one() {
    let mut client_id = None;
    let actions = handl_packet(&mut client_id, connect_with_id("")).unwrap();
    assert_eq!(actions, vec![Action::AssignGeneratedId, connack()]);
    assert_eq!(client_id, None);
}

#[test]
fn subscribe_before_connect_is_refused() {
    let mut client_id = None;
    let packet = ControlPacket::parse(&[0x82, 0x06, 0x00, 0x01, 0x00, 0x01, b'a', 0x01]).unwrap();
    assert_eq!(
        handl_packet(&mut client_id, packet),
        Err("SUBSCRIBE received before CONNECT")
    );
    assert_eq!(client_id, None);
}

#[test]
fn subscribe_keeps_requested_qos_and_answers_suback() {
    let mut client_id = Some("c".to_string());
    let packet = ControlPacket::parse(&[
        0x82, 0x0A, 0x00, 0x05, 0x00, 0x01, b'a', 0x01, 0x00, 0x01, b'b', 0x02,
    ])
    .unwrap();
    let actions = handl_packet(&mut client_id, packet).unwrap();
    assert_eq!(
        actions,
        vec![
            Action::Subscribe { client_id: "c".to_string(), filter: "a".to_string(), max_qos: 1 },
            Action::Subscribe { client_id: "c".to_string(), filter: "b".to_string(), max_qos: 2 },
            Action::Reply(ServerPacket::Suback {
                packet_id: 1,
                return_code: vec![SubackReturnCode::SuccessQoS0],
            }),
        ]
    );
    assert_eq!(ServerPacket::Suback { packet_id: 1, return_code: vec![SubackReturnCode::SuccessQoS0] }.encode(),
        vec![0x90, 0x03, 0x00, 0x01, 0x00]);
}

#[test]
fn unsubscribe_answers_with_unsuback() {
    let mut client_id = Some("c".to_string());
    let packet = ControlPacket::parse(&[0xA2, 0x05, 0x00, 0x09, 0x00, 0x01, b'x']).unwrap();
    let actions = handl_packet(&mut client_id, packet).unwrap();
    assert_eq!(
        actions,
        vec![
            Action::Unsubscribe { client_id: "c".to_string(), filter: "x".to_string() },
            Action::Reply(ServerPacket::Unsuback { packet_id: 9 }),
        ]
    );

    let mut none = None;
    let packet = ControlPacket::parse(&[0xA2, 0x05, 0x00, 0x09, 0x00, 0x01, b'x']).unwrap();
    assert_eq!(handl_packet(&mut none, packet), Ok(vec![]));
    assert_eq!(none, None);
}

#[test]
fn publish_is_handed_to_subscribers_with_its_flags() {
    let mut client_id = None;
    let packet = ControlPacket::parse(&[
        0x3B, 0x07, 0x00, 0x01, b'a', 0x00, 0x0A, b'h', b'i',
    ])
    .unwrap();
    let actions = handl_packet(&mut client_id, packet).unwrap();
    assert_eq!(
        actions,
        vec![Action::Publish {
            topic: "a".to_string(),
            packet: ServerPacket::Publish {
                topic_name: "a".to_string(),
                packet_id: Some(10),
                payload: b"hi".to_vec(),
                dup: true,
                qos: 1,
                retain: true,
            },
        }]
    );
}

#[test]
fn pingreq_gets_pingresp_and_others_nothing() {
    let mut client_id = Some("c".to_string());
    let ping = ControlPacket::parse(&[0xC0, 0x00]).unwrap();
    assert_eq!(
        handl_packet(&mut client_id, ping).unwrap(),
        vec![Action::Reply(ServerPacket::Pingresp)]
    );
    let disconnect = ControlPacket::parse(&[0xE0, 0x00]).unwrap();
    assert!(handl_packet(&mut client_id, disconnect).unwrap().is_empty());
    let puback = ControlPacket::parse(&[0x40, 0x02, 0x00, 0x01]).unwrap();
    assert!(handl_packet(&mut client_id, puback).unwrap().is_empty());
    assert_eq!(client_id, Some("c".to_string()));
}
