use vstd::prelude::*;
use crate::packet::decoder::{ControlPacket, PacketModel};
use crate::packet::encoder::{ServerPacket, ServerPacketModel};
use crate::packet::types::{
    opt_text, ConnackReturnCode, ControlPacketType, Payload, PayloadModel, SubackReturnCode,
    TopicFilter, VariableHeader, VariableHeaderModel, lemma_flag_bits,
};

verus! {

/// What the connection handler does in answer to a packet from its client.
#[derive(Debug, PartialEq, Eq)]
pub enum Action {
    /// Write this packet to the client.
    Reply(ServerPacket),
    /// Give the client an id made by the broker's generator.
    AssignGeneratedId,
    /// Subscribe the client to a topic filter.
    Subscribe { client_id: String, filter: String, max_qos: u8 },
    /// Remove the subscription of the client to a topic filter.
    Unsubscribe { client_id: String, filter: String },
    /// Hand a packet to the subscribers of a topic.
    Publish { topic: String, packet: ServerPacket },
}

/// What an action holds, as text and packets.
pub enum ActionModel {
    Reply(ServerPacketModel),
    AssignGeneratedId,
    Subscribe { client_id: Seq<char>, filter: Seq<char>, max_qos: u8 },
    Unsubscribe { client_id: Seq<char>, filter: Seq<char> },
    Publish { topic: Seq<char>, packet: ServerPacketModel },
}

impl View for Action {
    type V = ActionModel;

    open spec fn view(&self) -> ActionModel {
        match self {
            Action::Reply(p) => ActionModel::Reply(p@),
            Action::AssignGeneratedId => ActionModel::AssignGeneratedId,
            Action::Subscribe { client_id, filter, max_qos } => ActionModel::Subscribe {
                client_id: client_id@,
                filter: filter@,
                max_qos: *max_qos,
            },
            Action::Unsubscribe { client_id, filter } => ActionModel::Unsubscribe {
                client_id: client_id@,
                filter: filter@,
            },
            Action::Publish { topic, packet } => ActionModel::Publish { topic: topic@, packet: packet@ },
        }
    }
}

/// The views of a list of actions.
pub open spec fn actions_view(actions: Seq<Action>) -> Seq<ActionModel> {
    actions.map_values(|a: Action| a@)
}

/// The CONNACK that accepts a connection.
pub open spec fn accepted_connack() -> ServerPacketModel {
    ServerPacketModel::Connack { session_present: false, return_code: ConnackReturnCode::Accepted }
}

/// The SUBACK sent for a SUBSCRIBE: packet id 1, one code granting QoS 0.
pub open spec fn granted_suback() -> ServerPacketModel {
    ServerPacketModel::Suback { packet_id: 1, return_code: seq![SubackReturnCode::SuccessQoS0] }
}

/// What the connection handler decides for `packet`, given the id of its client so far: the
/// client id after the packet and the actions to take, or the error that ends the
/// connection.
/// - CONNECT: the id sent by the client becomes the client id; an empty one is replaced by
///   a generated one. The connection is accepted.
/// - SUBSCRIBE (after CONNECT): the client is subscribed to each filter with the QoS it
///   requested for it, then a SUBACK with one code granting QoS 0 is sent.
/// - UNSUBSCRIBE (after CONNECT): each subscription is removed, then an UNSUBACK with the
///   packet id is sent; before CONNECT nothing is done.
/// - PUBLISH: the message goes to the subscribers of its topic with its flags and packet id.
/// - PINGREQ: a PINGRESP is sent. Other packets (DISCONNECT among them) need nothing.
pub open spec fn decide(client_id: Option<Seq<char>>, packet: PacketModel) -> Result<(Option<Seq<char>>, Seq<ActionModel>), &'static str> {
    let (header, vheader, payload) = packet;
    match header.packet_type {
        ControlPacketType::Connect => {
            let received = match payload {
                PayloadModel::Connect(p) => p.client_id,
                _ => Seq::empty(),
            };
            if received.len() == 0 {
                Ok((client_id, seq![ActionModel::AssignGeneratedId, ActionModel::Reply(accepted_connack())]))
            } else {
                Ok((Some(received), seq![ActionModel::Reply(accepted_connack())]))
            }
        },
        ControlPacketType::Subscribe => match client_id {
            None => Err("SUBSCRIBE received before CONNECT"),
            Some(id) => match payload {
                PayloadModel::Subscribe(filters) => Ok(
                    (
                        client_id,
                        filters.map_values(
                            |f: (Seq<char>, u8)|
                                ActionModel::Subscribe { client_id: id, filter: f.0, max_qos: f.1 },
                        ) + seq![ActionModel::Reply(granted_suback())],
                    ),
                ),
                _ => Err("Incorrect payload"),
            },
        },
        ControlPacketType::Unsubscribe => match client_id {
            None => Ok((client_id, Seq::empty())),
            Some(id) => match (vheader, payload) {
                (VariableHeaderModel::PacketId(packet_id), PayloadModel::Unsubscribe(topics)) => Ok(
                    (
                        client_id,
                        topics.map_values(
                            |t: Seq<char>| ActionModel::Unsubscribe { client_id: id, filter: t },
                        ) + seq![ActionModel::Reply(ServerPacketModel::Unsuback { packet_id })],
                    ),
                ),
                _ => Ok((client_id, Seq::empty())),
            },
        },
        ControlPacketType::Publish => match (vheader, payload) {
            (VariableHeaderModel::Publish { topic_name, packet_id }, PayloadModel::Publish(bytes)) => {
                let flags = header.flags;
                Ok(
                    (
                        client_id,
                        seq![
                            ActionModel::Publish {
                                topic: topic_name,
                                packet: ServerPacketModel::Publish {
                                    topic_name,
                                    packet_id,
                                    payload: bytes,
                                    dup: (flags / 8) % 2 == 1,
                                    qos: ((flags / 2) % 4) as u8,
                                    retain: flags % 2 == 1,
                                },
                            },
                        ],
                    ),
                )
            },
            _ => Err("Incorrect packet structure for PUBLISH"),
        },
        ControlPacketType::Pingreq => Ok((client_id, seq![ActionModel::Reply(ServerPacketModel::Pingresp)])),
        _ => Ok((client_id, Seq::empty())),
    }
}

/// Copies a byte vector.
fn copy_bytes(v: &Vec<u8>) -> (r: Vec<u8>)
    ensures
        r@ == v@,
{
    let mut out: Vec<u8> = Vec::new();
    let mut i: usize = 0;
    while i < v.len()
        invariant
            i <= v.len(),
            out@ == v@.take(i as int),
        decreases v.len() - i,
    {
        out.push(v[i]);
        i += 1;
        assert(out@ =~= v@.take(i as int));
    }
    assert(v@.take(i as int) =~= v@);
    out
}

/// Decides what to do with `packet`, received on a connection whose client id so far is
/// `client_id`, and updates the client id.
pub fn handl_packet(client_id: &mut Option<String>, packet: ControlPacket) -> (r: Result<Vec<Action>, &'static str>)
    ensures
        match decide(opt_text(*old(client_id)), packet@) {
            Ok((id, actions)) => r matches Ok(acts) && actions_view(acts@) == actions && opt_text(*final(client_id)) == id,
            Err(e) => r == Err::<Vec<Action>, &'static str>(e) && *final(client_id) == *old(client_id),
        },
{
    let connack = ServerPacket::Connack { session_present: false, return_code: ConnackReturnCode::Accepted };
    match packet.header.packet_type {
        ControlPacketType::Connect => {
            let received_id = match &packet.payload {
                Payload::Connect(payload) => payload.client_id.clone(),
                _ => String::new(),
            };
            let mut actions: Vec<Action> = Vec::new();
            if received_id.as_str().is_empty() {
                actions.push(Action::AssignGeneratedId);
            } else {
                *client_id = Some(received_id);
            }
            actions.push(Action::Reply(connack));
            assert(actions_view(actions@) =~= decide(opt_text(*old(client_id)), packet@)->Ok_0.1);
            Ok(actions)
        },
        ControlPacketType::Subscribe => {
            let id = match client_id {
                Some(id) => id.clone(),
                None => return Err("SUBSCRIBE received before CONNECT"),
            };
            if let Payload::Subscribe(filters) = &packet.payload {
                let mut actions: Vec<Action> = Vec::new();
                let mut i: usize = 0;
                while i < filters.len()
                    invariant
                        i <= filters.len(),
                        actions@.len() == i,
                        forall|k: int| 0 <= k < i ==> #[trigger] actions@[k]@ == (ActionModel::Subscribe {
                            client_id: id@,
                            filter: filters@[k].filter@,
                            max_qos: filters@[k].qos,
                        }),
                    decreases filters.len() - i,
                {
                    actions.push(Action::Subscribe {
                        client_id: id.clone(),
                        filter: filters[i].filter.clone(),
                        max_qos: filters[i].qos,
                    });
                    i += 1;
                }
                let mut codes: Vec<SubackReturnCode> = Vec::new();
                codes.push(SubackReturnCode::SuccessQoS0);
                assert(codes@ =~= seq![SubackReturnCode::SuccessQoS0]);
                actions.push(Action::Reply(ServerPacket::Suback { packet_id: 1, return_code: codes }));
                proof {
                    let expected = decide(opt_text(*old(client_id)), packet@)->Ok_0.1;
                    let fs = filters@.map_values(|f: TopicFilter| f@);
                    assert(packet@.2 == PayloadModel::Subscribe(fs));
                    assert(expected.len() == actions@.len());
                    assert forall|k: int| 0 <= k < actions@.len() implies actions_view(actions@)[k] == expected[k] by {
                        if k < filters@.len() {
                            assert(fs[k] == filters@[k]@);
                        }
                    }
                    assert(actions_view(actions@) =~= expected);
                }
                Ok(actions)
            } else {
                Err("Incorrect payload")
            }
        },
        ControlPacketType::Unsubscribe => {
            let id = match client_id {
                Some(id) => id.clone(),
                None => {
                    let actions: Vec<Action> = Vec::new();
                    assert(actions_view(actions@) =~= decide(opt_text(*old(client_id)), packet@)->Ok_0.1);
                    return Ok(actions);
                },
            };
            match (&packet.vheader, &packet.payload) {
                (VariableHeader::PacketId(packet_id), Payload::Unsubscribe(topics)) => {
                    let mut actions: Vec<Action> = Vec::new();
                    let mut i: usize = 0;
                    while i < topics.len()
                        invariant
                            i <= topics.len(),
                            actions@.len() == i,
                            forall|k: int| 0 <= k < i ==> #[trigger] actions@[k]@ == (ActionModel::Unsubscribe {
                                client_id: id@,
                                filter: topics@[k]@,
                            }),
                        decreases topics.len() - i,
                    {
                        actions.push(Action::Unsubscribe { client_id: id.clone(), filter: topics[i].clone() });
                        i += 1;
                    }
                    actions.push(Action::Reply(ServerPacket::Unsuback { packet_id: *packet_id }));
                    proof {
                        let expected = decide(opt_text(*old(client_id)), packet@)->Ok_0.1;
                        assert(actions_view(actions@) =~= expected);
                    }
                    Ok(actions)
                },
                _ => {
                    let actions: Vec<Action> = Vec::new();
                    assert(actions_view(actions@) =~= decide(opt_text(*old(client_id)), packet@)->Ok_0.1);
                    Ok(actions)
                },
            }
        },
        ControlPacketType::Publish => {
            match (&packet.vheader, &packet.payload) {
                (VariableHeader::Publish { topic_name, packet_id }, Payload::Publish(payload_bytes)) => {
                    let flags = packet.header.flags;
                    proof {
                        lemma_flag_bits(flags);
                    }
                    let dup = (flags & 0x08) != 0;
                    let qos = (flags & 0x06) >> 1;
                    let retain = (flags & 0x01) != 0;
                    let outgoing_publish = ServerPacket::Publish {
                        topic_name: topic_name.clone(),
                        payload: copy_bytes(payload_bytes),
                        qos,
                        retain,
                        dup,
                        packet_id: *packet_id,
                    };
                    let mut actions: Vec<Action> = Vec::new();
                    actions.push(Action::Publish { topic: topic_name.clone(), packet: outgoing_publish });
                    assert(actions_view(actions@) =~= decide(opt_text(*old(client_id)), packet@)->Ok_0.1);
                    Ok(actions)
                },
                _ => Err("Incorrect packet structure for PUBLISH"),
            }
        },
        ControlPacketType::Pingreq => {
            let mut actions: Vec<Action> = Vec::new();
            actions.push(Action::Reply(ServerPacket::Pingresp));
            assert(actions_view(actions@) =~= decide(opt_text(*old(client_id)), packet@)->Ok_0.1);
            Ok(actions)
        },
        _ => {
            let actions: Vec<Action> = Vec::new();
            assert(actions_view(actions@) =~= decide(opt_text(*old(client_id)), packet@)->Ok_0.1);
            Ok(actions)
        },
    }
}

} // verus!
