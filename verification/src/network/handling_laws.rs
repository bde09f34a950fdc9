use vstd::prelude::*;
use crate::broker::state::forwarded;
use crate::network::server::{decide, ActionModel};
use crate::packet::encoder::{publish_header_byte, ServerPacketModel};
use crate::packet::types::{
    ControlPacketType, FixedHeader, PayloadModel, SubackReturnCode, VariableHeaderModel, lemma_flag_bits,
};

verus! {

/// A received PUBLISH is handed on, whoever sent it, as one message to the subscribers of
/// its topic, with its topic, packet id and payload, and with the dup flag of bit 3, the
/// QoS of bits 1-2 and the retain flag of bit 0 of its header's flags. Encoded, the packet
/// handed on carries the same flags nibble as the one received; a subscriber then gets it
/// at the lower of that QoS and its own.
pub proof fn law_publish_handed_on(
    client_id: Option<Seq<char>>,
    h: FixedHeader,
    topic: Seq<char>,
    packet_id: Option<u16>,
    payload: Seq<u8>,
    max_qos: u8,
)
    requires
        h.packet_type == ControlPacketType::Publish,
        h.flags < 16,
    ensures
        ({
            let out = ServerPacketModel::Publish {
                topic_name: topic,
                packet_id,
                payload,
                dup: h.flags & 0x08 != 0,
                qos: (h.flags & 0x06) >> 1,
                retain: h.flags & 0x01 != 0,
            };
            &&& decide(
                client_id,
                (h, VariableHeaderModel::Publish { topic_name: topic, packet_id }, PayloadModel::Publish(payload)),
            ) == Ok::<(Option<Seq<char>>, Seq<ActionModel>), &'static str>(
                (client_id, seq![ActionModel::Publish { topic, packet: out }]),
            )
            &&& publish_header_byte(h.flags & 0x08 != 0, (h.flags & 0x06) >> 1, h.flags & 0x01 != 0) % 16 == h.flags
            &&& forwarded(out, max_qos)->Publish_qos == if (h.flags & 0x06) >> 1 < max_qos {
                (h.flags & 0x06) >> 1
            } else {
                max_qos
            }
        }),
{
    let f = h.flags;
    lemma_flag_bits(f);
    let out = ServerPacketModel::Publish {
        topic_name: topic,
        packet_id,
        payload,
        dup: f & 0x08 != 0,
        qos: (f & 0x06) >> 1,
        retain: f & 0x01 != 0,
    };
    assert(decide(
        client_id,
        (h, VariableHeaderModel::Publish { topic_name: topic, packet_id }, PayloadModel::Publish(payload)),
    )->Ok_0.1 =~= seq![ActionModel::Publish { topic, packet: out }]);
}

/// An UNSUBSCRIBE after CONNECT removes every listed filter, in order, one action per
/// filter, and then answers with an UNSUBACK that carries the packet's id.
pub proof fn law_unsubscribe_every_filter(
    id: Seq<char>,
    h: FixedHeader,
    packet_id: u16,
    topics: Seq<Seq<char>>,
)
    requires
        h.packet_type == ControlPacketType::Unsubscribe,
    ensures
        decide(Some(id), (h, VariableHeaderModel::PacketId(packet_id), PayloadModel::Unsubscribe(topics)))
            matches Ok((cid, acts)) && cid == Some(id) && acts.len() == topics.len() + 1
            && (forall|k: int| 0 <= k < topics.len() ==> #[trigger] acts[k] == (ActionModel::Unsubscribe {
                client_id: id,
                filter: topics[k],
            })) && acts[topics.len() as int] == ActionModel::Reply(ServerPacketModel::Unsuback { packet_id }),
{
}

/// A SUBSCRIBE after CONNECT subscribes the client to every listed filter, in order, each
/// with the QoS it requested, and then answers with a SUBACK of packet id 1 that grants
/// QoS 0.
pub proof fn law_subscribe_every_filter(
    id: Seq<char>,
    h: FixedHeader,
    packet_id: u16,
    filters: Seq<(Seq<char>, u8)>,
)
    requires
        h.packet_type == ControlPacketType::Subscribe,
    ensures
        decide(Some(id), (h, VariableHeaderModel::PacketId(packet_id), PayloadModel::Subscribe(filters)))
            matches Ok((cid, acts)) && cid == Some(id) && acts.len() == filters.len() + 1
            && (forall|k: int| 0 <= k < filters.len() ==> #[trigger] acts[k] == (ActionModel::Subscribe {
                client_id: id,
                filter: filters[k].0,
                max_qos: filters[k].1,
            })) && acts[filters.len() as int] == ActionModel::Reply(
            ServerPacketModel::Suback { packet_id: 1, return_code: seq![SubackReturnCode::SuccessQoS0] },
        ),
{
}

} // verus!
