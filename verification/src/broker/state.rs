use vstd::prelude::*;
use crate::broker::topic_tree::{
    inserted, lemma_sub_index, lemma_sub_index_distinct, pairs_map, removed, sub_keys_distinct, sub_index, topic_levels, unsubscribed,
    TopicTree, TopicNode,
};
use crate::packet::encoder::{ServerPacket, ServerPacketModel};

verus! {

/// What the broker keeps of one subscription of a client to a topic filter: the maximum
/// QoS the client requested for it. Forwarded messages are capped to this QoS.
#[derive(Debug, Clone, Copy, PartialEq, Eq, Structural)]
pub struct ClientSubscription {
    pub max_qos: u8,
}

/// The packet that a subscriber with maximum QoS `max_qos` receives for `packet`: a PUBLISH
/// goes out at the lower of its QoS and `max_qos`, without a packet id when that is 0; any
/// other packet goes out unchanged.
pub open spec fn forwarded(packet: ServerPacketModel, max_qos: u8) -> ServerPacketModel {
    match packet {
        ServerPacketModel::Publish { topic_name, packet_id, payload, dup, qos, retain } => {
            let delivery_qos = if qos < max_qos {
                qos
            } else {
                max_qos
            };
            ServerPacketModel::Publish {
                topic_name,
                packet_id: if delivery_qos > 0 {
                    packet_id
                } else {
                    None
                },
                payload,
                dup,
                qos: delivery_qos,
                retain,
            }
        },
        other => other,
    }
}

/// The packet that a subscriber with maximum QoS `max_qos` receives for `packet`.
pub fn forward_packet(packet: &ServerPacket, max_qos: u8) -> (r: ServerPacket)
    ensures
        r@ == forwarded(packet@, max_qos),
{
    match packet.clone() {
        ServerPacket::Publish { topic_name, packet_id, payload, dup, qos, retain } => {
            let delivery_qos = if qos < max_qos {
                qos
            } else {
                max_qos
            };
            ServerPacket::Publish {
                topic_name,
                packet_id: if delivery_qos > 0 {
                    packet_id
                } else {
                    None
                },
                payload,
                dup,
                qos: delivery_qos,
                retain,
            }
        },
        other => other,
    }
}

/// Internal protected broker state: the subscription tree.
pub struct BrokerState {
    subscriptions: TopicTree,
}

impl BrokerState {
    #[verifier::type_invariant]
    spec fn inv(self) -> bool {
        self.subscriptions.wf()
    }

    /// The subscription tree.
    pub closed spec fn tree(self) -> TopicTree {
        self.subscriptions
    }

    /// A state without subscriptions.
    pub fn new() -> (r: Self)
        ensures
            r.tree().wf(),
            r.tree().spec_is_empty(),
            forall|f: Seq<Seq<u8>>, c: Seq<char>| r.tree().stored(f, c) is None,
    {
        BrokerState { subscriptions: TopicNode::new() }
    }

    /// Subscribes client `client_id` to the topic filter `topic` with maximum QoS `max_qos`.
    pub fn subscribe(&mut self, client_id: String, topic: String, max_qos: u8)
        ensures
            final(self).tree().wf(),
            inserted(
                old(self).tree().stored_fn(),
                final(self).tree().stored_fn(),
                topic_levels(topic@),
                client_id@,
                ClientSubscription { max_qos },
            ),
    {
        proof {
            use_type_invariant(&*self);
        }
        let mut tree = TopicNode::new();
        std::mem::swap(&mut tree, &mut self.subscriptions);
        tree.insert(topic.as_str(), client_id, ClientSubscription { max_qos });
        self.subscriptions = tree;
    }

    /// The packet that each subscriber of a filter matching `topic` receives for `packet`,
    /// one per client, capped to the QoS of the subscription found for it.
    pub fn deliveries(&self, topic: &str, packet: &ServerPacket) -> (r: Vec<(String, ServerPacket)>)
        ensures
            forall|i: int, j: int| 0 <= i < j < r@.len() ==> r@[i].0@ != r@[j].0@,
            forall|c: Seq<char>|
                self.tree().collect(topic_levels(topic@)).dom().contains(c) <==> exists|i: int|
                    0 <= i < r@.len() && #[trigger] r@[i].0@ == c,
            forall|i: int|
                0 <= i < r@.len() ==> #[trigger] r@[i].1@ == forwarded(
                    packet@,
                    self.tree().collect(topic_levels(topic@))[r@[i].0@].max_qos,
                ),
    {
        proof {
            use_type_invariant(self);
        }
        let matches = self.subscriptions.get_match(topic);
        let ghost m = matches@;
        let ghost found = self.tree().collect(topic_levels(topic@));
        let mut out: Vec<(String, ServerPacket)> = Vec::new();
        let mut i: usize = 0;
        while i < matches.len()
            invariant
                m == matches@,
                sub_keys_distinct(m),
                pairs_map(m) == found,
                i <= m.len(),
                out@.len() == i,
                forall|k: int| 0 <= k < i ==> #[trigger] out@[k].0@ == m[k].0@ && out@[k].1@ == forwarded(
                    packet@,
                    m[k].1.max_qos,
                ),
            decreases m.len() - i,
        {
            let client = matches[i].0.clone();
            let forwarded_packet = forward_packet(packet, matches[i].1.max_qos);
            out.push((client, forwarded_packet));
            i += 1;
        }
        proof {
            assert forall|k: int| 0 <= k < m.len() implies #[trigger] sub_index(m, m[k].0@) == k by {
                lemma_sub_index_distinct(m, m[k].0@, k);
            }
            assert forall|c: Seq<char>| found.dom().contains(c) <==> exists|i: int|
                0 <= i < out@.len() && #[trigger] out@[i].0@ == c by {
                lemma_sub_index(m, c);
                if found.dom().contains(c) {
                    let k = sub_index(m, c);
                    assert(out@[k].0@ == c);
                }
                if exists|i: int| 0 <= i < out@.len() && #[trigger] out@[i].0@ == c {
                    let k = choose|i: int| 0 <= i < out@.len() && #[trigger] out@[i].0@ == c;
                    assert(sub_index(m, m[k].0@) == k);
                }
            }
            assert forall|k: int| 0 <= k < out@.len() implies #[trigger] out@[k].1@ == forwarded(packet@, found[out@[k].0@].max_qos) by {
                assert(sub_index(m, m[k].0@) == k);
            }
        }
        out
    }

    /// Removes the subscription of client `client_id` to the topic filter `topic`.
    pub fn unsubscribe(&mut self, client_id: &str, topic: &str)
        ensures
            final(self).tree().wf(),
            unsubscribed(old(self).tree().stored_fn(), final(self).tree().stored_fn(), topic_levels(topic@), client_id@),
    {
        proof {
            use_type_invariant(&*self);
        }
        let id = client_id.to_owned();
        let mut tree = TopicNode::new();
        std::mem::swap(&mut tree, &mut self.subscriptions);
        tree.unsubscribe(topic, &id);
        self.subscriptions = tree;
    }

    /// Removes every subscription of client `client_id`.
    pub fn disconnect(&mut self, client_id: &str)
        ensures
            final(self).tree().wf(),
            final(self).tree().pruned(),
            removed(old(self).tree(), final(self).tree(), client_id@),
    {
        proof {
            use_type_invariant(&*self);
        }
        let id = client_id.to_owned();
        let mut tree = TopicNode::new();
        std::mem::swap(&mut tree, &mut self.subscriptions);
        tree.remove(&id);
        self.subscriptions = tree;
    }
}

impl Default for BrokerState {
    fn default() -> (r: Self)
        ensures
            r.tree().spec_is_empty(),
            forall|f: Seq<Seq<u8>>, c: Seq<char>| r.tree().stored(f, c) is None,
    {
        BrokerState::new()
    }
}

} // verus!
