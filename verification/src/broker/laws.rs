use vstd::prelude::*;
use crate::broker::state::{forwarded, ClientSubscription};
use crate::broker::topic_tree::{
    filter_matches, inserted, law_match_finds_matching_subscribers, law_pruned_empty_iff_no_subscription,
    removed, unsubscribed, valid_filter, TopicNode,
};
use crate::packet::encoder::ServerPacketModel;

verus! {

/// A subscriber never receives a PUBLISH at a higher QoS than it asked for or than it was
/// published with, and receives no packet id at QoS 0; topic, payload, dup and retain flags
/// go out unchanged.
pub proof fn law_forwarded_qos_capped(packet: ServerPacketModel, max_qos: u8)
    requires
        packet is Publish,
    ensures
        forwarded(packet, max_qos) matches ServerPacketModel::Publish {
            topic_name,
            packet_id,
            payload,
            dup,
            qos,
            retain,
        } && qos <= max_qos && qos <= packet->Publish_qos && (qos == max_qos || qos
            == packet->Publish_qos) && (qos == 0 ==> packet_id is None) && (qos > 0 ==> packet_id
            == packet->Publish_packet_id) && topic_name == packet->Publish_topic_name && payload
            == packet->Publish_payload && dup == packet->Publish_dup && retain
            == packet->Publish_retain,
{
}

/// After a client subscribes to a valid filter, every topic that the filter matches finds
/// the client.
pub proof fn law_subscribed_client_is_found(
    before: TopicNode,
    after: TopicNode,
    f: Seq<Seq<u8>>,
    c: Seq<char>,
    sub: ClientSubscription,
    t: Seq<Seq<u8>>,
)
    requires
        after.wf(),
        inserted(before.stored_fn(), after.stored_fn(), f, c, sub),
        valid_filter(f),
        filter_matches(f, t),
        t.len() >= 1,
    ensures
        after.collect(t).dom().contains(c),
{
    assert(after.stored_fn()(f, c) == Some(sub));
    law_match_finds_matching_subscribers(after, t, c);
}

/// After a client is removed, no topic finds it.
pub proof fn law_removed_client_is_never_found(before: TopicNode, after: TopicNode, c: Seq<char>, t: Seq<Seq<u8>>)
    requires
        after.wf(),
        removed(before, after, c),
        t.len() >= 1,
    ensures
        !after.collect(t).dom().contains(c),
{
    law_match_finds_matching_subscribers(after, t, c);
    assert forall|f: Seq<Seq<u8>>| #[trigger] after.stored(f, c) is None by {}
}

/// After a client unsubscribes from a filter, a topic finds it exactly when another filter
/// of the client matches the topic.
pub proof fn law_unsubscribed_client_found_by_other_filters(
    before: TopicNode,
    after: TopicNode,
    f: Seq<Seq<u8>>,
    c: Seq<char>,
    t: Seq<Seq<u8>>,
)
    requires
        before.wf(),
        after.wf(),
        unsubscribed(before.stored_fn(), after.stored_fn(), f, c),
        t.len() >= 1,
    ensures
        after.collect(t).dom().contains(c) <==> exists|g: Seq<Seq<u8>>|
            g != f && #[trigger] before.stored(g, c) is Some && filter_matches(g, t),
{
    law_match_finds_matching_subscribers(after, t, c);
    assert forall|g: Seq<Seq<u8>>| #[trigger] after.stored(g, c) == if g == f {
        None
    } else {
        before.stored(g, c)
    } by {
        assert(after.stored_fn()(g, c) == after.stored(g, c));
    }
    if after.collect(t).dom().contains(c) {
        let g = choose|g: Seq<Seq<u8>>| #[trigger] after.stored(g, c) is Some && filter_matches(g, t);
        assert(g != f && before.stored(g, c) is Some);
    }
    if exists|g: Seq<Seq<u8>>| g != f && #[trigger] before.stored(g, c) is Some && filter_matches(g, t) {
        let g = choose|g: Seq<Seq<u8>>| g != f && #[trigger] before.stored(g, c) is Some && filter_matches(g, t);
        assert(after.stored(g, c) is Some);
    }
}

/// Removing a client takes it, and only it, out of what every topic finds.
pub proof fn law_remove_drops_only_client(before: TopicNode, after: TopicNode, c: Seq<char>, t: Seq<Seq<u8>>)
    requires
        before.wf(),
        after.wf(),
        removed(before, after, c),
        t.len() >= 1,
    ensures
        after.collect(t).dom() == before.collect(t).dom().remove(c),
{
    assert forall|d: Seq<char>| after.collect(t).dom().contains(d) <==> before.collect(t).dom().remove(c).contains(d) by {
        law_match_finds_matching_subscribers(before, t, d);
        law_match_finds_matching_subscribers(after, t, d);
        if after.collect(t).dom().contains(d) {
            let f = choose|f: Seq<Seq<u8>>| #[trigger] after.stored(f, d) is Some && filter_matches(f, t);
            assert(after.stored(f, d) == if d == c { None } else { before.stored(f, d) });
            assert(d != c && before.stored(f, d) is Some);
        }
        if d != c && before.collect(t).dom().contains(d) {
            let f = choose|f: Seq<Seq<u8>>| #[trigger] before.stored(f, d) is Some && filter_matches(f, t);
            assert(after.stored(f, d) == before.stored(f, d));
        }
    }
    assert(after.collect(t).dom() =~= before.collect(t).dom().remove(c));
}

/// Removing the only client that has subscriptions leaves a pruned tree empty: no child
/// and no wildcard node stays behind.
pub proof fn law_remove_last_client_empties(before: TopicNode, after: TopicNode, c: Seq<char>)
    requires
        after.wf(),
        after.pruned(),
        removed(before, after, c),
        forall|f: Seq<Seq<u8>>, d: Seq<char>| #[trigger] before.stored(f, d) is Some ==> d == c,
    ensures
        after.spec_is_empty(),
{
    assert forall|f: Seq<Seq<u8>>, d: Seq<char>| #[trigger] after.stored(f, d) is None by {
        assert(after.stored(f, d) == if d == c { None } else { before.stored(f, d) });
    }
    law_pruned_empty_iff_no_subscription(after);
}

} // verus!
