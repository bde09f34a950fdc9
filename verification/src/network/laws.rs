use vstd::prelude::*;
use crate::network::codec::{awaits_more, frame_of};
use crate::packet::decoder::{decode_packet, fixed_header_of, packet_len, PacketModel};
use crate::packet::error::ParseError;
use crate::packet::length::{lemma_decode_bounds, lemma_decode_cut, lemma_decode_prefix, remaining_length_of};

verus! {

/// A frame is taken the same way whatever bytes follow it: a packet at the front of a
/// stream decodes alike when more bytes come after it, and takes at least 2 and at most
/// the bytes that hold it.
pub proof fn law_frame_ignores_what_follows(bytes: Seq<u8>, rest: Seq<u8>)
    requires
        frame_of(bytes) is Ok,
        frame_of(bytes)->Ok_0 is Some,
    ensures
        frame_of(bytes + rest) == frame_of(bytes),
        frame_of(bytes) matches Ok(Some((p, n))) && 2 <= n <= bytes.len(),
{
    let all = bytes + rest;
    let h = fixed_header_of(bytes)->Ok_0;
    let d = bytes.drop_first();
    lemma_decode_bounds(d, 0);
    assert(all.drop_first() =~= d + rest);
    lemma_decode_prefix(d, d + rest, 0);
    assert(fixed_header_of(all) == fixed_header_of(bytes));
    assert(all.subrange(1 + h.remaining_length.br, packet_len(h) as int) =~= bytes.subrange(
        1 + h.remaining_length.br,
        packet_len(h) as int,
    ));
    assert(decode_packet(all) == decode_packet(bytes));
}

/// A frame that has not fully arrived waits: every proper prefix of the bytes of a packet
/// gives nothing yet, and no error.
pub proof fn law_fragment_waits(bytes: Seq<u8>, k: nat)
    requires
        frame_of(bytes) matches Ok(Some((p, n))) && k < n,
    ensures
        frame_of(bytes.take(k as int)) == Ok::<Option<(PacketModel, nat)>, ParseError>(None),
{
    let h = fixed_header_of(bytes)->Ok_0;
    let t = bytes.take(k as int);
    let br = h.remaining_length.br as nat;
    let d = bytes.drop_first();
    lemma_decode_bounds(d, 0);
    if k > 0 {
        assert(t[0] == bytes[0]);
        let td = t.drop_first();
        if k - 1 < br {
            assert(td =~= d.take(k - 1));
            lemma_decode_cut(d, (k - 1) as nat, 0);
            assert(remaining_length_of(td) is Err);
            assert(awaits_more(t));
        } else {
            lemma_decode_prefix(d, td, 0);
            assert(remaining_length_of(td) == remaining_length_of(d));
            assert(fixed_header_of(t) == fixed_header_of(bytes));
            assert(awaits_more(t));
        }
        assert(decode_packet(t) is Err);
    }
}

} // verus!
