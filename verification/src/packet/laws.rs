use vstd::prelude::*;
use vstd::utf8::encode_utf8;
use crate::packet::decoder::{body_of, decode_packet, fixed_header_of, packet_len, publish_header_from, qos_of_flags, PacketModel};
use crate::packet::encoder::{be_bytes, publish_bytes, publish_header_byte, publish_remaining_len, ServerPacketModel};
use crate::packet::length::{remaining_length_bytes, remaining_length_from, remaining_length_of, lemma_encode_len, lemma_pow128_small};
use crate::packet::reader::{be_u16, read_string_from, read_u16_from};
use crate::packet::types::{ControlPacketType, FixedHeader, PayloadModel, RemainingLength, VariableHeaderModel};

verus! {

/// Decoding a remaining length field that starts after `prefix` (at most 3 bytes of the
/// same field already read) gives back the encoded value.
proof fn lemma_decode_encoded_from(prefix: Seq<u8>, n: nat, rest: Seq<u8>)
    requires
        prefix.len() + remaining_length_bytes(n).len() <= 4,
    ensures
        remaining_length_from(prefix + remaining_length_bytes(n) + rest, prefix.len()) == Ok::<
            (nat, nat),
            &'static str,
        >((n, remaining_length_bytes(n).len())),
    decreases n,
{
    let s = prefix + remaining_length_bytes(n) + rest;
    let u = prefix.len();
    assert(s[u as int] == remaining_length_bytes(n)[0]);
    if n >= 128 {
        let b = (n % 128 + 128) as u8;
        let p2 = prefix.push(b);
        assert(remaining_length_bytes(n) == seq![b] + remaining_length_bytes(n / 128));
        assert(s =~= p2 + remaining_length_bytes(n / 128) + rest);
        lemma_decode_encoded_from(p2, n / 128, rest);
    }
}

/// The remaining length field round trip: for every length that the field can carry
/// (below 2^28), the encoding takes 1 to 4 bytes and decoding it, whatever follows it,
/// gives back the length and the number of bytes of the encoding.
pub proof fn law_remaining_length_roundtrip(n: nat, rest: Seq<u8>)
    requires
        n < 268435456,
    ensures
        1 <= remaining_length_bytes(n).len() <= 4,
        remaining_length_of(remaining_length_bytes(n) + rest) == Ok::<(nat, nat), &'static str>(
            (n, remaining_length_bytes(n).len()),
        ),
{
    lemma_pow128_small();
    lemma_encode_len(n, 4);
    let empty = Seq::<u8>::empty();
    assert(empty + remaining_length_bytes(n) =~= remaining_length_bytes(n));
    lemma_decode_encoded_from(empty, n, rest);
}

} // verus!

verus! {

/// Reading a 16-bit integer from its big-endian bytes gives it back.
proof fn lemma_be_u16_roundtrip(v: u16, rest: Seq<u8>)
    ensures
        read_u16_from(be_bytes(v) + rest) == (Ok::<u16, &'static str>(v), rest),
{
    let s = be_bytes(v) + rest;
    assert(s[0] == (v / 256) as u8 && s[1] == (v % 256) as u8);
    assert(be_u16(s[0], s[1]) == v);
    assert(s.subrange(2, s.len() as int) =~= rest);
}

/// Reading a length-prefixed string from the prefix and bytes of a text gives the text back.
proof fn lemma_string_roundtrip(text: Seq<char>, rest: Seq<u8>)
    requires
        encode_utf8(text).len() < 65536,
    ensures
        read_string_from(be_bytes(encode_utf8(text).len() as u16) + encode_utf8(text) + rest) == (
            Ok::<Seq<char>, &'static str>(text),
            rest,
        ),
{
    broadcast use vstd::utf8::encode_utf8_valid_utf8, vstd::utf8::encode_utf8_decode_utf8;

    let t = encode_utf8(text);
    let n = t.len() as u16;
    assert(be_bytes(n) + t + rest =~= be_bytes(n) + (t + rest));
    lemma_be_u16_roundtrip(n, t + rest);
    assert((t + rest).take(n as int) =~= t);
    assert((t + rest).skip(n as int) =~= rest);
}

/// The body of an encoded PUBLISH packet reads back as its topic and packet id, then its
/// payload.
proof fn lemma_publish_body(topic: Seq<char>, packet_id: Option<u16>, payload: Seq<u8>, flags: u8, qos: u8)
    requires
        qos <= 3,
        qos_of_flags(flags) == qos,
        qos > 0 ==> packet_id is Some,
        encode_utf8(topic).len() < 65536,
    ensures
        publish_header_from(publish_body(topic, packet_id, payload, qos), flags) == (
            Ok::<VariableHeaderModel, &'static str>(
                VariableHeaderModel::Publish {
                    topic_name: topic,
                    packet_id: if qos > 0 {
                        packet_id
                    } else {
                        None
                    },
                },
            ),
            payload,
        ),
{
    let t = encode_utf8(topic);
    let id_bytes = if qos > 0 && packet_id is Some {
        be_bytes(packet_id->0)
    } else {
        Seq::empty()
    };
    let after_topic = id_bytes + payload;
    assert(publish_body(topic, packet_id, payload, qos) =~= be_bytes(t.len() as u16) + t + after_topic);
    lemma_string_roundtrip(topic, after_topic);
    if qos > 0 {
        lemma_be_u16_roundtrip(packet_id->0, payload);
    } else {
        assert(after_topic =~= payload);
    }
}

/// The bytes after the remaining length field of an encoded PUBLISH packet.
pub open spec fn publish_body(topic: Seq<char>, packet_id: Option<u16>, payload: Seq<u8>, qos: u8) -> Seq<u8> {
    be_bytes(encode_utf8(topic).len() as u16) + encode_utf8(topic) + (if qos > 0 && packet_id is Some {
        be_bytes(packet_id->0)
    } else {
        Seq::empty()
    }) + payload
}

/// The PUBLISH round trip: decoding the bytes that the encoder writes for a PUBLISH packet,
/// whatever follows them, gives back its flags, topic, packet id (kept when the QoS is above
/// 0) and payload. It holds for a QoS of at most 3 that comes with a packet id when above 0,
/// a topic below 64 KiB and a remaining length that the 4-byte field can carry.
#[verifier::rlimit(100)]
pub proof fn law_publish_roundtrip(
    topic: Seq<char>,
    packet_id: Option<u16>,
    payload: Seq<u8>,
    dup: bool,
    qos: u8,
    retain: bool,
    rest: Seq<u8>,
)
    requires
        qos <= 3,
        qos > 0 ==> packet_id is Some,
        encode_utf8(topic).len() < 65536,
        publish_remaining_len(topic, payload, qos) < 268435456,
    ensures
        decode_packet(publish_bytes(topic, packet_id, payload, dup, qos, retain) + rest) == Ok::<
            PacketModel,
            &'static str,
        >(
            (
                FixedHeader {
                    packet_type: ControlPacketType::Publish,
                    flags: publish_header_byte(dup, qos, retain) % 16,
                    remaining_length: RemainingLength {
                        l: publish_remaining_len(topic, payload, qos) as usize,
                        br: remaining_length_bytes(publish_remaining_len(topic, payload, qos)).len() as usize,
                    },
                },
                VariableHeaderModel::Publish {
                    topic_name: topic,
                    packet_id: if qos > 0 {
                        packet_id
                    } else {
                        None
                    },
                },
                PayloadModel::Publish(payload),
            ),
        ),
{
    let hb = publish_header_byte(dup, qos, retain);
    let flags = hb % 16;
    let n = publish_remaining_len(topic, payload, qos);
    let r = remaining_length_bytes(n);
    let body = publish_body(topic, packet_id, payload, qos);
    let bytes = publish_bytes(topic, packet_id, payload, dup, qos, retain) + rest;
    let h = FixedHeader {
        packet_type: ControlPacketType::Publish,
        flags,
        remaining_length: RemainingLength { l: n as usize, br: r.len() as usize },
    };
    let vh = VariableHeaderModel::Publish {
        topic_name: topic,
        packet_id: if qos > 0 { packet_id } else { None },
    };
    assert(bytes =~= seq![hb] + r + body + rest);
    assert(body.len() == n);
    assert(hb / 16 == 3 && qos_of_flags(flags) == qos);
    law_remaining_length_roundtrip(n, body + rest);
    assert(fixed_header_of(bytes) == Ok::<FixedHeader, &'static str>(h)) by {
        assert(bytes.drop_first() =~= r + (body + rest));
        lemma_fixed_header_publish(bytes, flags, n, r.len());
    }
    assert(bytes.subrange(1 + r.len() as int, 1 + r.len() + n as int) =~= body);
    assert(body_of(h, body) == Ok::<(VariableHeaderModel, PayloadModel), &'static str>(
        (vh, PayloadModel::Publish(payload)),
    )) by {
        lemma_publish_body(topic, packet_id, payload, flags, qos);
        lemma_body_publish(h, body, vh, payload);
    }
    lemma_decode_frame(bytes, h, vh, PayloadModel::Publish(payload));
}

/// A packet whose fixed header, and the body after it, decode as the two together.
proof fn lemma_decode_frame(bytes: Seq<u8>, h: FixedHeader, vh: VariableHeaderModel, pl: PayloadModel)
    requires
        bytes.len() > 0,
        fixed_header_of(bytes) == Ok::<FixedHeader, &'static str>(h),
        bytes.len() >= packet_len(h),
        body_of(h, bytes.subrange(1 + h.remaining_length.br, packet_len(h) as int)) == Ok::<
            (VariableHeaderModel, PayloadModel),
            &'static str,
        >((vh, pl)),
    ensures
        decode_packet(bytes) == Ok::<PacketModel, &'static str>((h, vh, pl)),
{
}

/// A fixed header whose first byte has type 3 decodes as a PUBLISH header.
proof fn lemma_fixed_header_publish(bytes: Seq<u8>, flags: u8, l: nat, br: nat)
    requires
        bytes.len() > 0,
        bytes[0] / 16 == 3,
        bytes[0] % 16 == flags,
        remaining_length_of(bytes.drop_first()) == Ok::<(nat, nat), &'static str>((l, br)),
    ensures
        fixed_header_of(bytes) == Ok::<FixedHeader, &'static str>(
            FixedHeader {
                packet_type: ControlPacketType::Publish,
                flags,
                remaining_length: RemainingLength { l: l as usize, br: br as usize },
            },
        ),
{
}

/// The body of a PUBLISH packet decodes as its variable header, then the rest as payload.
proof fn lemma_body_publish(h: FixedHeader, body: Seq<u8>, vh: VariableHeaderModel, payload: Seq<u8>)
    requires
        h.packet_type == ControlPacketType::Publish,
        publish_header_from(body, h.flags) == (Ok::<VariableHeaderModel, &'static str>(vh), payload),
    ensures
        body_of(h, body) == Ok::<(VariableHeaderModel, PayloadModel), &'static str>(
            (vh, PayloadModel::Publish(payload)),
        ),
{
}

/// The PUBACK round trip: decoding the bytes that the encoder writes for a PUBACK packet,
/// whatever follows them, gives back its packet id.
pub proof fn law_puback_roundtrip(packet_id: u16, rest: Seq<u8>)
    ensures
        decode_packet((ServerPacketModel::Puback { packet_id }).wire_bytes() + rest) == Ok::<
            PacketModel,
            &'static str,
        >(
            (
                FixedHeader {
                    packet_type: ControlPacketType::Puback,
                    flags: 0,
                    remaining_length: RemainingLength { l: 2, br: 1 },
                },
                VariableHeaderModel::PacketId(packet_id),
                PayloadModel::Empty,
            ),
        ),
{
    let bytes = (ServerPacketModel::Puback { packet_id }).wire_bytes() + rest;
    law_remaining_length_roundtrip(2, be_bytes(packet_id) + rest);
    assert(remaining_length_bytes(2) =~= seq![2u8]);
    assert(bytes.drop_first() =~= remaining_length_bytes(2) + (be_bytes(packet_id) + rest));
    assert(bytes.subrange(2, 4) =~= be_bytes(packet_id));
    lemma_be_u16_roundtrip(packet_id, Seq::empty());
    assert(be_bytes(packet_id) + Seq::<u8>::empty() =~= be_bytes(packet_id));
}

/// The PUBLISH round trip on the encoder's own bytes: decoding what the encoder writes for
/// a PUBLISH packet gives back its flags, topic, packet id (kept when the QoS is above 0)
/// and payload, and the decoded packet takes exactly all of those bytes.
pub proof fn law_publish_wire_roundtrip(p: ServerPacketModel)
    requires
        p is Publish,
        p->Publish_qos <= 3,
        p->Publish_qos > 0 ==> p->Publish_packet_id is Some,
        encode_utf8(p->Publish_topic_name).len() < 65536,
        publish_remaining_len(p->Publish_topic_name, p->Publish_payload, p->Publish_qos) < 268435456,
    ensures
        decode_packet(p.wire_bytes()) matches Ok((h, vh, pl)) && h.packet_type == ControlPacketType::Publish
            && h.flags == publish_header_byte(p->Publish_dup, p->Publish_qos, p->Publish_retain) % 16
            && packet_len(h) == p.wire_bytes().len() && vh == (VariableHeaderModel::Publish {
            topic_name: p->Publish_topic_name,
            packet_id: if p->Publish_qos > 0 {
                p->Publish_packet_id
            } else {
                None
            },
        }) && pl == PayloadModel::Publish(p->Publish_payload),
{
    let (topic, packet_id, payload, dup, qos, retain) = (
        p->Publish_topic_name,
        p->Publish_packet_id,
        p->Publish_payload,
        p->Publish_dup,
        p->Publish_qos,
        p->Publish_retain,
    );
    let bytes = publish_bytes(topic, packet_id, payload, dup, qos, retain);
    let n = publish_remaining_len(topic, payload, qos);
    let h = FixedHeader {
        packet_type: ControlPacketType::Publish,
        flags: publish_header_byte(dup, qos, retain) % 16,
        remaining_length: RemainingLength { l: n as usize, br: remaining_length_bytes(n).len() as usize },
    };
    let vh = VariableHeaderModel::Publish {
        topic_name: topic,
        packet_id: if qos > 0 { packet_id } else { None },
    };
    assert(p.wire_bytes() == bytes);
    assert(decode_packet(bytes) == Ok::<PacketModel, &'static str>((h, vh, PayloadModel::Publish(payload)))) by {
        law_publish_roundtrip(topic, packet_id, payload, dup, qos, retain, Seq::empty());
        assert(bytes + Seq::<u8>::empty() =~= bytes);
    }
    assert(packet_len(h) == bytes.len()) by {
        lemma_pow128_small();
        lemma_encode_len(n, 4);
        assert(publish_body(topic, packet_id, payload, qos).len() == n);
        assert(bytes =~= seq![publish_header_byte(dup, qos, retain)] + remaining_length_bytes(n)
            + publish_body(topic, packet_id, payload, qos));
    }
}

} // verus!
