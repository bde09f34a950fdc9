use vstd::prelude::*;
use vstd::utf8::encode_utf8;
use crate::packet::length::remaining_length_bytes;
use crate::packet::types::{ConnackReturnCode, SubackReturnCode};

verus! {

/// A packet that the broker sends to a client.
#[allow(inconsistent_fields)]
#[derive(Debug, PartialEq, Eq)]
pub enum ServerPacket {
    Connack { session_present: bool, return_code: ConnackReturnCode },
    Suback { packet_id: u16, return_code: Vec<SubackReturnCode> },
    Unsuback { packet_id: u16 },
    Publish {
        topic_name: String,
        packet_id: Option<u16>,
        payload: Vec<u8>,
        dup: bool,
        qos: u8,
        retain: bool,
    },
    Puback { packet_id: u16 },
    Pingresp,
}

/// What a server packet holds, as text and bytes.
#[allow(inconsistent_fields)]
pub enum ServerPacketModel {
    Connack { session_present: bool, return_code: ConnackReturnCode },
    Suback { packet_id: u16, return_code: Seq<SubackReturnCode> },
    Unsuback { packet_id: u16 },
    Publish {
        topic_name: Seq<char>,
        packet_id: Option<u16>,
        payload: Seq<u8>,
        dup: bool,
        qos: u8,
        retain: bool,
    },
    Puback { packet_id: u16 },
    Pingresp,
}

impl View for ServerPacket {
    type V = ServerPacketModel;

    open spec fn view(&self) -> ServerPacketModel {
        match self {
            ServerPacket::Connack { session_present, return_code } => ServerPacketModel::Connack {
                session_present: *session_present,
                return_code: *return_code,
            },
            ServerPacket::Suback { packet_id, return_code } => ServerPacketModel::Suback {
                packet_id: *packet_id,
                return_code: return_code@,
            },
            ServerPacket::Unsuback { packet_id } => ServerPacketModel::Unsuback { packet_id: *packet_id },
            ServerPacket::Publish { topic_name, packet_id, payload, dup, qos, retain } =>
                ServerPacketModel::Publish {
                topic_name: topic_name@,
                packet_id: *packet_id,
                payload: payload@,
                dup: *dup,
                qos: *qos,
                retain: *retain,
            },
            ServerPacket::Puback { packet_id } => ServerPacketModel::Puback { packet_id: *packet_id },
            ServerPacket::Pingresp => ServerPacketModel::Pingresp,
        }
    }
}

impl Clone for ServerPacket {
    fn clone(&self) -> (r: Self)
        ensures
            r@ == self@,
    {
        match self {
            ServerPacket::Connack { session_present, return_code } => ServerPacket::Connack {
                session_present: *session_present,
                return_code: *return_code,
            },
            ServerPacket::Suback { packet_id, return_code } => {
                let mut codes: Vec<SubackReturnCode> = Vec::new();
                let mut i: usize = 0;
                while i < return_code.len()
                    invariant
                        i <= return_code.len(),
                        codes@ == return_code@.take(i as int),
                    decreases return_code.len() - i,
                {
                    codes.push(return_code[i]);
                    i += 1;
                    assert(codes@ =~= return_code@.take(i as int));
                }
                assert(codes@ =~= return_code@);
                ServerPacket::Suback { packet_id: *packet_id, return_code: codes }
            },
            ServerPacket::Unsuback { packet_id } => ServerPacket::Unsuback { packet_id: *packet_id },
            ServerPacket::Publish { topic_name, packet_id, payload, dup, qos, retain } => {
                let mut bytes: Vec<u8> = Vec::new();
                push_all(&mut bytes, payload.as_slice());
                assert(bytes@ =~= payload@);
                ServerPacket::Publish {
                    topic_name: topic_name.clone(),
                    packet_id: *packet_id,
                    payload: bytes,
                    dup: *dup,
                    qos: *qos,
                    retain: *retain,
                }
            },
            ServerPacket::Puback { packet_id } => ServerPacket::Puback { packet_id: *packet_id },
            ServerPacket::Pingresp => ServerPacket::Pingresp,
        }
    }
}

/// The two bytes of `v` in big-endian order.
pub open spec fn be_bytes(v: u16) -> Seq<u8> {
    seq![(v / 256) as u8, (v % 256) as u8]
}

/// The first byte of a PUBLISH packet: type 3 in the high nibble, then the dup bit, the two
/// low bits of the QoS and the retain bit.
pub open spec fn publish_header_byte(dup: bool, qos: u8, retain: bool) -> u8 {
    (0x30 + (if dup { 8int } else { 0 }) + (qos % 4) * 2 + (if retain { 1int } else { 0 })) as u8
}

/// The remaining length of an encoded PUBLISH packet: the topic length field, the topic,
/// the packet id when the QoS is above 0, and the payload.
pub open spec fn publish_remaining_len(topic: Seq<char>, payload: Seq<u8>, qos: u8) -> nat {
    (2 + encode_utf8(topic).len() + payload.len() + (if qos > 0 { 2int } else { 0 })) as nat
}

/// The bytes of a PUBLISH packet.
pub open spec fn publish_bytes(
    topic: Seq<char>,
    packet_id: Option<u16>,
    payload: Seq<u8>,
    dup: bool,
    qos: u8,
    retain: bool,
) -> Seq<u8> {
    seq![publish_header_byte(dup, qos, retain)] + remaining_length_bytes(
        publish_remaining_len(topic, payload, qos),
    ) + be_bytes(encode_utf8(topic).len() as u16) + encode_utf8(topic) + (if qos > 0
        && packet_id is Some {
        be_bytes(packet_id->0)
    } else {
        Seq::empty()
    }) + payload
}

impl ServerPacketModel {
    /// Whether the lengths of this packet fit the machine's counters while encoding.
    pub open spec fn encodable(self) -> bool {
        match self {
            ServerPacketModel::Publish { topic_name, payload, .. } => encode_utf8(topic_name).len()
                + payload.len() + 4 <= usize::MAX,
            ServerPacketModel::Suback { return_code, .. } => return_code.len() + 2 <= usize::MAX,
            _ => true,
        }
    }

    /// The bytes that stand for this packet on the wire.
    pub open spec fn wire_bytes(self) -> Seq<u8> {
        match self {
            ServerPacketModel::Connack { session_present, return_code } => seq![0x20u8]
                + remaining_length_bytes(2) + seq![
                if session_present {
                    1u8
                } else {
                    0u8
                },
                return_code.spec_code(),
            ],
            ServerPacketModel::Pingresp => seq![0xD0u8] + remaining_length_bytes(0),
            ServerPacketModel::Suback { packet_id, return_code } => seq![0x90u8]
                + remaining_length_bytes((2 + return_code.len()) as nat) + be_bytes(packet_id)
                + return_code.map_values(|c: SubackReturnCode| c.spec_code()),
            ServerPacketModel::Unsuback { packet_id } => seq![0xB0u8] + remaining_length_bytes(2)
                + be_bytes(packet_id),
            ServerPacketModel::Puback { packet_id } => seq![0x40u8] + remaining_length_bytes(2)
                + be_bytes(packet_id),
            ServerPacketModel::Publish { topic_name, packet_id, payload, dup, qos, retain } =>
                publish_bytes(topic_name, packet_id, payload, dup, qos, retain),
        }
    }
}

impl ServerPacket {
    /// Encodes this packet into a new buffer.
    pub fn encode(&self) -> (r: Vec<u8>)
        requires
            self@.encodable(),
        ensures
            r@ == self@.wire_bytes(),
    {
        let mut buf = Vec::new();
        self.encode_into(&mut buf);
        assert(buf@ =~= self@.wire_bytes());
        buf
    }

    /// Appends the encoding of this packet to `buf`.
    pub fn encode_into(&self, buf: &mut Vec<u8>)
        requires
            self@.encodable(),
        ensures
            final(buf)@ == old(buf)@ + self@.wire_bytes(),
    {
        let ghost start = buf@;
        match self {
            ServerPacket::Connack { session_present, return_code } => {
                buf.push(0x20);
                encode_remaining_length(2, buf);
                let flags = if *session_present {
                    0x01
                } else {
                    0x00
                };
                buf.push(flags);
                buf.push(return_code.code());
                assert(buf@ =~= start + self@.wire_bytes());
            },
            ServerPacket::Pingresp => {
                buf.push(0xD0);
                encode_remaining_length(0, buf);
                assert(buf@ =~= start + self@.wire_bytes());
            },
            ServerPacket::Suback { packet_id, return_code } => {
                encode_suback_into(*packet_id, return_code, buf);
            },
            ServerPacket::Unsuback { packet_id } => {
                buf.push(0xB0);
                encode_remaining_length(2, buf);
                push_be_u16(*packet_id, buf);
                assert(buf@ =~= start + self@.wire_bytes());
            },
            ServerPacket::Puback { packet_id } => {
                buf.push(0x40);
                encode_remaining_length(2, buf);
                push_be_u16(*packet_id, buf);
                assert(buf@ =~= start + self@.wire_bytes());
            },
            ServerPacket::Publish { topic_name, packet_id, payload, dup, qos, retain } => {
                encode_publish_into(topic_name, *packet_id, payload, *dup, *qos, *retain, buf);
            },
        }
    }
}

/// Appends a SUBACK packet to `buf`.
fn encode_suback_into(packet_id: u16, return_code: &Vec<SubackReturnCode>, buf: &mut Vec<u8>)
    requires
        return_code@.len() + 2 <= usize::MAX,
    ensures
        final(buf)@ == old(buf)@ + (ServerPacketModel::Suback { packet_id, return_code: return_code@ }).wire_bytes(),
{
    let ghost start = buf@;
    buf.push(0x90);
    let remaining_len = 2 + return_code.len();
    encode_remaining_length(remaining_len, buf);
    push_be_u16(packet_id, buf);
    let ghost mid = buf@;
    let mut i: usize = 0;
    while i < return_code.len()
        invariant
            i <= return_code.len(),
            buf@ == mid + return_code@.take(i as int).map_values(|c: SubackReturnCode| c.spec_code()),
        decreases return_code.len() - i,
    {
        buf.push(return_code[i].code());
        i += 1;
        assert(return_code@.take(i as int).map_values(|c: SubackReturnCode| c.spec_code())
            =~= return_code@.take(i - 1).map_values(|c: SubackReturnCode| c.spec_code()).push(
            return_code@[i - 1].spec_code(),
        ));
    }
    assert(return_code@.take(i as int) =~= return_code@);
    assert(buf@ =~= start + (ServerPacketModel::Suback { packet_id, return_code: return_code@ }).wire_bytes());
}

/// Appends a PUBLISH packet to `buf`.
fn encode_publish_into(
    topic_name: &String,
    packet_id: Option<u16>,
    payload: &Vec<u8>,
    dup: bool,
    qos: u8,
    retain: bool,
    buf: &mut Vec<u8>,
)
    requires
        encode_utf8(topic_name@).len() + payload@.len() + 4 <= usize::MAX,
    ensures
        final(buf)@ == old(buf)@ + publish_bytes(topic_name@, packet_id, payload@, dup, qos, retain),
{
    let ghost start = buf@;
    let mut header_byte: u8 = 0x30;
    if dup {
        header_byte |= 0x08;
    }
    let ghost h1 = header_byte;
    header_byte |= (qos & 0x03) << 1;
    let ghost h2 = header_byte;
    if retain {
        header_byte |= 0x01;
    }
    proof {
        lemma_publish_header_bits(dup, qos, retain, h1, h2, header_byte);
    }
    buf.push(header_byte);
    let topic_bytes = topic_name.as_str().as_bytes();
    let mut remaining_len = 2 + topic_bytes.len() + payload.len();
    if qos > 0 {
        remaining_len += 2;
    }
    encode_remaining_length(remaining_len, buf);
    encode_utf8_string(topic_name.as_str(), buf);
    if qos > 0 {
        if let Some(pid) = packet_id {
            push_be_u16(pid, buf);
        }
    }
    push_all(buf, payload.as_slice());
    assert(buf@ =~= start + publish_bytes(topic_name@, packet_id, payload@, dup, qos, retain));
}

/// The header byte that the encoder computes with bit operations is the one that
/// `publish_header_byte` describes.
proof fn lemma_publish_header_bits(dup: bool, qos: u8, retain: bool, h1: u8, h2: u8, byte: u8)
    requires
        h1 == (if dup { 0x30u8 | 0x08u8 } else { 0x30u8 }),
        h2 == h1 | ((qos & 0x03) << 1),
        byte == (if retain { h2 | 0x01u8 } else { h2 }),
    ensures
        byte == publish_header_byte(dup, qos, retain),
{
    if dup {
        assert(((0x30u8 | 0x08u8) | ((qos & 0x03) << 1)) as int == 0x38 + (qos % 4) * 2) by (bit_vector);
        assert((((0x30u8 | 0x08u8) | ((qos & 0x03) << 1)) | 0x01u8) as int == 0x39 + (qos % 4) * 2)
            by (bit_vector);
    } else {
        assert((0x30u8 | ((qos & 0x03) << 1)) as int == 0x30 + (qos % 4) * 2) by (bit_vector);
        assert(((0x30u8 | ((qos & 0x03) << 1)) | 0x01u8) as int == 0x31 + (qos % 4) * 2) by (bit_vector);
    }
}

/// Appends `v` to `buf` in big-endian order.
fn push_be_u16(v: u16, buf: &mut Vec<u8>)
    ensures
        final(buf)@ == old(buf)@ + be_bytes(v),
{
    buf.push((v / 256) as u8);
    buf.push((v % 256) as u8);
    assert(buf@ =~= old(buf)@ + be_bytes(v));
}

/// Appends the bytes of `bytes` to `buf`.
fn push_all(buf: &mut Vec<u8>, bytes: &[u8])
    ensures
        final(buf)@ == old(buf)@ + bytes@,
{
    let ghost start = buf@;
    let mut i: usize = 0;
    while i < bytes.len()
        invariant
            i <= bytes.len(),
            buf@ == start + bytes@.take(i as int),
        decreases bytes.len() - i,
    {
        buf.push(bytes[i]);
        i += 1;
        assert(buf@ =~= start + bytes@.take(i as int));
    }
    assert(bytes@.take(i as int) =~= bytes@);
}

/// Appends `length` to `buf` as a remaining length field.
pub fn encode_remaining_length(length: usize, buf: &mut Vec<u8>)
    ensures
        final(buf)@ == old(buf)@ + remaining_length_bytes(length as nat),
{
    let ghost start = buf@;
    let ghost total = length as nat;
    let mut length = length;
    loop
        invariant_except_break
            buf@ + remaining_length_bytes(length as nat) == start + remaining_length_bytes(total),
        ensures
            buf@ == start + remaining_length_bytes(total),
        decreases length,
    {
        let ghost before = buf@;
        let ghost current = length as nat;
        let mut byte = (length % 128) as u8;
        length /= 128;
        if length > 0 {
            assert(byte | 0x80 == byte + 128) by (bit_vector)
                requires
                    byte < 128,
            ;
            byte |= 0x80;
        }
        buf.push(byte);
        if length == 0 {
            assert(buf@ =~= before + remaining_length_bytes(current));
            break;
        }
        assert(before + remaining_length_bytes(current) =~= buf@ + remaining_length_bytes(length as nat));
    }
}

/// Appends `s` to `buf` as a length-prefixed UTF-8 string; the length is the byte length
/// of `s`, kept to its low 16 bits.
pub fn encode_utf8_string(s: &str, buf: &mut Vec<u8>)
    ensures
        final(buf)@ == old(buf)@ + be_bytes(encode_utf8(s@).len() as u16) + encode_utf8(s@),
{
    let bytes = s.as_bytes();
    let len = bytes.len() as u16;
    push_be_u16(len, buf);
    push_all(buf, bytes);
    assert(final(buf)@ =~= old(buf)@ + be_bytes(encode_utf8(s@).len() as u16) + encode_utf8(s@));
}

} // verus!
