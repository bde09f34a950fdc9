use vstd::prelude::*;
use crate::packet::length::{
    lemma_decode_bounds, lemma_decode_step, lemma_pow128_small, pow128, remaining_length_from,
    remaining_length_of, shifted,
};
use crate::packet::reader::{
    read_bytes_from, read_string_from, read_u16_from, read_u8_from, BufferReader,
};
use crate::packet::types::{
    connect_flag_of, control_type_of, ConnectFlag, ConnectPayload, ConnectPayloadModel,
    ControlPacketType, FixedHeader, Payload, PayloadModel, RemainingLength, TopicFilter,
    VariableHeader, VariableHeaderModel, lemma_flag_bits, opt_bytes, opt_text,
};

verus! {

/// A decoded client packet.
#[derive(Debug)]
pub struct ControlPacket {
    pub header: FixedHeader,
    pub vheader: VariableHeader,
    pub payload: Payload,
}

/// What a decoded packet stands for: its fixed header, variable header and payload.
pub type PacketModel = (FixedHeader, VariableHeaderModel, PayloadModel);

impl View for ControlPacket {
    type V = PacketModel;

    open spec fn view(&self) -> PacketModel {
        (self.header, self.vheader@, self.payload@)
    }
}

/// The QoS bits (bits 1-2) of a PUBLISH fixed header's flags.
pub open spec fn qos_of_flags(flags: u8) -> u8 {
    ((flags / 2) % 4) as u8
}

/// Whether the flags nibble is the one that the packet type requires: any flags for
/// PUBLISH, 0b0010 for PUBREL, SUBSCRIBE and UNSUBSCRIBE, 0 for the others.
pub open spec fn flags_allowed(packet_type: ControlPacketType, flags: u8) -> bool {
    match packet_type {
        ControlPacketType::Publish => true,
        ControlPacketType::Pubrel | ControlPacketType::Subscribe | ControlPacketType::Unsubscribe =>
            flags == 2,
        _ => flags == 0,
    }
}

/// What the fixed header at the start of `bytes` decodes to: the type in the high nibble of
/// the first byte, the flags in its low nibble, then the remaining length field.
pub open spec fn fixed_header_of(bytes: Seq<u8>) -> Result<FixedHeader, &'static str> {
    if bytes.len() == 0 {
        Err("Empty buffer: cannot parse fixed header")
    } else {
        let flags = (bytes[0] % 16) as u8;
        match control_type_of((bytes[0] / 16) as u8) {
            None => Err("Control packet type representation must be between 1 and 14"),
            Some(t) => if !flags_allowed(t, flags) {
                Err("Invalid flag detected")
            } else {
                match remaining_length_of(bytes.drop_first()) {
                    Err(e) => Err(e),
                    Ok((l, br)) => Ok(
                        FixedHeader {
                            packet_type: t,
                            flags,
                            remaining_length: RemainingLength { l: l as usize, br: br as usize },
                        },
                    ),
                }
            },
        }
    }
}

/// Reading a CONNECT variable header from `s`: protocol name, protocol level, connect flags
/// and keep alive.
pub open spec fn connect_header_from(s: Seq<u8>) -> (Result<VariableHeaderModel, &'static str>, Seq<u8>) {
    let (r1, s1) = read_string_from(s);
    match r1 {
        Err(e) => (Err(e), s1),
        Ok(name) => {
            let (r2, s2) = read_u8_from(s1);
            match r2 {
                Err(e) => (Err(e), s2),
                Ok(level) => {
                    let (r3, s3) = read_u8_from(s2);
                    match r3 {
                        Err(e) => (Err(e), s3),
                        Ok(fb) => match connect_flag_of(fb) {
                            Err(e) => (Err(e), s3),
                            Ok(cf) => {
                                let (r4, s4) = read_u16_from(s3);
                                match r4 {
                                    Err(e) => (Err(e), s4),
                                    Ok(ka) => (
                                        Ok(
                                            VariableHeaderModel::Connect {
                                                protocol_name: name,
                                                protocol_level: level,
                                                connect_flag: cf,
                                                keep_alive: ka,
                                            },
                                        ),
                                        s4,
                                    ),
                                }
                            },
                        },
                    }
                },
            }
        },
    }
}

/// Reading a PUBLISH variable header from `s`: the topic name, then a packet id when the
/// QoS in `flags` is above 0.
pub open spec fn publish_header_from(s: Seq<u8>, flags: u8) -> (Result<VariableHeaderModel, &'static str>, Seq<u8>) {
    let (r1, s1) = read_string_from(s);
    match r1 {
        Err(e) => (Err(e), s1),
        Ok(topic) => if qos_of_flags(flags) > 0 {
            let (r2, s2) = read_u16_from(s1);
            match r2 {
                Err(e) => (Err(e), s2),
                Ok(id) => (Ok(VariableHeaderModel::Publish { topic_name: topic, packet_id: Some(id) }), s2),
            }
        } else {
            (Ok(VariableHeaderModel::Publish { topic_name: topic, packet_id: None }), s1)
        },
    }
}

/// Reading a variable header that is a packet id alone.
pub open spec fn packet_id_header_from(s: Seq<u8>) -> (Result<VariableHeaderModel, &'static str>, Seq<u8>) {
    let (r, s1) = read_u16_from(s);
    match r {
        Err(e) => (Err(e), s1),
        Ok(id) => (Ok(VariableHeaderModel::PacketId(id)), s1),
    }
}

/// Reading an optional string: read when `present`, absent otherwise.
pub open spec fn optional_string_from(s: Seq<u8>, present: bool) -> (Result<Option<Seq<char>>, &'static str>, Seq<u8>) {
    if present {
        let (r, s1) = read_string_from(s);
        match r {
            Err(e) => (Err(e), s1),
            Ok(v) => (Ok(Some(v)), s1),
        }
    } else {
        (Ok(None), s)
    }
}

/// Reading an optional byte string: read when `present`, absent otherwise.
pub open spec fn optional_bytes_from(s: Seq<u8>, present: bool) -> (Result<Option<Seq<u8>>, &'static str>, Seq<u8>) {
    if present {
        let (r, s1) = read_bytes_from(s);
        match r {
            Err(e) => (Err(e), s1),
            Ok(v) => (Ok(Some(v)), s1),
        }
    } else {
        (Ok(None), s)
    }
}

/// Reading a CONNECT payload from `s` after the variable header `vheader`: the client id,
/// then the will topic and will message when the will flag is set, the username when the
/// username flag is set and the password when the password flag is set.
pub open spec fn connect_payload_from(s: Seq<u8>, vheader: VariableHeaderModel) -> (Result<PayloadModel, &'static str>, Seq<u8>) {
    match vheader {
        VariableHeaderModel::Connect { connect_flag: cf, .. } => {
            let (r1, s1) = read_string_from(s);
            match r1 {
                Err(e) => (Err(e), s1),
                Ok(client_id) => {
                    let (r2, s2) = optional_string_from(s1, cf.will_flag);
                    match r2 {
                        Err(e) => (Err(e), s2),
                        Ok(will_topic) => {
                            let (r3, s3) = optional_bytes_from(s2, cf.will_flag);
                            match r3 {
                                Err(e) => (Err(e), s3),
                                Ok(will_message) => {
                                    let (r4, s4) = optional_string_from(s3, cf.username_flag);
                                    match r4 {
                                        Err(e) => (Err(e), s4),
                                        Ok(username) => {
                                            let (r5, s5) = optional_bytes_from(s4, cf.password_flag);
                                            match r5 {
                                                Err(e) => (Err(e), s5),
                                                Ok(password) => (
                                                    Ok(
                                                        PayloadModel::Connect(
                                                            ConnectPayloadModel {
                                                                client_id,
                                                                will_topic,
                                                                will_message,
                                                                username,
                                                                password,
                                                            },
                                                        ),
                                                    ),
                                                    s5,
                                                ),
                                            }
                                        },
                                    }
                                },
                            }
                        },
                    }
                },
            }
        },
        _ => (Err("Invalid variable header for CONNECT payload"), s),
    }
}

/// Reading the topic filters of a SUBSCRIBE payload from `s` until it is used up: each is a
/// string followed by a QoS byte, which may not exceed 2.
pub open spec fn subscribe_filters_from(s: Seq<u8>) -> (Result<Seq<(Seq<char>, u8)>, &'static str>, Seq<u8>)
    decreases s.len(),
{
    if s.len() == 0 {
        (Ok(Seq::empty()), s)
    } else {
        let (r1, s1) = read_string_from(s);
        match r1 {
            Err(e) => (Err(e), s1),
            Ok(filter) => {
                let (r2, s2) = read_u8_from(s1);
                match r2 {
                    Err(e) => (Err(e), s2),
                    Ok(qos) => if qos > 2 {
                        (Err("Invalid QoS in Subscribe payload"), s2)
                    } else {
                        match subscribe_filters_from(s2) {
                            (Ok(rest), s3) => (Ok(seq![(filter, qos)] + rest), s3),
                            (Err(e), s3) => (Err(e), s3),
                        }
                    },
                }
            },
        }
    }
}

/// Reading the topics of an UNSUBSCRIBE payload from `s` until it is used up.
pub open spec fn unsubscribe_topics_from(s: Seq<u8>) -> (Result<Seq<Seq<char>>, &'static str>, Seq<u8>)
    decreases s.len(),
{
    if s.len() == 0 {
        (Ok(Seq::empty()), s)
    } else {
        let (r1, s1) = read_string_from(s);
        match r1 {
            Err(e) => (Err(e), s1),
            Ok(topic) => match unsubscribe_topics_from(s1) {
                (Ok(rest), s2) => (Ok(seq![topic] + rest), s2),
                (Err(e), s2) => (Err(e), s2),
            },
        }
    }
}

/// A variable header, then a payload read after it.
pub open spec fn then_payload(
    vh: (Result<VariableHeaderModel, &'static str>, Seq<u8>),
    payload: spec_fn(Seq<u8>, VariableHeaderModel) -> (Result<PayloadModel, &'static str>, Seq<u8>),
) -> Result<(VariableHeaderModel, PayloadModel), &'static str> {
    match vh.0 {
        Err(e) => Err(e),
        Ok(v) => match payload(vh.1, v).0 {
            Err(e) => Err(e),
            Ok(p) => Ok((v, p)),
        },
    }
}

/// What the body of a packet with fixed header `header` decodes to.
pub open spec fn body_of(header: FixedHeader, body: Seq<u8>) -> Result<(VariableHeaderModel, PayloadModel), &'static str> {
    match header.packet_type {
        ControlPacketType::Connect => then_payload(
            connect_header_from(body),
            |s: Seq<u8>, v: VariableHeaderModel| connect_payload_from(s, v),
        ),
        ControlPacketType::Publish => then_payload(
            publish_header_from(body, header.flags),
            |s: Seq<u8>, v: VariableHeaderModel| (Ok(PayloadModel::Publish(s)), Seq::<u8>::empty()),
        ),
        ControlPacketType::Subscribe => then_payload(
            packet_id_header_from(body),
            |s: Seq<u8>, v: VariableHeaderModel|
                match subscribe_filters_from(s) {
                    (Ok(fs), r) => (Ok(PayloadModel::Subscribe(fs)), r),
                    (Err(e), r) => (Err(e), r),
                },
        ),
        ControlPacketType::Unsubscribe => then_payload(
            packet_id_header_from(body),
            |s: Seq<u8>, v: VariableHeaderModel|
                match unsubscribe_topics_from(s) {
                    (Ok(ts), r) => (Ok(PayloadModel::Unsubscribe(ts)), r),
                    (Err(e), r) => (Err(e), r),
                },
        ),
        ControlPacketType::Puback | ControlPacketType::Pubrec | ControlPacketType::Pubrel
        | ControlPacketType::Pubcomp => then_payload(
            packet_id_header_from(body),
            |s: Seq<u8>, v: VariableHeaderModel| (Ok(PayloadModel::Empty), s),
        ),
        ControlPacketType::Pingreq | ControlPacketType::Disconnect => Ok(
            (VariableHeaderModel::Empty, PayloadModel::Empty),
        ),
        _ => Err("Unexpected or unsupported control packet type"),
    }
}

/// The number of bytes of the packet whose fixed header is `header`: the first byte, the
/// remaining length field and the body.
pub open spec fn packet_len(header: FixedHeader) -> nat {
    (1 + header.remaining_length.br + header.remaining_length.l) as nat
}

/// What a client packet at the start of `bytes` decodes to. Bytes after the packet are
/// not read.
pub open spec fn decode_packet(bytes: Seq<u8>) -> Result<PacketModel, &'static str> {
    if bytes.len() == 0 {
        Err("Empty buffer")
    } else {
        match fixed_header_of(bytes) {
            Err(e) => Err(e),
            Ok(h) => if bytes.len() < packet_len(h) {
                Err("Incomplete packet")
            } else {
                match body_of(h, bytes.subrange(1 + h.remaining_length.br, packet_len(h) as int)) {
                    Err(e) => Err(e),
                    Ok((v, p)) => Ok((h, v, p)),
                }
            },
        }
    }
}

impl ControlPacket {
    /// Decodes the client packet at the start of `bytes`.
    pub fn parse(bytes: &[u8]) -> (r: Result<Self, &'static str>)
        ensures
            r is Ok <==> decode_packet(bytes@) is Ok,
            r matches Ok(p) ==> decode_packet(bytes@) == Ok::<PacketModel, &'static str>(p@),
            r matches Err(e) ==> decode_packet(bytes@) == Err::<PacketModel, &'static str>(e),
    {
        let (header, vheader, payload) = decode_client_packet(bytes)?;
        Ok(Self { header, vheader, payload })
    }
}

/// Decodes the client packet at the start of `bytes` into its three parts.
pub fn decode_client_packet(bytes: &[u8]) -> (r: Result<(FixedHeader, VariableHeader, Payload), &'static str>)
    ensures
        r is Ok <==> decode_packet(bytes@) is Ok,
        r matches Ok((h, v, p)) ==> decode_packet(bytes@) == Ok::<PacketModel, &'static str>((h, v@, p@)),
        r matches Err(e) ==> decode_packet(bytes@) == Err::<PacketModel, &'static str>(e),
{
    if bytes.is_empty() {
        return Err("Empty buffer");
    }
    let fixed_header = FixedHeader::from_bytes(bytes)?;
    proof {
        lemma_pow128_small();
        lemma_decode_bounds(bytes@.drop_first(), 0);
    }
    let header_len = 1 + fixed_header.remaining_length.br;
    let total_len = header_len + fixed_header.remaining_length.l;
    if bytes.len() < total_len {
        return Err("Incomplete packet");
    }
    let body_bytes = &bytes[header_len..total_len];
    let mut reader = BufferReader::new(body_bytes);
    let ghost body = body_bytes@;
    let (variable_header, payload) = match fixed_header.packet_type {
        ControlPacketType::Connect => {
            let vheader = VariableHeader::parse_connect(&mut reader)?;
            let payload = Payload::parse_connect(&mut reader, &vheader)?;
            (vheader, payload)
        },
        ControlPacketType::Publish => {
            let vheader = VariableHeader::parse_publish(&mut reader, fixed_header.flags)?;
            let payload = Payload::parse_publish(&mut reader)?;
            (vheader, payload)
        },
        ControlPacketType::Subscribe => {
            let vheader = VariableHeader::parse_packet_id(&mut reader)?;
            let payload = Payload::parse_subscribe(&mut reader)?;
            (vheader, payload)
        },
        ControlPacketType::Unsubscribe => {
            let vheader = VariableHeader::parse_packet_id(&mut reader)?;
            let payload = Payload::parse_unsubscribe(&mut reader)?;
            (vheader, payload)
        },
        ControlPacketType::Puback | ControlPacketType::Pubrec | ControlPacketType::Pubrel
        | ControlPacketType::Pubcomp => {
            let vheader = VariableHeader::parse_packet_id(&mut reader)?;
            (vheader, Payload::Empty)
        },
        ControlPacketType::Pingreq | ControlPacketType::Disconnect => {
            (VariableHeader::Empty, Payload::Empty)
        },
        _ => return Err("Unexpected or unsupported control packet type"),
    };
    Ok((fixed_header, variable_header, payload))
}

impl FixedHeader {
    /// Decodes the fixed header at the start of `bytes`.
    pub fn from_bytes(bytes: &[u8]) -> (r: Result<Self, &'static str>)
        ensures
            r == fixed_header_of(bytes@),
    {
        if bytes.is_empty() {
            return Err("Empty buffer: cannot parse fixed header");
        }
        let byte0 = bytes[0];
        proof {
            lemma_flag_bits(byte0);
        }
        let type_u8 = byte0 >> 4;
        let flags = byte0 & 0x0F;
        let packet_type = ControlPacketType::try_from(type_u8)?;
        match packet_type {
            ControlPacketType::Publish => {},
            ControlPacketType::Pubrel | ControlPacketType::Subscribe | ControlPacketType::Unsubscribe => {
                if flags != 2 {
                    return Err("Invalid flag detected");
                }
            },
            _ => {
                if flags != 0 {
                    return Err("Invalid flag detected");
                }
            },
        }
        let (_, rest) = bytes.split_at(1);
        assert(rest@ =~= bytes@.drop_first());
        let remaining_length = parse_remaining_length(rest)?;
        Ok(FixedHeader { packet_type, flags, remaining_length })
    }
}

/// Decodes the remaining length field at the start of `bytes`.
pub fn parse_remaining_length(bytes: &[u8]) -> (r: Result<RemainingLength, &'static str>)
    ensures
        match remaining_length_of(bytes@) {
            Ok((v, k)) => r == Ok::<RemainingLength, &'static str>(
                RemainingLength { l: v as usize, br: k as usize },
            ),
            Err(e) => r == Err::<RemainingLength, &'static str>(e),
        },
{
    let mut value: usize = 0;
    let mut multiplier: usize = 1;
    let mut bytes_read: usize = 0;
    proof {
        lemma_pow128_small();
        lemma_decode_bounds(bytes@, 0);
        assert(shifted(remaining_length_from(bytes@, 0), 0, 1, 0) == remaining_length_from(bytes@, 0));
    }
    loop
        invariant_except_break
            bytes_read <= 4,
            multiplier == pow128(bytes_read as nat),
            value < multiplier,
            pow128(0) == 1 && pow128(1) == 128 && pow128(2) == 16384 && pow128(3) == 2097152
                && pow128(4) == 268435456,
            remaining_length_of(bytes@) == shifted(
                remaining_length_from(bytes@, bytes_read as nat),
                value as nat,
                multiplier as nat,
                bytes_read as nat,
            ),
        ensures
            remaining_length_of(bytes@) == Ok::<(nat, nat), &'static str>((value as nat, bytes_read as nat)),
        decreases 4 - bytes_read,
    {
        if bytes_read >= bytes.len() {
            return Err("Incomplete remaining length data");
        }
        if bytes_read >= 4 {
            return Err("Malformed remaining length: exceeds 4 bytes");
        }
        let encoded_byte = bytes[bytes_read];
        proof {
            assert(encoded_byte & 127 == encoded_byte % 128) by (bit_vector);
            assert((encoded_byte & 0x80 == 0) == (encoded_byte < 128)) by (bit_vector);
            assert(multiplier <= 2097152);
            assert((encoded_byte % 128) as nat * multiplier <= 127 * 2097152) by (nonlinear_arith)
                requires
                    multiplier <= 2097152,
                    encoded_byte % 128 <= 127,
            ;
        }
        let digit = (encoded_byte & 127) as usize;
        proof {
            assert(digit * multiplier == multiplier * digit) by (nonlinear_arith);
            if encoded_byte >= 128 {
                assert(digit == encoded_byte - 128);
                lemma_decode_step(bytes@, bytes_read as nat, value as nat, multiplier as nat);
            } else {
                assert(digit == encoded_byte);
            }
            assert(value + digit * multiplier < multiplier * 128) by (nonlinear_arith)
                requires
                    value < multiplier,
                    digit <= 127,
            ;
        }
        value += digit * multiplier;
        bytes_read += 1;
        if (encoded_byte & 0x80) == 0 {
            break;
        }
        multiplier *= 128;
    }
    Ok(RemainingLength { l: value, br: bytes_read })
}

impl VariableHeader {
    /// Reads a CONNECT variable header.
    pub fn parse_connect(reader: &mut BufferReader) -> (r: Result<Self, &'static str>)
        ensures
            r is Ok <==> connect_header_from(old(reader)@).0 is Ok,
            r matches Ok(v) ==> connect_header_from(old(reader)@).0 == Ok::<VariableHeaderModel, &'static str>(v@),
            r matches Err(e) ==> connect_header_from(old(reader)@).0 == Err::<VariableHeaderModel, &'static str>(e),
            final(reader)@ == connect_header_from(old(reader)@).1,
    {
        let protocol_name = reader.read_string()?;
        let protocol_level = reader.read_u8()?;
        let connect_flag = ConnectFlag::from_byte(reader.read_u8()?)?;
        let keep_alive = reader.read_u16()?;
        Ok(VariableHeader::Connect { protocol_name, protocol_level, connect_flag, keep_alive })
    }

    /// Reads a PUBLISH variable header; `flags` is the fixed header's flags nibble.
    pub fn parse_publish(reader: &mut BufferReader, flags: u8) -> (r: Result<Self, &'static str>)
        ensures
            r is Ok <==> publish_header_from(old(reader)@, flags).0 is Ok,
            r matches Ok(v) ==> publish_header_from(old(reader)@, flags).0 == Ok::<VariableHeaderModel, &'static str>(v@),
            r matches Err(e) ==> publish_header_from(old(reader)@, flags).0 == Err::<VariableHeaderModel, &'static str>(e),
            final(reader)@ == publish_header_from(old(reader)@, flags).1,
    {
        let topic_name = reader.read_string()?;
        proof {
            lemma_flag_bits(flags);
        }
        let qos = (flags & 0x06) >> 1;
        let packet_id = if qos > 0 {
            Some(reader.read_u16()?)
        } else {
            None
        };
        Ok(VariableHeader::Publish { topic_name, packet_id })
    }

    /// Reads a variable header that is a packet id alone.
    pub fn parse_packet_id(reader: &mut BufferReader) -> (r: Result<Self, &'static str>)
        ensures
            r is Ok <==> packet_id_header_from(old(reader)@).0 is Ok,
            r matches Ok(v) ==> packet_id_header_from(old(reader)@).0 == Ok::<VariableHeaderModel, &'static str>(v@),
            r matches Err(e) ==> packet_id_header_from(old(reader)@).0 == Err::<VariableHeaderModel, &'static str>(e),
            final(reader)@ == packet_id_header_from(old(reader)@).1,
    {
        let packet_id = reader.read_u16()?;
        Ok(VariableHeader::PacketId(packet_id))
    }
}

/// Reads an optional string when `present`.
fn read_optional_string(reader: &mut BufferReader, present: bool) -> (r: Result<Option<String>, &'static str>)
    ensures
        r is Ok <==> optional_string_from(old(reader)@, present).0 is Ok,
        r matches Ok(v) ==> optional_string_from(old(reader)@, present).0 == Ok::<Option<Seq<char>>, &'static str>(opt_text(v)),
        r matches Err(e) ==> optional_string_from(old(reader)@, present).0 == Err::<Option<Seq<char>>, &'static str>(e),
        final(reader)@ == optional_string_from(old(reader)@, present).1,
{
    if present {
        Ok(Some(reader.read_string()?))
    } else {
        Ok(None)
    }
}

/// Reads an optional byte string when `present`.
fn read_optional_bytes(reader: &mut BufferReader, present: bool) -> (r: Result<Option<Vec<u8>>, &'static str>)
    ensures
        r is Ok <==> optional_bytes_from(old(reader)@, present).0 is Ok,
        r matches Ok(v) ==> optional_bytes_from(old(reader)@, present).0 == Ok::<Option<Seq<u8>>, &'static str>(opt_bytes(v)),
        r matches Err(e) ==> optional_bytes_from(old(reader)@, present).0 == Err::<Option<Seq<u8>>, &'static str>(e),
        final(reader)@ == optional_bytes_from(old(reader)@, present).1,
{
    if present {
        Ok(Some(reader.read_bytes()?))
    } else {
        Ok(None)
    }
}

impl Payload {
    /// Reads a CONNECT payload after the variable header `vheader`.
    pub fn parse_connect(reader: &mut BufferReader, vheader: &VariableHeader) -> (r: Result<Self, &'static str>)
        ensures
            r is Ok <==> connect_payload_from(old(reader)@, vheader@).0 is Ok,
            r matches Ok(p) ==> connect_payload_from(old(reader)@, vheader@).0 == Ok::<PayloadModel, &'static str>(p@),
            r matches Err(e) ==> connect_payload_from(old(reader)@, vheader@).0 == Err::<PayloadModel, &'static str>(e),
            final(reader)@ == connect_payload_from(old(reader)@, vheader@).1,
    {
        let connect_flag = match vheader {
            VariableHeader::Connect { connect_flag, .. } => connect_flag,
            _ => return Err("Invalid variable header for CONNECT payload"),
        };
        let client_id = reader.read_string()?;
        let will_topic = read_optional_string(reader, connect_flag.will_flag)?;
        let will_message = read_optional_bytes(reader, connect_flag.will_flag)?;
        let username = read_optional_string(reader, connect_flag.username_flag)?;
        let password = read_optional_bytes(reader, connect_flag.password_flag)?;
        Ok(Payload::Connect(ConnectPayload { client_id, will_topic, will_message, username, password }))
    }

    /// Takes the rest of the body as a PUBLISH payload.
    pub fn parse_publish(reader: &mut BufferReader) -> (r: Result<Self, &'static str>)
        ensures
            r matches Ok(p) && p@ == PayloadModel::Publish(old(reader)@),
            final(reader)@.len() == 0,
    {
        Ok(Payload::Publish(reader.read_remaining()))
    }

    /// Reads the topic filters of a SUBSCRIBE payload until the body is used up.
    pub fn parse_subscribe(reader: &mut BufferReader) -> (r: Result<Self, &'static str>)
        ensures
            r is Ok <==> subscribe_filters_from(old(reader)@).0 is Ok,
            r matches Ok(p) ==> subscribe_filters_from(old(reader)@).0 matches Ok(fs) && p@ == PayloadModel::Subscribe(fs),
            r matches Err(e) ==> subscribe_filters_from(old(reader)@).0 == Err::<Seq<(Seq<char>, u8)>, &'static str>(e),
            final(reader)@ == subscribe_filters_from(old(reader)@).1,
    {
        let mut filters: Vec<TopicFilter> = Vec::new();
        let ghost start = reader@;
        while !reader.is_empty()
            invariant
                start == old(reader)@,
                subscribe_filters_from(start) == (match subscribe_filters_from(reader@) {
                    (Ok(rest), s) => (Ok(filters@.map_values(|f: TopicFilter| f@) + rest), s),
                    (Err(e), s) => (Err::<Seq<(Seq<char>, u8)>, &'static str>(e), s),
                }),
            decreases reader@.len(),
        {
            let ghost before = reader@;
            let ghost old_filters = filters@;
            let filter = reader.read_string()?;
            let qos = reader.read_u8()?;
            if qos > 2 {
                return Err("Invalid QoS in Subscribe payload");
            }
            filters.push(TopicFilter { filter, qos });
            proof {
                assert(filters@.map_values(|f: TopicFilter| f@) =~= old_filters.map_values(|f: TopicFilter| f@).push((filter@, qos)));
                match subscribe_filters_from(reader@) {
                    (Ok(rest), s) => {
                        assert(old_filters.map_values(|f: TopicFilter| f@) + (seq![(filter@, qos)] + rest)
                            =~= filters@.map_values(|f: TopicFilter| f@) + rest);
                    },
                    (Err(e), s) => {},
                }
            }
        }
        assert(filters@.map_values(|f: TopicFilter| f@) + Seq::<(Seq<char>, u8)>::empty() =~= filters@.map_values(|f: TopicFilter| f@));
        Ok(Payload::Subscribe(filters))
    }

    /// Reads the topics of an UNSUBSCRIBE payload until the body is used up.
    pub fn parse_unsubscribe(reader: &mut BufferReader) -> (r: Result<Self, &'static str>)
        ensures
            r is Ok <==> unsubscribe_topics_from(old(reader)@).0 is Ok,
            r matches Ok(p) ==> unsubscribe_topics_from(old(reader)@).0 matches Ok(ts) && p@ == PayloadModel::Unsubscribe(ts),
            r matches Err(e) ==> unsubscribe_topics_from(old(reader)@).0 == Err::<Seq<Seq<char>>, &'static str>(e),
            final(reader)@ == unsubscribe_topics_from(old(reader)@).1,
    {
        let mut topics: Vec<String> = Vec::new();
        let ghost start = reader@;
        while !reader.is_empty()
            invariant
                start == old(reader)@,
                unsubscribe_topics_from(start) == (match unsubscribe_topics_from(reader@) {
                    (Ok(rest), s) => (Ok(topics@.map_values(|t: String| t@) + rest), s),
                    (Err(e), s) => (Err::<Seq<Seq<char>>, &'static str>(e), s),
                }),
            decreases reader@.len(),
        {
            let ghost old_topics = topics@;
            let topic = reader.read_string()?;
            topics.push(topic);
            proof {
                assert(topics@.map_values(|t: String| t@) =~= old_topics.map_values(|t: String| t@).push(topic@));
                match unsubscribe_topics_from(reader@) {
                    (Ok(rest), s) => {
                        assert(old_topics.map_values(|t: String| t@) + (seq![topic@] + rest)
                            =~= topics@.map_values(|t: String| t@) + rest);
                    },
                    (Err(e), s) => {},
                }
            }
        }
        assert(topics@.map_values(|t: String| t@) + Seq::<Seq<char>>::empty() =~= topics@.map_values(|t: String| t@));
        Ok(Payload::Unsubscribe(topics))
    }
}

} // verus!
