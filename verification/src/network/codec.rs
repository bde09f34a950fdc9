use vstd::prelude::*;
use crate::packet::decoder::{
    decode_packet, flags_allowed, packet_len, parse_remaining_length, ControlPacket, PacketModel,
};
use crate::packet::error::ParseError;
use crate::packet::length::{lemma_decode_bounds, lemma_pow128_small, remaining_length_of};
use crate::packet::types::{control_type_of, lemma_flag_bits, ControlPacketType};

verus! {

/// Cuts client packets out of a stream of bytes.
pub struct MqttCodec;

/// Whether `bytes` begin a client packet that more bytes may complete: the first byte names a
/// packet type with flags that it allows, and either the remaining length field runs out of
/// bytes (within its 4 bytes), or it is complete and fewer bytes follow than the packet needs.
pub open spec fn awaits_more(bytes: Seq<u8>) -> bool {
    &&& bytes.len() > 0
    &&& control_type_of((bytes[0] / 16) as u8) matches Some(t)
    &&& flags_allowed(t, (bytes[0] % 16) as u8)
    &&& match remaining_length_of(bytes.drop_first()) {
        Err(_) => bytes.drop_first().len() <= 4,
        Ok((l, br)) => bytes.len() < 1 + br + l,
    }
}

/// What the front of a stream of bytes gives: nothing yet (no bytes, or a packet that more
/// bytes may complete), a packet with the number of bytes it takes, or the error that makes
/// the stream unreadable.
pub open spec fn frame_of(bytes: Seq<u8>) -> Result<Option<(PacketModel, nat)>, ParseError> {
    if bytes.len() == 0 {
        Ok(None)
    } else {
        match decode_packet(bytes) {
            Ok(p) => Ok(Some((p, packet_len(p.0)))),
            Err(e) => if awaits_more(bytes) {
                Ok(None)
            } else {
                Err(ParseError::Invalid(e))
            },
        }
    }
}

/// Whether `bytes` begin a client packet that more bytes may complete.
fn awaits_more_bytes(bytes: &[u8]) -> (r: bool)
    requires
        bytes@.len() > 0,
    ensures
        r == awaits_more(bytes@),
{
    let byte0 = bytes[0];
    proof {
        lemma_flag_bits(byte0);
    }
    let packet_type = match ControlPacketType::try_from(byte0 >> 4) {
        Ok(t) => t,
        Err(_) => return false,
    };
    let flags = byte0 & 0x0F;
    let allowed = match packet_type {
        ControlPacketType::Publish => true,
        ControlPacketType::Pubrel | ControlPacketType::Subscribe | ControlPacketType::Unsubscribe => flags == 2,
        _ => flags == 0,
    };
    if !allowed {
        return false;
    }
    let (_, rest) = bytes.split_at(1);
    assert(rest@ =~= bytes@.drop_first());
    proof {
        lemma_pow128_small();
        lemma_decode_bounds(rest@, 0);
    }
    match parse_remaining_length(rest) {
        Ok(rl) => bytes.len() < 1 + rl.br + rl.l,
        Err(_) => rest.len() <= 4,
    }
}

impl MqttCodec {
    /// Takes the packet at the front of `src`, with the number of bytes it takes; `None`
    /// while more bytes are needed.
    pub fn decode_frame(src: &[u8]) -> (r: Result<Option<(ControlPacket, usize)>, ParseError>)
        ensures
            match frame_of(src@) {
                Ok(None) => r matches Ok(None),
                Ok(Some((p, n))) => r matches Ok(Some((q, m))) && q@ == p && m == n,
                Err(e) => r == Err::<Option<(ControlPacket, usize)>, ParseError>(e),
            },
    {
        if src.is_empty() {
            return Ok(None);
        }
        match ControlPacket::parse(src) {
            Ok(packet) => {
                proof {
                    lemma_pow128_small();
                    lemma_decode_bounds(src@.drop_first(), 0);
                }
                let n = 1 + packet.header.remaining_length.br + packet.header.remaining_length.l;
                Ok(Some((packet, n)))
            },
            Err(e) => {
                if awaits_more_bytes(src) {
                    Ok(None)
                } else {
                    Err(ParseError::Invalid(e))
                }
            },
        }
    }
}

} // verus!
