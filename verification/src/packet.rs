pub mod code_laws;
pub mod decoder;
pub mod encoder;
pub mod error;
pub mod laws;
pub mod length;
pub mod reader;
pub mod types;

use vstd::prelude::*;
use vstd::std_specs::convert::TryFromSpecImpl;
use crate::packet::decoder::parse_remaining_length;
use crate::packet::length::remaining_length_of;

verus! {

/// Control Packet Type representation of the first header layout: each type has a number
/// from 1 to 14, and PUBLISH carries the flags of its header.
#[derive(PartialEq, Eq, Debug, Clone, Copy, Structural)]
pub enum ControlPacketType {
    Connect,
    Connack,
    Publish(PublishFlag),
    Puback,
    Pubrec,
    Pubrel,
    Pubcomp,
    Subscribe,
    Suback,
    Unsubscribe,
    Unsuback,
    Pingreq,
    Pingresp,
    Disconnect,
}

/// The packet type that a type number stands for; PUBLISH comes with cleared flags.
pub open spec fn legacy_type_of(value: u8) -> Option<ControlPacketType> {
    match value {
        1 => Some(ControlPacketType::Connect),
        2 => Some(ControlPacketType::Connack),
        3 => Some(ControlPacketType::Publish(PublishFlag::of_nibble(0))),
        4 => Some(ControlPacketType::Puback),
        5 => Some(ControlPacketType::Pubrec),
        6 => Some(ControlPacketType::Pubrel),
        7 => Some(ControlPacketType::Pubcomp),
        8 => Some(ControlPacketType::Subscribe),
        9 => Some(ControlPacketType::Suback),
        10 => Some(ControlPacketType::Unsubscribe),
        11 => Some(ControlPacketType::Unsuback),
        12 => Some(ControlPacketType::Pingreq),
        13 => Some(ControlPacketType::Pingresp),
        14 => Some(ControlPacketType::Disconnect),
        _ => None,
    }
}

impl ControlPacketType {
    /// The type number of the packet type, from 1 (CONNECT) to 14 (DISCONNECT); a PUBLISH
    /// type has number 3 whatever its flags.
    pub fn number(self) -> (r: u8)
        ensures
            1 <= r <= 14,
            self is Publish ==> r == 3,
            !(self is Publish) ==> legacy_type_of(r) == Some(self),
    {
        match self {
            ControlPacketType::Connect => 1,
            ControlPacketType::Connack => 2,
            ControlPacketType::Publish(_) => 3,
            ControlPacketType::Puback => 4,
            ControlPacketType::Pubrec => 5,
            ControlPacketType::Pubrel => 6,
            ControlPacketType::Pubcomp => 7,
            ControlPacketType::Subscribe => 8,
            ControlPacketType::Suback => 9,
            ControlPacketType::Unsubscribe => 10,
            ControlPacketType::Unsuback => 11,
            ControlPacketType::Pingreq => 12,
            ControlPacketType::Pingresp => 13,
            ControlPacketType::Disconnect => 14,
        }
    }
}

impl TryFrom<u8> for ControlPacketType {
    type Error = &'static str;

    fn try_from(value: u8) -> (r: Result<Self, Self::Error>) {
        if value > 0 && value <= 14 {
            let o = match value {
                1 => ControlPacketType::Connect,
                2 => ControlPacketType::Connack,
                3 => ControlPacketType::Publish(PublishFlag { dup: false, qos: 0, retain: false }),
                4 => ControlPacketType::Puback,
                5 => ControlPacketType::Pubrec,
                6 => ControlPacketType::Pubrel,
                7 => ControlPacketType::Pubcomp,
                8 => ControlPacketType::Subscribe,
                9 => ControlPacketType::Suback,
                10 => ControlPacketType::Unsubscribe,
                11 => ControlPacketType::Unsuback,
                12 => ControlPacketType::Pingreq,
                13 => ControlPacketType::Pingresp,
                _ => ControlPacketType::Disconnect,
            };
            Ok(o)
        } else {
            Err("Control packet type representation musty be between 1 and 14")
        }
    }
}

impl TryFromSpecImpl<u8> for ControlPacketType {
    open spec fn obeys_try_from_spec() -> bool {
        true
    }

    open spec fn try_from_spec(value: u8) -> Result<Self, Self::Error> {
        match legacy_type_of(value) {
            Some(t) => Ok(t),
            None => Err("Control packet type representation musty be between 1 and 14"),
        }
    }
}

/// Flag for Publish control packet
/// see: https://docs.oasis-open.org/mqtt/mqtt/v3.1.1/os/mqtt-v3.1.1-os.html#_Table_3.1_-
#[derive(PartialEq, Eq, Debug, Clone, Copy, Structural)]
pub struct PublishFlag {
    dup: bool,
    qos: u8,
    retain: bool,
}

impl PublishFlag {
    /// The dup flag.
    pub closed spec fn spec_dup(self) -> bool {
        self.dup
    }

    /// The QoS level.
    pub closed spec fn spec_qos(self) -> u8 {
        self.qos
    }

    /// The retain flag.
    pub closed spec fn spec_retain(self) -> bool {
        self.retain
    }

    /// The flags that a flags nibble stands for: bit 3 dup, bits 1-2 QoS, bit 0 retain.
    pub closed spec fn of_nibble(flag: u8) -> PublishFlag {
        PublishFlag { dup: (flag / 8) % 2 == 1, qos: ((flag / 2) % 4) as u8, retain: flag % 2 == 1 }
    }

    /// What the flags of a nibble are: bit 3 is dup, bits 1-2 the QoS, bit 0 retain.
    pub proof fn lemma_of_nibble(flag: u8)
        ensures
            PublishFlag::of_nibble(flag).spec_dup() == ((flag / 8) % 2 == 1),
            PublishFlag::of_nibble(flag).spec_qos() == (flag / 2) % 4,
            PublishFlag::of_nibble(flag).spec_retain() == (flag % 2 == 1),
    {
    }

    /// Two sets of flags are equal exactly when their dup, QoS and retain flags are.
    pub proof fn lemma_flags_equal(a: PublishFlag, b: PublishFlag)
        ensures
            (a == b) <==> (a.spec_dup() == b.spec_dup() && a.spec_qos() == b.spec_qos()
                && a.spec_retain() == b.spec_retain()),
    {
    }
}

impl Default for PublishFlag {
    fn default() -> (r: Self)
        ensures
            !r.spec_dup() && r.spec_qos() == 0 && !r.spec_retain(),
    {
        PublishFlag { dup: false, qos: 0, retain: false }
    }
}

/// A packet of the first header layout: fixed header, raw variable header and raw payload.
pub struct ControlPacket {
    header: FixedHeader,
    vheader: Option<Vec<u8>>,
    payload: Option<Vec<u8>>,
}

/// A fixed header of the first header layout.
pub struct FixedHeader {
    packet_type: ControlPacketType,
    remaining_length: RemainingLength,
}

/// A decoded remaining length field.
#[derive(PartialEq, Eq, Debug, Clone, Copy, Structural)]
pub struct RemainingLength {
    /// Length found in header.
    pub l: usize,
    /// The Bytes on which the length was encoded.
    pub br: usize,
}

/// What checking the flags nibble `flag` against a packet type gives: for PUBLISH, the type
/// with the flags taken from the nibble, accepted unless the QoS is 3; for PUBREL, SUBSCRIBE
/// and UNSUBSCRIBE the type, accepted when the nibble is 2; for the others, when it is 0.
pub open spec fn checked_flag(packet_type: ControlPacketType, flag: u8) -> (ControlPacketType, bool) {
    match packet_type {
        ControlPacketType::Publish(_) => {
            let f = PublishFlag::of_nibble(flag);
            (ControlPacketType::Publish(f), f.spec_qos() != 3)
        },
        ControlPacketType::Pubrel | ControlPacketType::Subscribe | ControlPacketType::Unsubscribe => (
            packet_type,
            flag == 2,
        ),
        _ => (packet_type, flag == 0),
    }
}

impl FixedHeader {
    /// The packet type.
    pub closed spec fn spec_packet_type(&self) -> ControlPacketType {
        self.packet_type
    }

    /// The remaining length field.
    pub closed spec fn spec_remaining_length(&self) -> RemainingLength {
        self.remaining_length
    }

    /// Decodes the fixed header at the start of `bytes`, which must hold a first byte.
    pub fn from_raw_bytes(bytes: &[u8]) -> (r: Result<Self, &'static str>)
        requires
            bytes@.len() > 0,
        ensures
            match legacy_type_of(bytes@[0] / 16) {
                None => r == Err::<Self, &'static str>(
                    "Control packet type representation musty be between 1 and 14",
                ),
                Some(t) => {
                    let (checked, ok) = checked_flag(t, bytes@[0] % 16);
                    if !ok {
                        r == Err::<Self, &'static str>("Invalid flag detected")
                    } else {
                        match remaining_length_of(bytes@.drop_first()) {
                            Err(e) => r == Err::<Self, &'static str>(e),
                            Ok((l, br)) => r matches Ok(h) && h.spec_packet_type() == checked
                                && h.spec_remaining_length() == (RemainingLength {
                                l: l as usize,
                                br: br as usize,
                            }),
                        }
                    }
                },
            },
    {
        proof {
            crate::packet::types::lemma_flag_bits(bytes@[0]);
        }
        let packet_type = bytes[0] >> 4;
        let flag = bytes[0] & 0x0F;
        let mut packet_type = ControlPacketType::try_from(packet_type)?;
        if !Self::check_flag(&mut packet_type, flag) {
            return Err("Invalid flag detected");
        }
        let (_, rest) = bytes.split_at(1);
        assert(rest@ =~= bytes@.drop_first());
        let remaining_length = Self::decoding_remainin_length(rest)?;
        Ok(Self { packet_type, remaining_length })
    }

    /// Checks the flags nibble `flag` against the packet type, filling in the flags of a
    /// PUBLISH type.
    pub fn check_flag(packet_type: &mut ControlPacketType, flag: u8) -> (r: bool)
        ensures
            (*final(packet_type), r) == checked_flag(*old(packet_type), flag),
            *old(packet_type) is Publish ==> (*final(packet_type) matches ControlPacketType::Publish(f)
                && f.spec_dup() == ((flag / 8) % 2 == 1) && f.spec_qos() == (flag / 2) % 4
                && f.spec_retain() == (flag % 2 == 1) && r == ((flag / 2) % 4 != 3)),
            !(*old(packet_type) is Publish) ==> *final(packet_type) == *old(packet_type),
    {
        proof {
            crate::packet::types::lemma_flag_bits(flag);
        }
        match packet_type {
            ControlPacketType::Publish(f) => {
                f.dup = (flag & 0x08) != 0;
                f.qos = (flag & 0x06) >> 1;
                f.retain = (flag & 0x01) != 0;
                if f.qos == 3 {
                    return false;
                }
                return true;
            },
            ControlPacketType::Pubrel | ControlPacketType::Subscribe | ControlPacketType::Unsubscribe => {
                if flag == 0x2 {
                    return true;
                }
            },
            _ => {
                if flag == 0x00 {
                    return true;
                }
            },
        }
        false
    }

    /// Decodes the remaining length field at the start of `bytes`.
    pub fn decoding_remainin_length(bytes: &[u8]) -> (r: Result<RemainingLength, &'static str>)
        ensures
            match remaining_length_of(bytes@) {
                Ok((v, k)) => r == Ok::<RemainingLength, &'static str>(
                    RemainingLength { l: v as usize, br: k as usize },
                ),
                Err(e) => r == Err::<RemainingLength, &'static str>(e),
            },
    {
        match parse_remaining_length(bytes) {
            Ok(rl) => Ok(RemainingLength { l: rl.l, br: rl.br }),
            Err(e) => Err(e),
        }
    }
}

} // verus!
