use vstd::prelude::*;
use vstd::std_specs::convert::TryFromSpecImpl;

verus! {

/// A topic filter requested in a SUBSCRIBE payload, with its requested QoS.
#[derive(Debug, PartialEq)]
pub struct TopicFilter {
    pub filter: String,
    pub qos: u8,
}

/// The payload of a CONNECT packet.
#[derive(Debug, PartialEq)]
pub struct ConnectPayload {
    pub client_id: String,
    pub will_topic: Option<String>,
    pub will_message: Option<Vec<u8>>,
    pub username: Option<String>,
    pub password: Option<Vec<u8>>,
}

/// The payload of a decoded client packet.
#[derive(Debug, PartialEq)]
pub enum Payload {
    Connect(ConnectPayload),
    Publish(Vec<u8>),
    Subscribe(Vec<TopicFilter>),
    Suback(Vec<u8>),
    Unsubscribe(Vec<String>),
    Empty,
}

/// Control Packet Type representation: each type has a number from 1 to 14
/// (see `control_type_of`).
#[derive(Debug, PartialEq, Eq, Clone, Copy, Structural)]
pub enum ControlPacketType {
    Connect,
    Connack,
    Publish,
    Puback,
    Pubrec,
    Pubrel,
    Pubcomp,
    Subscribe,
    Suback,
    Unsubscribe,
    Unsuback,
    Pingreq,
    Pingresp,
    Disconnect,
}

/// The packet type that a type number (the high nibble of the first header byte) stands for.
pub open spec fn control_type_of(value: u8) -> Option<ControlPacketType> {
    match value {
        1 => Some(ControlPacketType::Connect),
        2 => Some(ControlPacketType::Connack),
        3 => Some(ControlPacketType::Publish),
        4 => Some(ControlPacketType::Puback),
        5 => Some(ControlPacketType::Pubrec),
        6 => Some(ControlPacketType::Pubrel),
        7 => Some(ControlPacketType::Pubcomp),
        8 => Some(ControlPacketType::Subscribe),
        9 => Some(ControlPacketType::Suback),
        10 => Some(ControlPacketType::Unsubscribe),
        11 => Some(ControlPacketType::Unsuback),
        12 => Some(ControlPacketType::Pingreq),
        13 => Some(ControlPacketType::Pingresp),
        14 => Some(ControlPacketType::Disconnect),
        _ => None,
    }
}


impl ControlPacketType {
    /// The type number of the packet type, from 1 (CONNECT) to 14 (DISCONNECT): the
    /// number that the high nibble of the first header byte holds.
    pub fn number(self) -> (r: u8)
        ensures
            1 <= r <= 14,
            control_type_of(r) == Some(self),
    {
        match self {
            ControlPacketType::Connect => 1,
            ControlPacketType::Connack => 2,
            ControlPacketType::Publish => 3,
            ControlPacketType::Puback => 4,
            ControlPacketType::Pubrec => 5,
            ControlPacketType::Pubrel => 6,
            ControlPacketType::Pubcomp => 7,
            ControlPacketType::Subscribe => 8,
            ControlPacketType::Suback => 9,
            ControlPacketType::Unsubscribe => 10,
            ControlPacketType::Unsuback => 11,
            ControlPacketType::Pingreq => 12,
            ControlPacketType::Pingresp => 13,
            ControlPacketType::Disconnect => 14,
        }
    }
}

impl TryFrom<u8> for ControlPacketType {
    type Error = &'static str;

    fn try_from(value: u8) -> (r: Result<Self, Self::Error>) {
        match value {
            1 => Ok(Self::Connect),
            2 => Ok(Self::Connack),
            3 => Ok(Self::Publish),
            4 => Ok(Self::Puback),
            5 => Ok(Self::Pubrec),
            6 => Ok(Self::Pubrel),
            7 => Ok(Self::Pubcomp),
            8 => Ok(Self::Subscribe),
            9 => Ok(Self::Suback),
            10 => Ok(Self::Unsubscribe),
            11 => Ok(Self::Unsuback),
            12 => Ok(Self::Pingreq),
            13 => Ok(Self::Pingresp),
            14 => Ok(Self::Disconnect),
            _ => Err("Control packet type representation must be between 1 and 14"),
        }
    }
}

impl TryFromSpecImpl<u8> for ControlPacketType {
    open spec fn obeys_try_from_spec() -> bool {
        true
    }

    open spec fn try_from_spec(value: u8) -> Result<Self, Self::Error> {
        match control_type_of(value) {
            Some(t) => Ok(t),
            None => Err("Control packet type representation must be between 1 and 14"),
        }
    }
}

/// Flag for Publish control packet
/// see: https://docs.oasis-open.org/mqtt/mqtt/v3.1.1/os/mqtt-v3.1.1-os.html#_Table_3.1_-
#[derive(Debug, PartialEq, Eq, Clone, Copy, Structural)]
pub struct PublishFlag {
    pub dup: bool,
    pub qos: u8,
    pub retain: bool,
}

impl Default for PublishFlag {
    fn default() -> (r: Self)
        ensures
            r == (PublishFlag { dup: false, qos: 0, retain: false }),
    {
        PublishFlag { dup: false, qos: 0, retain: false }
    }
}

/// The fixed header of a control packet.
#[derive(Debug, PartialEq, Eq, Clone, Copy, Structural)]
pub struct FixedHeader {
    pub packet_type: ControlPacketType,
    pub remaining_length: RemainingLength,
    pub flags: u8,
}

/// A decoded "remaining length" field.
#[derive(Debug, PartialEq, Eq, Clone, Copy, Structural)]
pub struct RemainingLength {
    /// Length found in header.
    pub l: usize,
    /// The Bytes on which the length was encoded.
    pub br: usize,
}

/// The variable header of a decoded client packet.
#[derive(Debug)]
pub enum VariableHeader {
    Connect { protocol_name: String, protocol_level: u8, connect_flag: ConnectFlag, keep_alive: u16 },
    Publish { topic_name: String, packet_id: Option<u16> },
    PacketId(u16),
    Empty,
}

/// The flags byte of a CONNECT variable header.
#[derive(Debug, PartialEq, Eq, Clone, Copy, Structural)]
pub struct ConnectFlag {
    pub username_flag: bool,
    pub password_flag: bool,
    pub will_retain: bool,
    pub will_qos: u8,
    pub will_flag: bool,
    pub clean_session: bool,
}


/// What a CONNECT flags byte stands for: bit 0 is reserved and must be clear, bits 3-4 hold
/// the will QoS (at most 2), and the will QoS and will retain bit (bit 5) must be zero when
/// the will flag (bit 2) is clear. Bit 7 is the username flag, bit 6 the password flag and
/// bit 1 the clean session flag.
pub open spec fn connect_flag_of(byte: u8) -> Result<ConnectFlag, &'static str> {
    let will_qos = (byte / 8) % 4;
    let will_flag = (byte / 4) % 2 == 1;
    let will_retain = (byte / 32) % 2 == 1;
    if byte % 2 == 1 {
        Err("Bit 0 of Connect flag must be 0")
    } else if will_qos > 2 {
        Err("Invalid Will QoS level (must be 0, 1 or 2)")
    } else if !will_flag && (will_qos != 0 || will_retain) {
        Err("Will QoS and Will Retain must be 0 if Will Flag is 0")
    } else {
        Ok(
            ConnectFlag {
                username_flag: byte >= 128,
                password_flag: (byte / 64) % 2 == 1,
                will_retain,
                will_qos: will_qos as u8,
                will_flag,
                clean_session: (byte / 2) % 2 == 1,
            },
        )
    }
}

impl ConnectFlag {
    /// Decodes a CONNECT flags byte (what `try_from` does, under a name that
    /// verified callers can use).
    pub fn from_byte(byte: u8) -> (r: Result<ConnectFlag, &'static str>)
        ensures
            r == connect_flag_of(byte),
    {
        proof {
            lemma_flag_bits(byte);
        }
        if (byte & 0x01) != 0 {
            return Err("Bit 0 of Connect flag must be 0");
        }
        let will_qos = (byte & 0x18) >> 3;
        if will_qos > 2 {
            return Err("Invalid Will QoS level (must be 0, 1 or 2)");
        }
        let will_flag = (byte & 0x04) != 0;
        if (!will_flag && will_qos != 0) || (!will_flag && (byte & 0x20) != 0) {
            return Err("Will QoS and Will Retain must be 0 if Will Flag is 0");
        }
        Ok(
            ConnectFlag {
                username_flag: (byte & 0x80) != 0,
                password_flag: (byte & 0x40) != 0,
                will_retain: (byte & 0x20) != 0,
                will_qos,
                will_flag,
                clean_session: (byte & 0x02) != 0,
            },
        )
    }
}

/// The bit masks of a flags byte, stated as arithmetic.
pub proof fn lemma_flag_bits(byte: u8)
    ensures
        ((byte & 0x01) != 0) == (byte % 2 == 1),
        ((byte & 0x02) != 0) == ((byte / 2) % 2 == 1),
        ((byte & 0x04) != 0) == ((byte / 4) % 2 == 1),
        ((byte & 0x08) != 0) == ((byte / 8) % 2 == 1),
        ((byte & 0x20) != 0) == ((byte / 32) % 2 == 1),
        ((byte & 0x40) != 0) == ((byte / 64) % 2 == 1),
        ((byte & 0x80) != 0) == (byte >= 128),
        (byte & 0x18) >> 3 == (byte / 8) % 4,
        (byte & 0x06) >> 1 == (byte / 2) % 4,
        byte >> 4 == byte / 16,
        byte & 0x0F == byte % 16,
{
    assert(((byte & 0x01) != 0) == (byte % 2 == 1)) by (bit_vector);
    assert(((byte & 0x02) != 0) == ((byte / 2) % 2 == 1)) by (bit_vector);
    assert(((byte & 0x04) != 0) == ((byte / 4) % 2 == 1)) by (bit_vector);
    assert(((byte & 0x08) != 0) == ((byte / 8) % 2 == 1)) by (bit_vector);
    assert(((byte & 0x20) != 0) == ((byte / 32) % 2 == 1)) by (bit_vector);
    assert(((byte & 0x40) != 0) == ((byte / 64) % 2 == 1)) by (bit_vector);
    assert(((byte & 0x80) != 0) == (byte >= 128)) by (bit_vector);
    assert((byte & 0x18) >> 3 == (byte / 8) % 4) by (bit_vector);
    assert((byte & 0x06) >> 1 == (byte / 2) % 4) by (bit_vector);
    assert(byte >> 4 == byte / 16) by (bit_vector);
    assert(byte & 0x0F == byte % 16) by (bit_vector);
}

impl TryFrom<u8> for ConnectFlag {
    type Error = &'static str;

    fn try_from(byte: u8) -> (r: Result<Self, Self::Error>) {
        ConnectFlag::from_byte(byte)
    }
}

impl TryFromSpecImpl<u8> for ConnectFlag {
    open spec fn obeys_try_from_spec() -> bool {
        true
    }

    open spec fn try_from_spec(byte: u8) -> Result<Self, Self::Error> {
        connect_flag_of(byte)
    }
}

/// Return code of a CONNACK packet.
#[derive(Debug, Clone, Copy, PartialEq, Eq, Structural)]
pub enum ConnackReturnCode {
    Accepted,
    UnacceptedProtocolVersion,
    IdentifierRejected,
    ServerUnavailable,
    BadUsernameOrPassword,
    NotAuthorized,
}

impl ConnackReturnCode {
    /// The byte that stands for this code on the wire.
    pub open spec fn spec_code(self) -> u8 {
        match self {
            ConnackReturnCode::Accepted => 0x00,
            ConnackReturnCode::UnacceptedProtocolVersion => 0x01,
            ConnackReturnCode::IdentifierRejected => 0x02,
            ConnackReturnCode::ServerUnavailable => 0x03,
            ConnackReturnCode::BadUsernameOrPassword => 0x04,
            ConnackReturnCode::NotAuthorized => 0x05,
        }
    }

    /// The byte that stands for this code on the wire.
    pub fn code(self) -> (r: u8)
        ensures
            r == self.spec_code(),
    {
        match self {
            ConnackReturnCode::Accepted => 0x00,
            ConnackReturnCode::UnacceptedProtocolVersion => 0x01,
            ConnackReturnCode::IdentifierRejected => 0x02,
            ConnackReturnCode::ServerUnavailable => 0x03,
            ConnackReturnCode::BadUsernameOrPassword => 0x04,
            ConnackReturnCode::NotAuthorized => 0x05,
        }
    }
}

/// Return code of a SUBACK packet, one per requested filter.
#[derive(Debug, Clone, Copy, PartialEq, Eq, Structural)]
pub enum SubackReturnCode {
    SuccessQoS0,
    SuccessQoS1,
    SuccessQoS2,
    Failure,
}

impl SubackReturnCode {
    /// The byte that stands for this code on the wire.
    pub open spec fn spec_code(self) -> u8 {
        match self {
            SubackReturnCode::SuccessQoS0 => 0x00,
            SubackReturnCode::SuccessQoS1 => 0x01,
            SubackReturnCode::SuccessQoS2 => 0x02,
            SubackReturnCode::Failure => 0x80,
        }
    }

    /// The byte that stands for this code on the wire.
    pub fn code(self) -> (r: u8)
        ensures
            r == self.spec_code(),
    {
        match self {
            SubackReturnCode::SuccessQoS0 => 0x00,
            SubackReturnCode::SuccessQoS1 => 0x01,
            SubackReturnCode::SuccessQoS2 => 0x02,
            SubackReturnCode::Failure => 0x80,
        }
    }
}

} // verus!

verus! {

/// What a CONNECT payload holds, as text and bytes.
pub struct ConnectPayloadModel {
    pub client_id: Seq<char>,
    pub will_topic: Option<Seq<char>>,
    pub will_message: Option<Seq<u8>>,
    pub username: Option<Seq<char>>,
    pub password: Option<Seq<u8>>,
}

/// What a decoded payload holds, as text and bytes.
pub enum PayloadModel {
    Connect(ConnectPayloadModel),
    Publish(Seq<u8>),
    Subscribe(Seq<(Seq<char>, u8)>),
    Suback(Seq<u8>),
    Unsubscribe(Seq<Seq<char>>),
    Empty,
}

/// What a decoded variable header holds, as text and numbers.
pub enum VariableHeaderModel {
    Connect { protocol_name: Seq<char>, protocol_level: u8, connect_flag: ConnectFlag, keep_alive: u16 },
    Publish { topic_name: Seq<char>, packet_id: Option<u16> },
    PacketId(u16),
    Empty,
}

/// The text of an optional string.
pub open spec fn opt_text(o: Option<String>) -> Option<Seq<char>> {
    match o {
        Some(s) => Some(s@),
        None => None,
    }
}

/// The bytes of an optional byte vector.
pub open spec fn opt_bytes(o: Option<Vec<u8>>) -> Option<Seq<u8>> {
    match o {
        Some(v) => Some(v@),
        None => None,
    }
}

impl View for TopicFilter {
    type V = (Seq<char>, u8);

    open spec fn view(&self) -> (Seq<char>, u8) {
        (self.filter@, self.qos)
    }
}

impl View for ConnectPayload {
    type V = ConnectPayloadModel;

    open spec fn view(&self) -> ConnectPayloadModel {
        ConnectPayloadModel {
            client_id: self.client_id@,
            will_topic: opt_text(self.will_topic),
            will_message: opt_bytes(self.will_message),
            username: opt_text(self.username),
            password: opt_bytes(self.password),
        }
    }
}

impl View for Payload {
    type V = PayloadModel;

    open spec fn view(&self) -> PayloadModel {
        match self {
            Payload::Connect(c) => PayloadModel::Connect(c@),
            Payload::Publish(v) => PayloadModel::Publish(v@),
            Payload::Subscribe(v) => PayloadModel::Subscribe(v@.map_values(|f: TopicFilter| f@)),
            Payload::Suback(v) => PayloadModel::Suback(v@),
            Payload::Unsubscribe(v) => PayloadModel::Unsubscribe(v@.map_values(|s: String| s@)),
            Payload::Empty => PayloadModel::Empty,
        }
    }
}

impl View for VariableHeader {
    type V = VariableHeaderModel;

    open spec fn view(&self) -> VariableHeaderModel {
        match self {
            VariableHeader::Connect { protocol_name, protocol_level, connect_flag, keep_alive } =>
                VariableHeaderModel::Connect {
                protocol_name: protocol_name@,
                protocol_level: *protocol_level,
                connect_flag: *connect_flag,
                keep_alive: *keep_alive,
            },
            VariableHeader::Publish { topic_name, packet_id } => VariableHeaderModel::Publish {
                topic_name: topic_name@,
                packet_id: *packet_id,
            },
            VariableHeader::PacketId(id) => VariableHeaderModel::PacketId(*id),
            VariableHeader::Empty => VariableHeaderModel::Empty,
        }
    }
}

} // verus!
