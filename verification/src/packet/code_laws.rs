use vstd::prelude::*;
use crate::packet::types::{connect_flag_of, lemma_flag_bits, ConnackReturnCode, ConnectFlag, SubackReturnCode};

verus! {

/// The flags byte of a CONNECT header with the given flags: username in bit 7, password in
/// bit 6, will retain in bit 5, will QoS in bits 3-4, will flag in bit 2, clean session in
/// bit 1, bit 0 clear.
pub open spec fn connect_flags_byte(cf: ConnectFlag) -> u8 {
    ((if cf.username_flag { 128int } else { 0 }) + (if cf.password_flag { 64int } else { 0 }) + (if cf.will_retain { 32int } else { 0 })
        + cf.will_qos * 8 + (if cf.will_flag { 4int } else { 0 }) + (if cf.clean_session { 2int } else { 0 })) as u8
}

/// Each flag of a decoded CONNECT flags byte is its own bit: username is bit 7, password
/// bit 6, will retain bit 5, will QoS bits 3-4, will flag bit 2 and clean session bit 1.
pub proof fn law_connect_flag_bits(b: u8)
    ensures
        connect_flag_of(b) matches Ok(cf) ==> {
            &&& cf.username_flag == (b & 0x80 != 0)
            &&& cf.password_flag == (b & 0x40 != 0)
            &&& cf.will_retain == (b & 0x20 != 0)
            &&& cf.will_qos == (b & 0x18) >> 3
            &&& cf.will_flag == (b & 0x04 != 0)
            &&& cf.clean_session == (b & 0x02 != 0)
        },
        connect_flag_of(b) is Ok <==> (b & 0x01 == 0 && (b & 0x18) >> 3 <= 2 && (b & 0x04 == 0 ==> b & 0x38 == 0)),
{
    lemma_flag_bits(b);
    assert((b & 0x38 == 0) == ((b & 0x18) >> 3 == 0 && b & 0x20 == 0)) by (bit_vector);
}

/// The CONNECT flags round trip: every valid set of flags, written as its flags byte, is
/// decoded back as itself; so no two sets of flags decode from the same byte.
pub proof fn law_connect_flags_roundtrip(cf: ConnectFlag)
    requires
        cf.will_qos <= 2,
        !cf.will_flag ==> cf.will_qos == 0 && !cf.will_retain,
    ensures
        connect_flag_of(connect_flags_byte(cf)) == Ok::<ConnectFlag, &'static str>(cf),
{
}

/// SUBACK return codes on the wire: a success code is the granted QoS (0, 1 or 2), a
/// failure is 0x80, and no two codes share a byte.
pub proof fn law_suback_codes(c: SubackReturnCode, d: SubackReturnCode)
    ensures
        c == SubackReturnCode::SuccessQoS0 ==> c.spec_code() == 0,
        c == SubackReturnCode::SuccessQoS1 ==> c.spec_code() == 1,
        c == SubackReturnCode::SuccessQoS2 ==> c.spec_code() == 2,
        c == SubackReturnCode::Failure <==> c.spec_code() == 0x80,
        c != SubackReturnCode::Failure ==> c.spec_code() <= 2,
        c != d ==> c.spec_code() != d.spec_code(),
{
}

/// CONNACK return codes on the wire: Accepted is 0, then 1 to 5 in the order of the refusal
/// reasons, and no two codes share a byte.
pub proof fn law_connack_codes(c: ConnackReturnCode, d: ConnackReturnCode)
    ensures
        c == ConnackReturnCode::Accepted <==> c.spec_code() == 0,
        c == ConnackReturnCode::UnacceptedProtocolVersion ==> c.spec_code() == 1,
        c == ConnackReturnCode::IdentifierRejected ==> c.spec_code() == 2,
        c == ConnackReturnCode::ServerUnavailable ==> c.spec_code() == 3,
        c == ConnackReturnCode::BadUsernameOrPassword ==> c.spec_code() == 4,
        c == ConnackReturnCode::NotAuthorized ==> c.spec_code() == 5,
        c != d ==> c.spec_code() != d.spec_code(),
{
}

} // verus!
