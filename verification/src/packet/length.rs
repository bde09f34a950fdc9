use vstd::prelude::*;

verus! {

/// 128 to the power `n`: the weight of the `n`-th byte of a remaining length field.
pub open spec fn pow128(n: nat) -> nat
    decreases n,
{
    if n == 0 {
        1
    } else {
        128 * pow128((n - 1) as nat)
    }
}

/// What a remaining length field that starts at `bytes[used]`, after `used` bytes of the
/// field were read, decodes to: the value and how many bytes it takes from `bytes[used]` on.
/// Each byte carries seven bits of the value, least significant group first; a byte with its
/// high bit set says that another byte follows. The field ends at its first byte below 128;
/// running out of bytes first is an incomplete field, and a field may not grow past 4 bytes.
pub open spec fn remaining_length_from(bytes: Seq<u8>, used: nat) -> Result<(nat, nat), &'static str>
    decreases 4 - used,
{
    if used >= bytes.len() {
        Err("Incomplete remaining length data")
    } else if used >= 4 {
        Err("Malformed remaining length: exceeds 4 bytes")
    } else if bytes[used as int] < 128 {
        Ok((bytes[used as int] as nat, 1nat))
    } else {
        match remaining_length_from(bytes, used + 1) {
            Ok((v, k)) => Ok((((bytes[used as int] - 128) + 128 * v) as nat, k + 1)),
            Err(e) => Err(e),
        }
    }
}

/// What the remaining length field at the start of `bytes` decodes to: its value and the
/// number of bytes it takes.
pub open spec fn remaining_length_of(bytes: Seq<u8>) -> Result<(nat, nat), &'static str> {
    remaining_length_from(bytes, 0)
}

/// The bytes that encode `n` as a remaining length field: seven bits per byte, least
/// significant group first, with the high bit set on every byte but the last.
pub open spec fn remaining_length_bytes(n: nat) -> Seq<u8>
    decreases n,
{
    if n < 128 {
        seq![n as u8]
    } else {
        seq![(n % 128 + 128) as u8] + remaining_length_bytes(n / 128)
    }
}

/// Folds the bytes read so far into the decoding of the rest of the field.
pub open spec fn shifted(
    rest: Result<(nat, nat), &'static str>,
    value: nat,
    multiplier: nat,
    used: nat,
) -> Result<(nat, nat), &'static str> {
    match rest {
        Ok((v, k)) => Ok((value + multiplier * v, used + k)),
        Err(e) => Err(e),
    }
}

/// One more continuation byte read: the state of the decoding loop advances by one byte.
pub proof fn lemma_decode_step(bytes: Seq<u8>, used: nat, value: nat, multiplier: nat)
    requires
        used < bytes.len(),
        used < 4,
        bytes[used as int] >= 128,
    ensures
        shifted(remaining_length_from(bytes, used), value, multiplier, used) == shifted(
            remaining_length_from(bytes, used + 1),
            value + multiplier * (bytes[used as int] - 128) as nat,
            multiplier * 128,
            used + 1,
        ),
{
    let d = (bytes[used as int] - 128) as nat;
    match remaining_length_from(bytes, used + 1) {
        Ok((v, k)) => {
            assert(value + multiplier * (d + 128 * v) == value + multiplier * d + (multiplier
                * 128) * v) by (nonlinear_arith);
        },
        Err(e) => {},
    }
}

/// A decoded remaining length takes 1 to 4 bytes, and its value is below 128 to the power
/// of that count.
pub proof fn lemma_decode_bounds(bytes: Seq<u8>, used: nat)
    requires
        used <= 4,
    ensures
        remaining_length_from(bytes, used) matches Ok((v, k)) ==> 1 <= k <= 4 - used && v
            < pow128(k),
    decreases 4 - used,
{
    lemma_pow128_small();
    if used < bytes.len() && used < 4 && bytes[used as int] >= 128 {
        lemma_decode_bounds(bytes, used + 1);
        if let Ok((v, k)) = remaining_length_from(bytes, used + 1) {
            let d = (bytes[used as int] - 128) as nat;
            assert(pow128(k + 1) == 128 * pow128(k));
            assert(d + 128 * v < 128 * pow128(k)) by (nonlinear_arith)
                requires
                    d < 128,
                    v < pow128(k),
            ;
        }
    }
}

/// The powers of 128 that a field of at most 4 bytes can reach.
pub proof fn lemma_pow128_small()
    ensures
        pow128(0) == 1,
        pow128(1) == 128,
        pow128(2) == 16384,
        pow128(3) == 2097152,
        pow128(4) == 268435456,
{
    reveal_with_fuel(pow128, 5);
}

/// The encoding of `n` takes at most `k` bytes when `n` is below 128 to the power `k`.
pub proof fn lemma_encode_len(n: nat, k: nat)
    requires
        k >= 1,
        n < pow128(k),
    ensures
        1 <= remaining_length_bytes(n).len() <= k,
    decreases n,
{
    if n >= 128 {
        let k1 = (k - 1) as nat;
        assert(pow128(k) == 128 * pow128(k1));
        if k1 == 0 {
            assert(pow128(0) == 1);
        } else {
            assert(n / 128 < pow128(k1)) by (nonlinear_arith)
                requires
                    n < 128 * pow128(k1),
            ;
            lemma_encode_len(n / 128, k1);
        }
    }
}

/// A decoded remaining length field depends on its own bytes only: any sequence that
/// agrees with `s` on them decodes the same.
pub proof fn lemma_decode_prefix(s: Seq<u8>, t: Seq<u8>, used: nat)
    requires
        used <= 4,
        remaining_length_from(s, used) is Ok,
        t.len() >= used + remaining_length_from(s, used)->Ok_0.1,
        forall|i: int| 0 <= i < used + remaining_length_from(s, used)->Ok_0.1 ==> t[i] == s[i],
    ensures
        remaining_length_from(t, used) == remaining_length_from(s, used),
    decreases 4 - used,
{
    assert(t[used as int] == s[used as int]);
    if s[used as int] >= 128 {
        lemma_decode_prefix(s, t, used + 1);
    }
}

/// A remaining length field cut before its last byte is incomplete.
pub proof fn lemma_decode_cut(s: Seq<u8>, j: nat, used: nat)
    requires
        used <= 4,
        remaining_length_from(s, used) is Ok,
        used <= j < used + remaining_length_from(s, used)->Ok_0.1,
        j <= s.len(),
    ensures
        remaining_length_from(s.take(j as int), used) == Err::<(nat, nat), &'static str>(
            "Incomplete remaining length data",
        ),
    decreases 4 - used,
{
    let t = s.take(j as int);
    if used < j {
        assert(t[used as int] == s[used as int]);
        lemma_decode_cut(s, j, used + 1);
    }
}

} // verus!
