use vstd::prelude::*;

verus! {

/// Milliseconds from the Unix epoch to 2026-01-01T00:00:00Z, where ids start counting.
pub const CUSTOM_EPOCH: u64 = 1_767_225_600_000;

/// A generator of 64-bit ids: 42 bits of milliseconds since `CUSTOM_EPOCH`, 10 bits of
/// node id and 12 bits of sequence number within the millisecond.
pub struct SnowFlake {
    node_id: u64,
    state: SnowFlakeState,
}

struct SnowFlakeState {
    last_timestamp: u64,
    sequence: u64,
    /// The sequence ran out within `last_timestamp`: the next id waits for a later
    /// millisecond.
    waiting: bool,
}

/// The id made of timestamp `now`, node id `node_id` and sequence number `sequence`.
pub open spec fn id_of(now: u64, node_id: u64, sequence: u64) -> u64 {
    ((now.wrapping_sub(CUSTOM_EPOCH) << 22u64) | (node_id << 12u64)) | sequence
}

/// The state of a generator: last timestamp used, sequence number, and whether the
/// sequence ran out and the next id waits for a later millisecond.
pub type GeneratorState = (u64, u64, bool);

/// One attempt to make an id at time `now` from state `s`: the next state and the id, if
/// one can be made at `now`.
/// - Waiting: an id is made once `now` is past the last timestamp, with the sequence
///   number left at 0; before that, none.
/// - In the same millisecond as the last id: the sequence number goes up by one (modulo
///   4096); when it wraps to 0, no id is made and the generator waits.
/// - In any other millisecond: the sequence number restarts at 0.
pub open spec fn step(node_id: u64, s: GeneratorState, now: u64) -> (GeneratorState, Option<u64>) {
    let (last, sequence, waiting) = s;
    if waiting {
        if now > last {
            ((now, sequence, false), Some(id_of(now, node_id, sequence)))
        } else {
            (s, None)
        }
    } else if now == last {
        let next = (sequence + 1) % 4096;
        if next == 0 {
            ((last, 0, true), None)
        } else {
            ((now, next as u64, false), Some(id_of(now, node_id, next as u64)))
        }
    } else {
        ((now, 0, false), Some(id_of(now, node_id, 0)))
    }
}

/// The id that a generator in state `s` made last: in millisecond `s.0` with the sequence
/// number of `s`, or with the last number, 4095, when the sequence ran out.
pub open spec fn last_id(node_id: u64, s: GeneratorState) -> u64 {
    if s.2 {
        id_of(s.0, node_id, 4095)
    } else {
        id_of(s.0, node_id, s.1)
    }
}

/// An id is its milliseconds since `CUSTOM_EPOCH`, node id and sequence number side by
/// side, as long as each fits its bits.
proof fn lemma_id_value(now: u64, node_id: u64, sequence: u64)
    requires
        CUSTOM_EPOCH <= now,
        now - CUSTOM_EPOCH < 0x400_0000_0000,
        node_id < 1024,
        sequence < 4096,
    ensures
        id_of(now, node_id, sequence) == (now - CUSTOM_EPOCH) * 0x40_0000 + node_id * 0x1000 + sequence,
{
    let a: u64 = (now - CUSTOM_EPOCH) as u64;
    assert(now.wrapping_sub(CUSTOM_EPOCH) == a);
    assert(((a << 22u64) | (node_id << 12u64)) | sequence == a * 0x40_0000 + node_id * 0x1000 + sequence)
        by (bit_vector)
        requires
            a < 0x400_0000_0000,
            node_id < 1024,
            sequence < 4096,
    ;
}

/// Ids increase: while the clock does not go back and stays within the 42 bits of
/// milliseconds after `CUSTOM_EPOCH`, each id that a generator makes is larger than the
/// last one it made, and becomes the last one; an attempt that makes none leaves the last
/// id as it was. So no id comes twice.
pub proof fn law_ids_increase(node_id: u64, s: GeneratorState, now: u64)
    requires
        node_id < 1024,
        s.1 < 4096,
        CUSTOM_EPOCH <= s.0 <= now,
        now - CUSTOM_EPOCH < 0x400_0000_0000,
    ensures
        step(node_id, s, now).1 matches Some(id) ==> id > last_id(node_id, s) && last_id(
            node_id,
            step(node_id, s, now).0,
        ) == id,
        step(node_id, s, now).1 is None ==> last_id(node_id, step(node_id, s, now).0) == last_id(
            node_id,
            s,
        ),
{
    lemma_id_value(s.0, node_id, s.1);
    lemma_id_value(s.0, node_id, 4095);
    lemma_id_value(now, node_id, s.1);
    lemma_id_value(now, node_id, 0);
    lemma_id_value(now, node_id, ((s.1 + 1) % 4096) as u64);
}

/// The state and the outcomes of attempts at the clock readings `readings`, in order,
/// starting from state `s`.
pub open spec fn run(node_id: u64, s: GeneratorState, readings: Seq<u64>) -> (GeneratorState, Seq<Option<u64>>)
    decreases readings.len(),
{
    if readings.len() == 0 {
        (s, Seq::empty())
    } else {
        let (s1, outs) = run(node_id, s, readings.drop_last());
        let (s2, o) = step(node_id, s1, readings.last());
        (s2, outs.push(o))
    }
}

/// What a run keeps: the sequence number fits, the last timestamp stays between the start
/// and the last reading, the last id only grows, and every id made so far is at most the
/// last one.
proof fn lemma_run(node_id: u64, s: GeneratorState, readings: Seq<u64>)
    requires
        node_id < 1024,
        s.1 < 4096,
        CUSTOM_EPOCH <= s.0,
        forall|i: int| 0 <= i < readings.len() ==> s.0 <= #[trigger] readings[i] && readings[i] - CUSTOM_EPOCH < 0x400_0000_0000,
        forall|i: int, j: int| 0 <= i <= j < readings.len() ==> readings[i] <= readings[j],
    ensures
        run(node_id, s, readings).1.len() == readings.len(),
        run(node_id, s, readings).0.1 < 4096,
        s.0 <= run(node_id, s, readings).0.0,
        readings.len() > 0 ==> run(node_id, s, readings).0.0 <= readings.last(),
        last_id(node_id, s) <= last_id(node_id, run(node_id, s, readings).0),
        forall|i: int| 0 <= i < readings.len() && #[trigger] run(node_id, s, readings).1[i] is Some ==> last_id(node_id, s) < run(node_id, s, readings).1[i]->0
            && run(node_id, s, readings).1[i]->0 <= last_id(node_id, run(node_id, s, readings).0),
    decreases readings.len(),
{
    if readings.len() > 0 {
        let prev = readings.drop_last();
        lemma_run(node_id, s, prev);
        let (s1, outs) = run(node_id, s, prev);
        let now = readings.last();
        if prev.len() > 0 {
            assert(prev.last() == readings[readings.len() - 2]);
        }
        assert(s1.0 <= now);
        law_ids_increase(node_id, s1, now);
        assert(step(node_id, s1, now).0.1 < 4096);
        let outs2 = run(node_id, s, readings).1;
        assert forall|i: int| 0 <= i < readings.len() && #[trigger] outs2[i] is Some implies last_id(node_id, s) < outs2[i]->0
            && outs2[i]->0 <= last_id(node_id, run(node_id, s, readings).0) by {
            if i < prev.len() {
                assert(outs2[i] == outs[i]);
            }
        }
    }
}

/// Ids increase over any run of attempts: while the clock readings never go back, start no
/// earlier than the last timestamp of the generator and stay within the 42 bits of
/// milliseconds after `CUSTOM_EPOCH`, every id made is larger than the generator's last
/// one and than every id made before it in the run, also across runs of 4096 ids within
/// one millisecond. So no id comes twice.
pub proof fn law_ids_increase_over_run(node_id: u64, s: GeneratorState, readings: Seq<u64>)
    requires
        node_id < 1024,
        s.1 < 4096,
        CUSTOM_EPOCH <= s.0,
        forall|i: int| 0 <= i < readings.len() ==> s.0 <= #[trigger] readings[i] && readings[i] - CUSTOM_EPOCH < 0x400_0000_0000,
        forall|i: int, j: int| 0 <= i <= j < readings.len() ==> readings[i] <= readings[j],
    ensures
        forall|i: int| 0 <= i < readings.len() && #[trigger] run(node_id, s, readings).1[i] is Some ==> last_id(node_id, s) < run(node_id, s, readings).1[i]->0,
        forall|i: int, j: int|
            0 <= i < j < readings.len() && #[trigger] run(node_id, s, readings).1[i] is Some
                && #[trigger] run(node_id, s, readings).1[j] is Some ==> run(node_id, s, readings).1[i]->0
                < run(node_id, s, readings).1[j]->0,
    decreases readings.len(),
{
    lemma_run(node_id, s, readings);
    if readings.len() > 0 {
        let prev = readings.drop_last();
        law_ids_increase_over_run(node_id, s, prev);
        lemma_run(node_id, s, prev);
        let (s1, outs) = run(node_id, s, prev);
        let outs2 = run(node_id, s, readings).1;
        let now = readings.last();
        if prev.len() > 0 {
            assert(prev.last() == readings[readings.len() - 2]);
        }
        law_ids_increase(node_id, s1, now);
        assert forall|i: int, j: int|
            0 <= i < j < readings.len() && #[trigger] outs2[i] is Some && #[trigger] outs2[j] is Some implies outs2[i]->0 < outs2[j]->0 by {
            assert(outs2[i] == outs[i]);
            if j < prev.len() {
                assert(outs2[j] == outs[j]);
            } else {
                assert(outs[i] is Some);
                assert(outs[i]->0 <= last_id(node_id, s1));
            }
        }
    }
}

/// Every id that a generator makes carries its node id in bits 12 to 21.
pub proof fn law_ids_carry_node_id(node_id: u64, s: GeneratorState, now: u64)
    requires
        node_id < 1024,
        s.1 < 4096,
    ensures
        step(node_id, s, now).1 matches Some(id) ==> (id >> 12u64) & 0x3FF == node_id,
{
    let a = now.wrapping_sub(CUSTOM_EPOCH);
    let q = step(node_id, s, now).0.1;
    assert(q < 4096);
    assert((((a << 22u64) | (node_id << 12u64)) | q) >> 12u64 & 0x3FF == node_id) by (bit_vector)
        requires
            node_id < 1024,
            q < 4096,
    ;
}

/// The decimal digits of `n`.
pub open spec fn decimal(n: nat) -> Seq<char>
    decreases n,
{
    if n < 10 {
        seq![(48 + n) as char]
    } else {
        decimal(n / 10).push((48 + n % 10) as char)
    }
}

/// A point in time of the system clock, carried through unread.
#[verifier::external_type_specification]
#[verifier::external_body]
pub struct ExSystemTime(std::time::SystemTime);

/// The error of a clock set before the point it is measured from.
#[verifier::external_type_specification]
#[verifier::external_body]
pub struct ExSystemTimeError(std::time::SystemTimeError);

/// The current time of the system clock (`SystemTime::now`). Nothing is stated of it: it
/// depends on the clock.
#[verifier::external_body]
fn system_now() -> std::time::SystemTime {
    std::time::SystemTime::now()
}

/// The time elapsed from the Unix epoch to `t` (`SystemTime::duration_since` with
/// `UNIX_EPOCH`), or an error when `t` is earlier. Nothing is stated of it: it depends on
/// the clock.
#[verifier::external_body]
fn since_unix_epoch(t: &std::time::SystemTime) -> Result<std::time::Duration, std::time::SystemTimeError> {
    t.duration_since(std::time::UNIX_EPOCH)
}

/// The whole milliseconds of `d` (`Duration::as_millis`). Nothing is stated of the value:
/// the duration is opaque here.
#[verifier::external_body]
fn duration_millis(d: &std::time::Duration) -> u128 {
    d.as_millis()
}

/// The current time in milliseconds since the Unix epoch, kept to its low 64 bits; 0 for a
/// clock set before 1970.
fn current_time_ms() -> u64 {
    match since_unix_epoch(&system_now()) {
        Ok(d) => {
            let ms = duration_millis(&d);
            #[verifier::truncate]
            (ms as u64)
        },
        Err(_) => 0,
    }
}

/// The number that a text of decimal digits reads as, most significant digit first.
pub open spec fn digits_value(s: Seq<char>) -> nat
    decreases s.len(),
{
    if s.len() == 0 {
        0
    } else {
        digits_value(s.drop_last()) * 10 + (s.last() as nat - 48) as nat
    }
}

/// The decimal text of a number reads back as that number: it is made of the digits '0' to
/// '9' only, has no leading zero, and its value is the number. So two numbers never share
/// a text.
pub proof fn law_decimal_reads_back(n: nat)
    ensures
        decimal(n).len() >= 1,
        forall|i: int| 0 <= i < decimal(n).len() ==> '0' <= #[trigger] decimal(n)[i] <= '9',
        decimal(n)[0] == '0' ==> n == 0,
        digits_value(decimal(n)) == n,
    decreases n,
{
    if n >= 10 {
        law_decimal_reads_back(n / 10);
        let d = decimal(n / 10);
        assert(decimal(n) == d.push((48 + n % 10) as char));
        assert(decimal(n).drop_last() =~= d);
        assert forall|i: int| 0 <= i < decimal(n).len() implies '0' <= #[trigger] decimal(n)[i] <= '9' by {
            if i < d.len() {
                assert(decimal(n)[i] == d[i]);
            }
        }
        assert(decimal(n)[0] == d[0]);
        let c = (48 + n % 10) as char;
        assert(c as nat == 48 + n % 10);
        assert(decimal(n).last() == c);
        assert(digits_value(decimal(n)) == digits_value(d) * 10 + n % 10);
        assert((n / 10) * 10 + n % 10 == n);
    } else {
        assert(decimal(n).drop_last() =~= Seq::<char>::empty());
        let c = (48 + n) as char;
        assert(c as nat == 48 + n);
        assert(decimal(n).last() == c);
        assert(digits_value(Seq::<char>::empty()) == 0);
        assert(digits_value(decimal(n)) == digits_value(decimal(n).drop_last()) * 10 + (c as nat - 48) as nat);
    }
}

/// Distinct numbers have distinct decimal texts, so distinct ids give distinct `auto-`
/// client ids.
pub proof fn law_client_ids_distinct(a: u64, b: u64)
    requires
        a != b,
    ensures
        decimal(a as nat) != decimal(b as nat),
        seq!['a', 'u', 't', 'o', '-'] + decimal(a as nat) != seq!['a', 'u', 't', 'o', '-'] + decimal(b as nat),
{
    law_decimal_reads_back(a as nat);
    law_decimal_reads_back(b as nat);
    let p = seq!['a', 'u', 't', 'o', '-'];
    if p + decimal(a as nat) == p + decimal(b as nat) {
        assert(decimal(a as nat) =~= (p + decimal(a as nat)).skip(5));
        assert(decimal(b as nat) =~= (p + decimal(b as nat)).skip(5));
    }
}

/// The text of the decimal digit `d`.
fn digit_text(d: u64) -> (r: &'static str)
    requires
        d < 10,
    ensures
        r@ == seq![(48 + d) as char],
{
    proof {
        reveal_strlit("0");
        reveal_strlit("1");
        reveal_strlit("2");
        reveal_strlit("3");
        reveal_strlit("4");
        reveal_strlit("5");
        reveal_strlit("6");
        reveal_strlit("7");
        reveal_strlit("8");
        reveal_strlit("9");
    }
    match d {
        0 => "0",
        1 => "1",
        2 => "2",
        3 => "3",
        4 => "4",
        5 => "5",
        6 => "6",
        7 => "7",
        8 => "8",
        _ => "9",
    }
}

/// The decimal digits of `n`, without sign or leading zeros.
fn decimal_text(n: u64) -> (r: String)
    ensures
        r@ == decimal(n as nat),
    decreases n,
{
    if n < 10 {
        String::from_str(digit_text(n))
    } else {
        let mut s = decimal_text(n / 10);
        s.append(digit_text(n % 10));
        assert(s@ =~= decimal(n as nat));
        s
    }
}

impl SnowFlake {
    #[verifier::type_invariant]
    spec fn inv(self) -> bool {
        &&& self.node_id < 1024
        &&& self.state.sequence < 4096
    }

    /// The node id.
    pub closed spec fn spec_node_id(&self) -> u64 {
        self.node_id
    }

    /// The state of the generator.
    pub closed spec fn spec_state(&self) -> GeneratorState {
        (self.state.last_timestamp, self.state.sequence, self.state.waiting)
    }

    /// A generator for node `node_id`, of which only the low 10 bits are kept.
    pub fn new(node_id: u64) -> (r: Self)
        ensures
            r.spec_node_id() == node_id & 0x3FF,
            r.spec_node_id() < 1024,
            r.spec_state() == (0u64, 0u64, false),
    {
        assert(node_id & 0x3FF < 1024) by (bit_vector);
        Self {
            node_id: node_id & 0x3FF,  // keep only 10 bits
            state: SnowFlakeState { last_timestamp: 0, sequence: 0, waiting: false },
        }
    }

    /// One attempt to make an id at time `now`; `None` when the sequence of the last
    /// millisecond ran out and `now` is not past it: the caller tries again later.
    pub fn generate_id_at(&mut self, now: u64) -> (r: Option<u64>)
        ensures
            final(self).spec_node_id() == old(self).spec_node_id(),
            old(self).spec_node_id() < 1024,
            old(self).spec_state().1 < 4096,
            final(self).spec_state().1 < 4096,
            (final(self).spec_state(), r) == step(old(self).spec_node_id(), old(self).spec_state(), now),
    {
        proof {
            use_type_invariant(&*self);
        }
        if self.state.waiting {
            if now > self.state.last_timestamp {
                self.state.waiting = false;
                self.state.last_timestamp = now;
            } else {
                return None;
            }
        } else if now == self.state.last_timestamp {
            let next = self.state.sequence + 1;
            assert(next & 0xFFF == next % 4096) by (bit_vector);
            self.state.sequence = next & 0xFFF;
            if self.state.sequence == 0 {
                self.state.waiting = true;
                return None;
            }
            self.state.last_timestamp = now;
        } else {
            self.state.sequence = 0;
            self.state.last_timestamp = now;
        }
        Some(((now.wrapping_sub(CUSTOM_EPOCH) << 22) | (self.node_id << 12)) | self.state.sequence)
    }

    /// One attempt to make an id at the current time of the system clock.
    pub fn generate_id(&mut self) -> (r: Option<u64>)
        ensures
            final(self).spec_node_id() == old(self).spec_node_id(),
            old(self).spec_node_id() < 1024,
            old(self).spec_state().1 < 4096,
            final(self).spec_state().1 < 4096,
            exists|now: u64| (final(self).spec_state(), r) == #[trigger] step(old(self).spec_node_id(), old(self).spec_state(), now),
    {
        let now = current_time_ms();
        let r = self.generate_id_at(now);
        assert((self.spec_state(), r) == step(old(self).spec_node_id(), old(self).spec_state(), now));
        r
    }

    /// One attempt to make a client id `auto-<id>` at the current time of the system clock.
    pub fn generate_client_id(&mut self) -> (r: Option<String>)
        ensures
            final(self).spec_node_id() == old(self).spec_node_id(),
            old(self).spec_node_id() < 1024,
            old(self).spec_state().1 < 4096,
            final(self).spec_state().1 < 4096,
            exists|now: u64| {
                let (s, id) = #[trigger] step(old(self).spec_node_id(), old(self).spec_state(), now);
                &&& final(self).spec_state() == s
                &&& id is Some <==> r is Some
                &&& r matches Some(text) ==> text@ == seq!['a', 'u', 't', 'o', '-'] + decimal(id->0 as nat)
            },
    {
        let id = self.generate_id();
        match id {
            Some(id) => {
                let mut text = String::from_str("auto-");
                text.append(decimal_text(id).as_str());
                proof {
                    reveal_strlit("auto-");
                }
                Some(text)
            },
            None => None,
        }
    }
}

} // verus!
