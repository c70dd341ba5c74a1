//! Time stamps (milliseconds since the Unix epoch, as decimal text) and the
//! ids that records are created with.
use vstd::prelude::*;
use std::time::{Duration, SystemTime, SystemTimeError};
use crate::text::{nat_dec, int_dec, is_digit, all_digits, digits_value, digit_char, digit_value,
    push_nat_dec, parse_i64, parse_i64_str, i64_to_string, concat};

verus! {

#[verifier::external_type_specification]
#[verifier::external_body]
pub struct ExSystemTime(SystemTime);

#[verifier::external_type_specification]
#[verifier::external_body]
pub struct ExSystemTimeError(SystemTimeError);

/// Calls `SystemTime::now`; the clock's reading is not stated.
#[verifier::external_body]
fn system_now() -> SystemTime {
    SystemTime::now()
}

/// Calls `SystemTime::duration_since` with the Unix epoch; whether the clock
/// stands after the epoch, and by how much, is not stated.
#[verifier::external_body]
fn since_epoch(t: &SystemTime) -> Result<Duration, SystemTimeError> {
    t.duration_since(std::time::UNIX_EPOCH)
}

/// Calls `Duration::as_millis`; the value read from the clock is not stated.
#[verifier::external_body]
fn duration_millis(d: &Duration) -> u128 {
    d.as_millis()
}

/// The current time as decimal milliseconds since the Unix epoch (zero for a
/// clock set before the epoch).
pub fn now() -> (r: String)
    ensures
        exists|ms: nat| r@ == nat_dec(ms),
{
    let t = system_now();
    let ms: u128 = match since_epoch(&t) {
        Ok(d) => duration_millis(&d),
        Err(_) => 0,
    };
    let mut s = String::new();
    push_nat_dec(&mut s, ms);
    assert(s@ =~= nat_dec(ms as nat));
    s
}

/// The counter that keeps ids made in the same millisecond apart.
pub struct IdSequence {
    pub next: u64,
}

impl IdSequence {
    pub fn new() -> (s: Self)
        ensures
            s.next == 0,
    {
        IdSequence { next: 0 }
    }
}

/// `entity-<milliseconds>-<counter>`.
pub open spec fn id_text(entity: Seq<char>, ms: nat, n: nat) -> Seq<char> {
    entity + seq!['-'] + nat_dec(ms) + seq!['-'] + nat_dec(n)
}

/// A new id for a record of `entity`: the entity, the current time and the
/// sequence's counter, which then moves on (wrapping at its maximum).
pub fn new_id(seq: &mut IdSequence, entity: &str) -> (r: String)
    ensures
        exists|ms: nat| r@ == id_text(entity@, ms, old(seq).next as nat),
        final(seq).next == (if old(seq).next == u64::MAX {
            0
        } else {
            old(seq).next + 1
        }),
{
    let n = seq.next;
    seq.next = n.wrapping_add(1);
    let t = now();
    let ghost ms = choose|ms: nat| t@ == nat_dec(ms);
    let mut s = concat(entity, "-");
    let s2 = concat(s.as_str(), t.as_str());
    let mut out = concat(s2.as_str(), "-");
    push_nat_dec(&mut out, n as u128);
    proof {
        reveal_strlit("-");
        assert(out@ =~= id_text(entity@, ms, n as nat));
    }
    out
}

proof fn lemma_digit_char(d: int)
    requires
        0 <= d < 10,
    ensures
        is_digit(digit_char(d)),
        digit_value(digit_char(d)) == d,
{
}

pub proof fn lemma_nat_dec_digits(n: nat)
    ensures
        all_digits(nat_dec(n)),
        nat_dec(n).len() > 0,
        digits_value(nat_dec(n)) == n,
    decreases n,
{
    if n < 10 {
        lemma_digit_char(n as int);
        let s = nat_dec(n);
        assert(s.drop_last() =~= Seq::<char>::empty());
        assert(digits_value(s.drop_last()) == 0);
        assert(s.last() == digit_char(n as int));
        assert(digits_value(s) == 10 * digits_value(s.drop_last()) + digit_value(s.last()));
    } else {
        lemma_nat_dec_digits((n / 10) as nat);
        lemma_digit_char((n % 10) as int);
        let s = nat_dec(n);
        assert(s.drop_last() =~= nat_dec((n / 10) as nat));
        assert(s.last() == digit_char((n % 10) as int));
        assert(digits_value(s) == 10 * digits_value(s.drop_last()) + digit_value(s.last()));
        assert(10 * (n / 10) + n % 10 == n);
        assert forall|i: int| 0 <= i < s.len() implies #[trigger] is_digit(s[i]) by {
            if i < s.len() - 1 {
                assert(s[i] == nat_dec((n / 10) as nat)[i]);
            }
        }
    }
}

/// Ids drawn with different counter values differ, whatever the entities and
/// the clock read.
pub proof fn lemma_ids_differ(e1: Seq<char>, ms1: nat, n1: nat, e2: Seq<char>, ms2: nat, n2: nat)
    requires
        n1 != n2,
    ensures
        id_text(e1, ms1, n1) != id_text(e2, ms2, n2),
{
    let a = id_text(e1, ms1, n1);
    let b = id_text(e2, ms2, n2);
    let d1 = nat_dec(n1);
    let d2 = nat_dec(n2);
    lemma_nat_dec_digits(n1);
    lemma_nat_dec_digits(n2);
    if a == b {
        let len = a.len() as int;
        let p1 = len - d1.len() - 1;
        let p2 = len - d2.len() - 1;
        assert(a[p1] == '-');
        assert(b[p2] == '-');
        if d1.len() < d2.len() {
            assert(b[p1] == d2[p1 - p2 - 1]);
            assert(is_digit(d2[p1 - p2 - 1]));
        } else if d2.len() < d1.len() {
            assert(a[p2] == d1[p2 - p1 - 1]);
            assert(is_digit(d1[p2 - p1 - 1]));
        } else {
            assert(d1 =~= a.subrange(p1 + 1, len));
            assert(d2 =~= b.subrange(p2 + 1, len));
        }
    }
}

/// The text `value` (an integer, else zero) moved on by `days` days of milliseconds.
pub open spec fn after_days(value: Seq<char>, days: int) -> int {
    let base = match parse_i64(value) {
        Some(v) => v,
        None => 0,
    };
    base + days * 86_400_000
}

/// `timestamp_after_days`.
pub fn timestamp_after_days(value: &str, days: i64) -> (r: String)
    requires
        i64::MIN <= days * 86_400_000 <= i64::MAX,
        i64::MIN <= after_days(value@, days as int) <= i64::MAX,
    ensures
        r@ == int_dec(after_days(value@, days as int)),
{
    let base: i64 = match parse_i64_str(value) {
        Some(v) => v,
        None => 0,
    };
    let shift: i64 = days * 86_400_000;
    i64_to_string(base + shift)
}

/// `timestamp_after_days` where the arithmetic fits in 64 bits (`None` where
/// it does not).
pub fn checked_timestamp_after_days(value: &str, days: i64) -> (r: Option<String>)
    ensures
        r is None <==> !(i64::MIN <= days * 86_400_000 <= i64::MAX && i64::MIN <= after_days(value@, days as int)
            <= i64::MAX),
        r matches Some(t) ==> t@ == int_dec(after_days(value@, days as int)),
{
    let base: i64 = match parse_i64_str(value) {
        Some(v) => v,
        None => 0,
    };
    let shift: i128 = days as i128 * 86_400_000;
    let total: i128 = base as i128 + shift;
    if shift < i64::MIN as i128 || shift > i64::MAX as i128 || total < i64::MIN as i128 || total > i64::MAX as i128 {
        None
    } else {
        Some(timestamp_after_days(value, days))
    }
}

} // verus!
