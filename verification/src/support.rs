// Small services the rest of the library builds on: text assembly with
// decimal numbers, the wall clock, and random numbers.
use vstd::prelude::*;

verus! {

#[verifier::external_type_specification]
#[verifier::external_body]
pub struct ExRng(fastrand::Rng);

/// The character of decimal digit `d`.
pub open spec fn digit_char(d: nat) -> char {
    ((48 + d) as u8) as char
}

/// Decimal representation of `n`, most significant digit first, no leading
/// zeros (`0` is "0").
pub open spec fn decimal_text(n: nat) -> Seq<char>
    decreases n,
{
    if n < 10 {
        seq![digit_char(n)]
    } else {
        decimal_text(n / 10).push(digit_char(n % 10))
    }
}

/// Appends `t` to `s` (std's `String::push_str`).
#[verifier::external_body]
pub(crate) fn push_text(s: &mut String, t: &str)
    ensures
        final(s)@ == old(s)@ + t@,
{
    s.push_str(t);
}

/// Appends `c` to `s` (std's `String::push`).
#[verifier::external_body]
pub(crate) fn push_char(s: &mut String, c: char)
    ensures
        final(s)@ == old(s)@.push(c),
{
    s.push(c);
}

/// Appends the decimal representation of `n` to `s`.
pub fn push_decimal(s: &mut String, n: u64)
    ensures
        final(s)@ == old(s)@ + decimal_text(n as nat),
    decreases n,
{
    if n >= 10 {
        push_decimal(s, n / 10);
    }
    let d: u8 = (n % 10) as u8;
    let c: char = (48u8 + d) as char;
    push_char(s, c);
    proof {
        if n >= 10 {
            assert(decimal_text(n as nat) == decimal_text((n / 10) as nat).push(digit_char(
                (n % 10) as nat,
            )));
        } else {
            assert(decimal_text(n as nat) == seq![digit_char(n as nat)]);
        }
    }
}

/// Current wall-clock time in nanoseconds since the Unix epoch (std's
/// `SystemTime::now`, measured from `UNIX_EPOCH`; 0 if the clock reads
/// before the epoch). Nothing is promised about the value.
#[verifier::external_body]
pub(crate) fn now_ns() -> u64 {
    match std::time::SystemTime::now().duration_since(std::time::UNIX_EPOCH) {
        Ok(d) => d.as_nanos() as u64,
        Err(_) => 0,
    }
}

/// A generator seeded from the process-wide source (fastrand's
/// `Rng::new`).
#[verifier::external_body]
pub(crate) fn new_rng() -> fastrand::Rng {
    fastrand::Rng::new()
}

/// A number drawn uniformly from `low..=high` (fastrand's `Rng::u64` with an
/// inclusive range); the range must not be empty.
#[verifier::external_body]
pub(crate) fn random_between(rng: &mut fastrand::Rng, low: u64, high: u64) -> (r: u64)
    requires
        low <= high,
    ensures
        low <= r <= high,
{
    rng.u64(low..=high)
}

/// A number drawn from the thread-local generator over all of `u64`
/// (fastrand's free function `u64(..)`).
#[verifier::external_body]
pub(crate) fn random_u64() -> u64 {
    fastrand::u64(..)
}

/// `s` is in ascending order.
pub open spec fn ascending(s: Seq<u64>) -> bool {
    forall|i: int, j: int| 0 <= i < j < s.len() ==> s[i] <= s[j]
}

/// Sorts `v` in ascending order (std's `slice::sort`): the result is
/// ordered and holds the same values, each as often.
#[verifier::external_body]
pub(crate) fn sort_ascending(v: &mut Vec<u64>)
    ensures
        ascending(final(v)@),
        final(v)@.to_multiset() == old(v)@.to_multiset(),
{
    v.sort();
}

/// Position of the 99th percentile in a sorted sequence of `n` values.
pub open spec fn p99_index(n: nat) -> int {
    if (n * 99 / 100) as int <= n - 1 {
        (n * 99 / 100) as int
    } else {
        n - 1
    }
}

/// The 99th-percentile pick of `s` as the latency trackers take it: sort
/// ascending, take the element at `len * 99 / 100` (capped at the last);
/// 0 for an empty sequence.
pub open spec fn is_p99(s: Seq<u64>, r: u64) -> bool {
    if s.len() == 0 {
        r == 0
    } else {
        exists|t: Seq<u64>|
            #![trigger t.to_multiset()]
            t.to_multiset() == s.to_multiset() && ascending(t) && t.len() == s.len() && r == t[p99_index(
                s.len(),
            )]
    }
}

/// The 99th-percentile pick of `values` (see `is_p99`).
pub fn p99_of(values: Vec<u64>) -> (r: u64)
    ensures
        is_p99(values@, r),
{
    let mut sorted = values;
    if sorted.len() == 0 {
        return 0;
    }
    let ghost original = sorted@;
    sort_ascending(&mut sorted);
    proof {
        vstd::seq_lib::to_multiset_len(sorted@);
        vstd::seq_lib::to_multiset_len(original);
    }
    let n = sorted.len();
    let idx = n / 100 * 99 + (n % 100) * 99 / 100;
    assert(idx == n * 99 / 100) by (nonlinear_arith)
        requires
            idx == n / 100 * 99 + (n % 100) * 99 / 100,
    ;
    let pick = if idx < n - 1 {
        idx
    } else {
        n - 1
    };
    let r = sorted[pick];
    assert(sorted@.to_multiset() == original.to_multiset() && ascending(sorted@) && sorted@.len()
        == original.len() && r == sorted@[pick as int]);
    r
}

} // verus!
