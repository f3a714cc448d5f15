//! Time formatting utilities: render a duration as a human-readable string
//! and a Unix timestamp as an RFC 3339 date-time string, plus a small
//! arithmetic connectivity check.

use vstd::prelude::*;

pub mod calendar;
pub mod digits;
pub mod time;

use crate::time::{duration_chars, duration_to_humatime, iso_chars, timestamp_to_iso,
    MAX_TIMESTAMP};

verus! {

/// Renders a duration of `secs` whole seconds and `nanos` sub-second
/// nanoseconds as a human-readable string such as `1h 30m 5s`: unit
/// segments from largest to smallest, zero-valued units omitted, and
/// `0s` for the zero duration.
pub fn from_duration(secs: usize, nanos: u32) -> (r: String)
    requires
        nanos < 1_000_000_000,
    ensures
        r@ == duration_chars(secs as int, nanos as int),
{
    duration_to_humatime(secs as u64, nanos)
}

/// Renders the timestamp `stamp` (non-negative seconds since the Unix
/// epoch, up to the last second of year 9999) as an RFC 3339 / ISO 8601
/// date-time string in UTC, `YYYY-MM-DDTHH:MM:SSZ`.
pub fn to_iso(stamp: u64) -> (r: String)
    requires
        stamp <= MAX_TIMESTAMP,
    ensures
        r@ == iso_chars(stamp as int),
{
    timestamp_to_iso(stamp)
}

/// Rendering a duration is a pure function of its two inputs: any two
/// results for the same seconds and nanoseconds are the same string.
pub proof fn lemma_from_duration_deterministic(
    secs: int,
    nanos: int,
    r1: Seq<char>,
    r2: Seq<char>,
)
    requires
        r1 == duration_chars(secs, nanos),
        r2 == duration_chars(secs, nanos),
    ensures
        r1 == r2,
{
}

/// Rendering a timestamp is a pure function of its input: any two
/// results for the same timestamp are the same string.
pub proof fn lemma_to_iso_deterministic(t: int, r1: Seq<char>, r2: Seq<char>)
    requires
        r1 == iso_chars(t),
        r2 == iso_chars(t),
    ensures
        r1 == r2,
{
}

/// Adds two non-negative integers.
///
/// The sum of two calls with the arguments swapped is the same value:
/// see `lemma_sum_commutative`.
pub fn sum(a: usize, b: usize) -> (r: usize)
    requires
        a + b <= usize::MAX,
    ensures
        r == a + b,
{
    a + b
}

/// Addition is commutative, so `sum` returns the same value however its
/// two arguments are ordered.
pub proof fn lemma_sum_commutative(a: usize, b: usize)
    requires
        a + b <= usize::MAX,
    ensures
        a + b == b + a,
{
}

} // verus!
