//! Spans of time, as the link counts them: whole nanoseconds.
//!
//! Arithmetic saturates at the largest span, which lies far beyond the range of
//! `std::time::Duration`.
use vstd::prelude::*;

verus! {

/// Nanoseconds in one millisecond.
pub const NANOS_PER_MILLI: u128 = 1_000_000;

/// Nanoseconds in one second.
pub const NANOS_PER_SEC: u128 = 1_000_000_000;

/// A span of time, or the time elapsed since a clock's origin.
#[derive(Debug, Clone, Copy, PartialEq, Eq, PartialOrd, Ord, Structural)]
pub struct Duration {
    /// Length in nanoseconds.
    pub nanos: u128,
}

/// The sum of two counts of nanoseconds, held at the largest one.
pub open spec fn capped_sum(a: u128, b: u128) -> u128 {
    if a + b <= u128::MAX {
        (a + b) as u128
    } else {
        u128::MAX
    }
}

/// A multiple of a count of nanoseconds, held at the largest one.
pub open spec fn capped_product(a: u128, n: u32) -> u128 {
    if a * n <= u128::MAX {
        (a * n) as u128
    } else {
        u128::MAX
    }
}

impl Duration {
    /// The empty span.
    pub fn zero() -> (d: Self)
        ensures
            d.nanos == 0,
    {
        Duration { nanos: 0 }
    }

    /// A span of whole nanoseconds.
    pub fn from_nanos(nanos: u128) -> (d: Self)
        ensures
            d.nanos == nanos,
    {
        Duration { nanos }
    }

    /// A span of whole milliseconds.
    pub fn from_millis(ms: u64) -> (d: Self)
        ensures
            d.nanos == ms * NANOS_PER_MILLI,
    {
        Duration { nanos: ms as u128 * NANOS_PER_MILLI }
    }

    /// A span of whole seconds.
    pub fn from_secs(secs: u64) -> (d: Self)
        ensures
            d.nanos == secs * NANOS_PER_SEC,
    {
        Duration { nanos: secs as u128 * NANOS_PER_SEC }
    }

    /// The whole milliseconds in the span.
    pub fn as_millis(self) -> (ms: u128)
        ensures
            ms == self.nanos / NANOS_PER_MILLI,
    {
        self.nanos / NANOS_PER_MILLI
    }

    /// The span that lasts as long as both.
    pub fn saturating_add(self, rhs: Duration) -> (d: Duration)
        ensures
            d.nanos == capped_sum(self.nanos, rhs.nanos),
    {
        if rhs.nanos <= u128::MAX - self.nanos {
            Duration { nanos: self.nanos + rhs.nanos }
        } else {
            Duration { nanos: u128::MAX }
        }
    }

    /// What is left of the span after `rhs`, or nothing.
    pub fn saturating_sub(self, rhs: Duration) -> (d: Duration)
        ensures
            d.nanos == if self.nanos >= rhs.nanos {
                self.nanos - rhs.nanos
            } else {
                0
            },
    {
        if self.nanos >= rhs.nanos {
            Duration { nanos: self.nanos - rhs.nanos }
        } else {
            Duration { nanos: 0 }
        }
    }

    /// The span `n` times over.
    pub fn saturating_mul(self, n: u32) -> (d: Duration)
        ensures
            d.nanos == capped_product(self.nanos, n),
    {
        match self.nanos.checked_mul(n as u128) {
            Some(nanos) => Duration { nanos },
            None => Duration { nanos: u128::MAX },
        }
    }
}

/// Sums and multiples are exact as far as they can be written, and stay at the largest span
/// beyond; so they never fall when what they are made of grows.
pub proof fn spans_add_up(a: u128, b: u128, c: u128, n: u32)
    ensures
        a + b <= u128::MAX ==> capped_sum(a, b) == a + b,
        a + b > u128::MAX ==> capped_sum(a, b) == u128::MAX,
        capped_sum(a, b) == capped_sum(b, a),
        b <= c ==> capped_sum(a, b) <= capped_sum(a, c),
        a * n <= u128::MAX ==> capped_product(a, n) == a * n,
        a * n > u128::MAX ==> capped_product(a, n) == u128::MAX,
        capped_product(a, 0) == 0,
        capped_product(a, 1) == a,
        capped_product(a, 2) == capped_sum(a, a),
        NANOS_PER_SEC == 1_000 * NANOS_PER_MILLI,
        NANOS_PER_MILLI == 1_000_000,
{
}

} // verus!
