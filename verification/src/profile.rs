//! Link timing derived from a mode's airtime.
//!
//! Every link timer is a multiple of the mode's *over airtime*, the time that one
//! over takes on the air. A deep-floor over lasts tens of seconds and a fast one
//! less than a second, so no fixed timer would serve both.
use crate::time::Duration;
use vstd::prelude::*;

verus! {

/// Over-airtimes to wait, while listening, for the peer's reply over.
pub const TURN_RECOVERY_OVERS: u32 = 2;

/// Over-airtimes within which a sent over must be acknowledged.
pub const OVER_TIMEOUT_OVERS: u32 = 3;

/// Idle over-airtimes after which a keepalive is due.
pub const KEEPALIVE_OVERS: u32 = 8;

/// Airtime-aware descriptor of one mode, from which all link timers follow.
#[derive(Debug, Clone, Copy, PartialEq, Eq, Structural)]
pub struct ModeProfile {
    /// Time that one over takes on the air.
    pub over_airtime: Duration,
    /// Payload bytes that one over carries.
    pub per_over_mtu: usize,
}

impl ModeProfile {
    /// The turn-recovery timeout in nanoseconds.
    pub open spec fn turn_recovery_nanos(self) -> u128 {
        crate::time::capped_product(self.over_airtime.nanos, TURN_RECOVERY_OVERS)
    }

    /// The over timeout in nanoseconds.
    pub open spec fn over_timeout_nanos(self) -> u128 {
        crate::time::capped_product(self.over_airtime.nanos, OVER_TIMEOUT_OVERS)
    }

    /// The keepalive interval in nanoseconds.
    pub open spec fn keepalive_nanos(self) -> u128 {
        crate::time::capped_product(self.over_airtime.nanos, KEEPALIVE_OVERS)
    }

    /// Construct a profile from the mode's over airtime and per-over MTU.
    pub fn new(over_airtime: Duration, per_over_mtu: usize) -> (p: Self)
        ensures
            p == (ModeProfile { over_airtime, per_over_mtu }),
    {
        ModeProfile { over_airtime, per_over_mtu }
    }

    /// The duration of one over at this mode.
    pub fn over_airtime(&self) -> (d: Duration)
        ensures
            d == self.over_airtime,
    {
        self.over_airtime
    }

    /// Payload bytes carriable in one over at this mode.
    pub fn per_over_mtu(&self) -> (n: usize)
        ensures
            n == self.per_over_mtu,
    {
        self.per_over_mtu
    }

    /// Time to wait, while listening, for the peer's reply over before taking the
    /// floor back and retransmitting.
    pub fn turn_recovery_timeout(&self) -> (d: Duration)
        ensures
            d.nanos == self.turn_recovery_nanos(),
    {
        self.over_airtime.saturating_mul(TURN_RECOVERY_OVERS)
    }

    /// Time to wait for a sent over to be acknowledged before retransmitting the
    /// unacknowledged window in the next over.
    pub fn over_timeout(&self) -> (d: Duration)
        ensures
            d.nanos == self.over_timeout_nanos(),
    {
        self.over_airtime.saturating_mul(OVER_TIMEOUT_OVERS)
    }

    /// Idle interval after which a keepalive holds the link up.
    pub fn keepalive_interval(&self) -> (d: Duration)
        ensures
            d.nanos == self.keepalive_nanos(),
    {
        self.over_airtime.saturating_mul(KEEPALIVE_OVERS)
    }
}

/// The timers of a mode are ordered: turn recovery fires before the over timeout,
/// and that before the keepalive.
pub proof fn timers_are_ordered(p: ModeProfile)
    requires
        0 < p.over_airtime.nanos,
        p.over_airtime.nanos * KEEPALIVE_OVERS <= u128::MAX,
    ensures
        p.turn_recovery_nanos() < p.over_timeout_nanos() < p.keepalive_nanos(),
{
}

/// A mode whose over lasts `k` times as long has every timer `k` times as long.
pub proof fn timers_scale_with_airtime(p: ModeProfile, q: ModeProfile, k: nat)
    requires
        q.over_airtime.nanos == k * p.over_airtime.nanos,
        p.over_airtime.nanos * KEEPALIVE_OVERS <= u128::MAX,
        q.over_airtime.nanos * KEEPALIVE_OVERS <= u128::MAX,
    ensures
        q.turn_recovery_nanos() == k * p.turn_recovery_nanos(),
        q.over_timeout_nanos() == k * p.over_timeout_nanos(),
        q.keepalive_nanos() == k * p.keepalive_nanos(),
{
    let a = p.over_airtime.nanos as int;
    assert(k * a * 2 == k * (a * 2)) by (nonlinear_arith);
    assert(k * a * 3 == k * (a * 3)) by (nonlinear_arith);
    assert(k * a * 8 == k * (a * 8)) by (nonlinear_arith);
}

/// How long the timers are: two overs for the turn, three for an acknowledgement and eight
/// until a keepalive is due.
pub proof fn timers_count_overs(p: ModeProfile)
    requires
        8 * p.over_airtime.nanos <= u128::MAX,
    ensures
        p.turn_recovery_nanos() == p.over_airtime.nanos + p.over_airtime.nanos,
        p.over_timeout_nanos() == p.turn_recovery_nanos() + p.over_airtime.nanos,
        p.keepalive_nanos() == 4 * p.turn_recovery_nanos(),
{
}

} // verus!
