//! Where real time enters.
use crate::time::Duration;
use vstd::prelude::*;

verus! {

/// A monotonic clock, counted from some fixed origin.
pub trait Clock {
    /// The clock may read so many nanoseconds.
    open spec fn may_read(&self, nanos: u128) -> bool {
        true
    }

    /// Elapsed time since the clock's origin.
    fn now(&self) -> (d: Duration)
        ensures
            self.may_read(d.nanos),
    ;
}

/// `std::time::Instant`, carried and never looked into.
#[verifier::external_type_specification]
#[verifier::external_body]
pub struct ExInstant(std::time::Instant);

/// `std::time::Instant::now`: some instant; nothing is claimed of it.
#[verifier::external_body]
fn current_instant() -> (i: std::time::Instant) {
    std::time::Instant::now()
}

/// `std::time::Instant::elapsed`, in nanoseconds: some length of time; nothing is claimed
/// of it.
#[verifier::external_body]
fn nanos_since(origin: &std::time::Instant) -> (n: u128) {
    origin.elapsed().as_nanos()
}

/// The system's monotonic clock, counted from its construction.
pub struct SystemClock {
    origin: std::time::Instant,
}

impl SystemClock {
    /// Start a clock at the current instant.
    pub fn new() -> (c: Self) {
        SystemClock { origin: current_instant() }
    }
}

impl Default for SystemClock {
    fn default() -> (c: Self) {
        SystemClock::new()
    }
}

impl Clock for SystemClock {
    open spec fn may_read(&self, nanos: u128) -> bool {
        true
    }

    fn now(&self) -> (d: Duration) {
        Duration::from_nanos(nanos_since(&self.origin))
    }
}

} // verus!
