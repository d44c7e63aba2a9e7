//! Time as the placement sees it: whole nanoseconds, read off a clock that
//! starts with the placement.

use vstd::prelude::*;

verus! {

/// Nanoseconds in a second.
pub const NANOS_PER_SEC: u128 = 1_000_000_000;

/// The longest length of time that can be written as whole seconds in 64 bits
/// and a rest of nanoseconds.
pub const MAX_DURATION_NANOS: u128 = 18_446_744_073_709_551_615_999_999_999;

/// A length of time.
#[derive(Debug, Clone, Copy, PartialEq, Eq)]
pub struct Duration {
    pub nanos: u128,
}

/// A moment, as the time since the clock of a placement started.
#[derive(Debug, Clone, Copy, PartialEq, Eq)]
pub struct Instant {
    pub nanos: u128,
}

impl View for Duration {
    type V = nat;

    open spec fn view(&self) -> nat {
        self.nanos as nat
    }
}

impl View for Instant {
    type V = nat;

    open spec fn view(&self) -> nat {
        self.nanos as nat
    }
}

/// The time from `earlier` to `later`, and none if `later` comes first.
pub open spec fn time_since(later: nat, earlier: nat) -> nat {
    if later >= earlier {
        (later - earlier) as nat
    } else {
        0
    }
}

impl Duration {
    /// A whole number of seconds.
    pub fn from_secs(secs: u64) -> (r: Duration)
        ensures
            r@ == secs * 1_000_000_000,
            r@ <= MAX_DURATION_NANOS,
    {
        Duration { nanos: secs as u128 * NANOS_PER_SEC }
    }
}

impl Instant {
    /// The time since `earlier`, and none if `earlier` is the later one.
    pub fn saturating_duration_since(self, earlier: Instant) -> (r: Duration)
        ensures
            r@ == time_since(self@, earlier@),
            self@ >= earlier@ ==> r@ + earlier@ == self@,
            self@ <= earlier@ ==> r@ == 0,
    {
        if self.nanos >= earlier.nanos {
            Duration { nanos: self.nanos - earlier.nanos }
        } else {
            Duration { nanos: 0 }
        }
    }
}

/// A reading of the system's monotonic clock, carried and never looked into.
#[verifier::external_type_specification]
#[verifier::external_body]
pub struct ExSystemInstant(std::time::Instant);

/// `std::time::Instant::now` reads the system's monotonic clock. Nothing is
/// claimed of the reading: it is up to the machine.
pub assume_specification[ std::time::Instant::now ]() -> (now: std::time::Instant);

/// `std::time::Instant::elapsed`, in nanoseconds: how long ago `origin` was
/// read. Nothing is claimed of the length: it is up to the machine.
#[verifier::external_body]
fn nanos_since(origin: &std::time::Instant) -> (nanos: u128) {
    origin.elapsed().as_nanos()
}

/// A clock that runs from the moment it was started.
#[derive(Debug)]
pub(crate) struct Clock {
    origin: std::time::Instant,
}

impl Clock {
    /// A clock that starts now.
    pub(crate) fn start() -> (clock: Clock) {
        Clock { origin: std::time::Instant::now() }
    }

    /// The moment that the clock shows.
    pub(crate) fn now(&self) -> (now: Instant) {
        Instant { nanos: nanos_since(&self.origin) }
    }
}

} // verus!
