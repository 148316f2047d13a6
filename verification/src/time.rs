//! Points in time and spans of time, counted in whole nanoseconds.

use vstd::prelude::*;

verus! {

/// Nanoseconds in one second.
pub const NANOS_PER_SEC: u128 = 1_000_000_000;

/// Nanoseconds in one millisecond.
pub const NANOS_PER_MILLI: u128 = 1_000_000;

/// A span of time.
#[derive(Clone, Copy, Debug, PartialEq, Eq, Structural)]
pub struct Duration {
    pub nanos: u128,
}

impl Duration {
    /// A span of whole seconds.
    pub fn from_secs(secs: u64) -> (d: Duration)
        ensures
            d.nanos == secs * NANOS_PER_SEC,
    {
        Duration { nanos: secs as u128 * NANOS_PER_SEC }
    }

    /// A span of whole milliseconds.
    pub fn from_millis(millis: u64) -> (d: Duration)
        ensures
            d.nanos == millis * NANOS_PER_MILLI,
    {
        Duration { nanos: millis as u128 * NANOS_PER_MILLI }
    }

    /// True for the empty span.
    pub fn is_zero(&self) -> (z: bool)
        ensures
            z == (self.nanos == 0),
    {
        self.nanos == 0
    }

    /// The shorter of two spans.
    pub fn shorter(self, other: Duration) -> (d: Duration)
        ensures
            d.nanos == (if self.nanos <= other.nanos { self.nanos } else { other.nanos }),
    {
        if self.nanos <= other.nanos {
            self
        } else {
            other
        }
    }
}

/// A reading of a monotonic clock: the time since some fixed moment, the same
/// one for all readings that are compared with each other.
#[derive(Clone, Copy, Debug, PartialEq, Eq, Structural)]
pub struct Instant {
    pub nanos: u128,
}

/// The time that has passed at `now` since `earlier`; zero if `earlier` is the
/// later of the two.
pub open spec fn elapsed(earlier: Instant, now: Instant) -> nat {
    if earlier.nanos <= now.nanos {
        (now.nanos - earlier.nanos) as nat
    } else {
        0
    }
}

impl Instant {
    /// The time from `earlier` to this instant, or zero if there is none.
    pub fn saturating_duration_since(&self, earlier: Instant) -> (d: Duration)
        ensures
            d.nanos == elapsed(earlier, *self),
    {
        if earlier.nanos <= self.nanos {
            Duration { nanos: self.nanos - earlier.nanos }
        } else {
            Duration { nanos: 0 }
        }
    }

    /// The instant that lies `d` after this one.
    pub fn after(&self, d: Duration) -> (t: Instant)
        requires
            self.nanos + d.nanos <= u128::MAX,
        ensures
            t.nanos == self.nanos + d.nanos,
    {
        Instant { nanos: self.nanos + d.nanos }
    }

    /// True if `deadline` has come at this instant.
    pub fn reached(&self, deadline: Instant) -> (r: bool)
        ensures
            r == (deadline.nanos <= self.nanos),
    {
        deadline.nanos <= self.nanos
    }
}

/// What has passed between a moment and a later one is what lies between them;
/// towards an earlier one nothing has passed.
pub proof fn law_elapsed_is_what_lies_between(t: Instant, d: u128)
    requires
        t.nanos + d <= u128::MAX,
    ensures
        elapsed(t, Instant { nanos: (t.nanos + d) as u128 }) == d,
        elapsed(Instant { nanos: (t.nanos + d) as u128 }, t) == 0,
{
}

} // verus!
