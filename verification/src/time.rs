//! Points in time and durations with nanosecond resolution.

use vstd::prelude::*;

verus! {

/// Nanoseconds per millisecond.
pub const NANOS_PER_MILLI: u64 = 1_000_000;

/// Nanoseconds per second.
pub const NANOS_PER_SEC: u64 = 1_000_000_000;

/// A duration.
#[derive(Debug, Clone, Copy, PartialEq, Eq, PartialOrd, Ord, Hash, Structural)]
pub struct Duration {
    /// Length in nanoseconds.
    pub nanos: u64,
}

/// A point in time, measured on a monotonic clock.
#[derive(Debug, Clone, Copy, PartialEq, Eq, PartialOrd, Ord, Hash, Structural)]
pub struct Instant {
    /// Nanoseconds since the start of the clock.
    pub nanos: u64,
}

impl Duration {
    /// Duration of the specified number of seconds.
    pub fn from_secs(secs: u64) -> (r: Duration)
        requires
            secs * NANOS_PER_SEC <= u64::MAX,
        ensures
            r.nanos == secs * NANOS_PER_SEC,
    {
        Duration { nanos: secs * NANOS_PER_SEC }
    }

    /// Duration of the specified number of milliseconds.
    pub fn from_millis(millis: u64) -> (r: Duration)
        requires
            millis * NANOS_PER_MILLI <= u64::MAX,
        ensures
            r.nanos == millis * NANOS_PER_MILLI,
    {
        Duration { nanos: millis * NANOS_PER_MILLI }
    }

    /// Half of this duration.
    pub open spec fn half(self) -> Duration {
        Duration { nanos: self.nanos / 2 }
    }
}

/// The duration between two instants; zero if `later` is not after `earlier`.
pub open spec fn duration_between(earlier: Instant, later: Instant) -> Duration {
    Duration {
        nanos: if later.nanos > earlier.nanos {
            (later.nanos - earlier.nanos) as u64
        } else {
            0
        },
    }
}

impl Instant {
    /// Duration elapsed since this instant when the clock shows `now`.
    pub fn elapsed(self, now: Instant) -> (r: Duration)
        ensures
            r == duration_between(self, now),
    {
        Duration { nanos: now.nanos.saturating_sub(self.nanos) }
    }

    /// The point in time, in nanoseconds, that lies the specified duration after this instant.
    pub open spec fn plus(self, d: Duration) -> u128 {
        (self.nanos + d.nanos) as u128
    }

    /// The point in time, in nanoseconds, that lies the specified duration after this instant.
    pub fn after(self, d: Duration) -> (r: u128)
        ensures
            r == self.plus(d),
            r == self.nanos + d.nanos,
    {
        self.nanos as u128 + d.nanos as u128
    }
}

} // verus!
