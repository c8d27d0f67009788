//! Time with millisecond resolution.

use crate::time::{Duration, NANOS_PER_MILLI};
use std::ops::{Add, Sub};
use vstd::prelude::*;
use vstd::std_specs::ops::{AddSpecImpl, SubSpecImpl};

verus! {

/// A measurement of a monotonically nondecreasing clock, in milliseconds since its start.
#[derive(Clone, Copy, Debug, PartialEq, Eq, PartialOrd, Ord, Hash, Structural)]
pub struct Instant(pub u64);

/// Whole milliseconds of a duration.
pub open spec fn millis(duration: Duration) -> u64 {
    duration.nanos / NANOS_PER_MILLI
}

impl Instant {
    /// The duration since another instant; zero if that is not earlier.
    pub open spec fn since(self, earlier: Instant) -> Duration {
        if self.0 > earlier.0 {
            Duration { nanos: ((self.0 - earlier.0) * NANOS_PER_MILLI) as u64 }
        } else {
            Duration { nanos: 0 }
        }
    }

    /// The instant that lies the whole milliseconds of a duration later.
    pub open spec fn after(self, duration: Duration) -> Instant {
        Instant((self.0 + millis(duration)) as u64)
    }

    /// The instant at which the clock of the environment shows `now`, if the first measurement
    /// was taken when it showed `start`.
    pub fn since_start(now: u64, start: u64) -> (r: Self)
        requires
            start <= now,
        ensures
            r.0 == now - start,
    {
        Instant(now - start)
    }

    /// Returns the amount of time elapsed since this instant was created,
    /// or zero duration if this instant is in the future.
    pub fn elapsed(&self, now: Instant) -> (r: Duration)
        requires
            (now.0 - self.0) * NANOS_PER_MILLI <= u64::MAX,
        ensures
            r == now.since(*self),
    {
        now - *self
    }

    /// Adds the duration to this instant, if the resulting value is representable.
    pub fn checked_add(&self, duration: Duration) -> (r: Option<Self>)
        ensures
            r == if self.0 + millis(duration) <= u64::MAX {
                Some(Instant((self.0 + millis(duration)) as u64))
            } else {
                None
            },
    {
        match self.0.checked_add(duration.nanos / NANOS_PER_MILLI) {
            Some(sum) => Some(Instant(sum)),
            None => None,
        }
    }
}

impl AddSpecImpl<Duration> for Instant {
    open spec fn obeys_add_spec() -> bool {
        true
    }

    open spec fn add_req(self, rhs: Duration) -> bool {
        self.0 + millis(rhs) <= u64::MAX
    }

    open spec fn add_spec(self, rhs: Duration) -> Instant {
        self.after(rhs)
    }
}

impl Add<Duration> for Instant {
    type Output = Instant;

    fn add(self, rhs: Duration) -> (r: Instant) {
        Instant(self.0 + rhs.nanos / NANOS_PER_MILLI)
    }
}

impl SubSpecImpl<Instant> for Instant {
    open spec fn obeys_sub_spec() -> bool {
        true
    }

    open spec fn sub_req(self, rhs: Instant) -> bool {
        (self.0 - rhs.0) * NANOS_PER_MILLI <= u64::MAX
    }

    open spec fn sub_spec(self, rhs: Instant) -> Duration {
        self.since(rhs)
    }
}

impl Sub<Instant> for Instant {
    type Output = Duration;

    fn sub(self, rhs: Instant) -> (r: Duration) {
        if self.0 > rhs.0 {
            Duration::from_millis(self.0 - rhs.0)
        } else {
            Duration { nanos: 0 }
        }
    }
}

/// How long to sleep until `deadline` is reached.
pub fn sleep_duration(deadline: Instant, now: Instant) -> (r: Duration)
    requires
        (deadline.0 - now.0) * NANOS_PER_MILLI <= u64::MAX,
    ensures
        r == deadline.since(now),
{
    if deadline.0 > now.0 {
        deadline - now
    } else {
        Duration { nanos: 0 }
    }
}

/// The sleep duration in milliseconds as the environment takes it.
///
/// `None` if it is too long.
pub fn timeout_millis(duration: Duration) -> (r: Option<i32>)
    ensures
        r == if millis(duration) <= i32::MAX {
            Some(millis(duration) as i32)
        } else {
            None
        },
{
    let timeout: u64 = duration.nanos / NANOS_PER_MILLI;
    if timeout <= i32::MAX as u64 {
        Some(timeout as i32)
    } else {
        None
    }
}

/// The time between an instant and the one that lies a duration later are the whole milliseconds
/// of that duration.
pub proof fn law_add_then_sub(at: Instant, duration: Duration)
    requires
        at.0 + millis(duration) <= u64::MAX,
    ensures
        at.after(duration).since(at).nanos == millis(duration) * NANOS_PER_MILLI,
{
}

} // verus!
