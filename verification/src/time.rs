//! Nanosecond-resolution monotonic time values.
//!
//! The domain never reads a clock: callers pass in the current [`Instant`].
//! An `Instant` is a point on a monotonic nanosecond timeline whose origin is
//! fixed by the caller (the server uses its own start-up moment).

use vstd::prelude::*;

verus! {

/// Nanoseconds in a millisecond.
pub const NANOS_PER_MILLI: u64 = 1_000_000;

/// A span of time, in whole nanoseconds.
#[derive(Clone, Copy, Debug, PartialEq, Eq, Structural, PartialOrd, Ord, Hash)]
pub struct Duration {
    pub nanos: u64,
}

/// A point on the caller's monotonic timeline, in nanoseconds since its origin.
#[derive(Clone, Copy, Debug, PartialEq, Eq, Structural, PartialOrd, Ord, Hash)]
pub struct Instant {
    pub nanos: u64,
}

impl Duration {
    /// Length of the span in nanoseconds.
    pub open spec fn ns(self) -> nat {
        self.nanos as nat
    }

    pub fn from_nanos(nanos: u64) -> (d: Duration)
        ensures
            d.ns() == nanos,
    {
        Duration { nanos }
    }

    pub fn from_millis(millis: u64) -> (d: Duration)
        requires
            millis * 1_000_000 <= u64::MAX,
        ensures
            d.ns() == millis * 1_000_000,
    {
        Duration { nanos: millis * NANOS_PER_MILLI }
    }

    pub fn from_secs(secs: u64) -> (d: Duration)
        requires
            secs * 1_000_000_000 <= u64::MAX,
        ensures
            d.ns() == secs * 1_000_000_000,
    {
        Duration { nanos: secs * 1_000_000_000 }
    }

    pub fn from_mins(mins: u64) -> (d: Duration)
        requires
            mins * 60_000_000_000 <= u64::MAX,
        ensures
            d.ns() == mins * 60_000_000_000,
    {
        Duration { nanos: mins * 60_000_000_000 }
    }

    pub fn from_hours(hours: u64) -> (d: Duration)
        requires
            hours * 3_600_000_000_000 <= u64::MAX,
        ensures
            d.ns() == hours * 3_600_000_000_000,
    {
        Duration { nanos: hours * 3_600_000_000_000 }
    }

    pub fn as_nanos(self) -> (n: u64)
        ensures
            n == self.ns(),
    {
        self.nanos
    }

    /// Whole milliseconds in the span (rounded down).
    pub fn as_millis(self) -> (m: u64)
        ensures
            m == self.ns() / 1_000_000,
    {
        self.nanos / NANOS_PER_MILLI
    }

    /// This span repeated `k` times.
    pub fn times(self, k: u64) -> (d: Duration)
        requires
            self.ns() * k <= u64::MAX,
        ensures
            d.ns() == self.ns() * k,
    {
        Duration { nanos: self.nanos * k }
    }
}

impl Instant {
    /// Nanoseconds since the timeline's origin.
    pub open spec fn ns(self) -> nat {
        self.nanos as nat
    }

    pub fn from_nanos(nanos: u64) -> (t: Instant)
        ensures
            t.ns() == nanos,
    {
        Instant { nanos }
    }

    pub fn from_millis(millis: u64) -> (t: Instant)
        requires
            millis * 1_000_000 <= u64::MAX,
        ensures
            t.ns() == millis * 1_000_000,
    {
        Instant { nanos: millis * NANOS_PER_MILLI }
    }

    pub fn as_nanos(self) -> (n: u64)
        ensures
            n == self.ns(),
    {
        self.nanos
    }

    /// The instant `d` after this one.
    pub fn plus(self, d: Duration) -> (t: Instant)
        requires
            self.ns() + d.ns() <= u64::MAX,
        ensures
            t.ns() == self.ns() + d.ns(),
    {
        Instant { nanos: self.nanos + d.nanos }
    }

    /// Time elapsed from `earlier` to `self`, in nanoseconds; zero when
    /// `earlier` is later.
    pub open spec fn elapsed_since(self, earlier: Instant) -> nat {
        if self.ns() >= earlier.ns() {
            (self.ns() - earlier.ns()) as nat
        } else {
            0
        }
    }

    pub fn duration_since(self, earlier: Instant) -> (d: Duration)
        ensures
            d.ns() == self.elapsed_since(earlier),
    {
        if self.nanos >= earlier.nanos {
            Duration { nanos: self.nanos - earlier.nanos }
        } else {
            Duration { nanos: 0 }
        }
    }
}

} // verus!
