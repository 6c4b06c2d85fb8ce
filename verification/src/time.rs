//! Spans of time with nanosecond resolution.

use vstd::prelude::*;

verus! {

/// Nanoseconds in one second.
pub const NANOS_PER_SEC: u128 = 1_000_000_000;

/// Nanoseconds in one millisecond.
pub const NANOS_PER_MILLI: u128 = 1_000_000;

/// The longest span a [`Duration`] can hold: `u64::MAX` seconds, in nanoseconds.
pub const MAX_NANOS: u128 = 18_446_744_073_709_551_615_000_000_000;

/// A span of time, or a point on a timeline counted from its origin,
/// held as a whole number of nanoseconds.
///
/// Every value is at most [`MAX_NANOS`], so sums of a handful of durations
/// never leave the range of `u128`.
#[derive(Clone, Copy, Debug)]
pub struct Duration {
    nanos: u128,
}

impl View for Duration {
    type V = nat;

    /// The span in nanoseconds.
    closed spec fn view(&self) -> nat {
        self.nanos as nat
    }
}

impl Duration {
    #[verifier::type_invariant]
    spec fn in_range(self) -> bool {
        self.nanos <= MAX_NANOS
    }

    /// The span of `secs` whole seconds.
    pub fn from_secs(secs: u64) -> (d: Duration)
        ensures
            d@ == secs * 1_000_000_000,
    {
        let wide: u128 = secs as u128;
        Duration { nanos: wide * NANOS_PER_SEC }
    }

    /// The span of `millis` whole milliseconds.
    pub fn from_millis(millis: u64) -> (d: Duration)
        ensures
            d@ == millis * 1_000_000,
    {
        let wide: u128 = millis as u128;
        Duration { nanos: wide * NANOS_PER_MILLI }
    }

    /// The span of `nanos` nanoseconds.
    pub fn from_nanos(nanos: u64) -> (d: Duration)
        ensures
            d@ == nanos,
    {
        Duration { nanos: nanos as u128 }
    }

    /// The sum of the two spans, or `None` where it lies beyond [`MAX_NANOS`].
    pub fn checked_add(self, other: Duration) -> (sum: Option<Duration>)
        ensures
            match sum {
                Some(sum) => sum@ == self@ + other@,
                None => self@ + other@ > MAX_NANOS,
            },
    {
        proof {
            use_type_invariant(self);
            use_type_invariant(other);
        }
        let nanos = self.nanos + other.nanos;
        if nanos <= MAX_NANOS {
            Some(Duration { nanos })
        } else {
            None
        }
    }

    /// What is left of the span when `other` is taken off, or `None` where
    /// `other` is the longer one.
    pub fn checked_sub(self, other: Duration) -> (rest: Option<Duration>)
        ensures
            match rest {
                Some(rest) => rest@ == self@ - other@,
                None => self@ < other@,
            },
    {
        proof {
            use_type_invariant(self);
        }
        if self.nanos >= other.nanos {
            Some(Duration { nanos: self.nanos - other.nanos })
        } else {
            None
        }
    }

    /// The whole span in nanoseconds.
    pub fn as_nanos(&self) -> (n: u128)
        ensures
            n == self@,
            n <= MAX_NANOS,
    {
        proof {
            use_type_invariant(self);
        }
        self.nanos
    }

    /// The whole milliseconds in the span; what is left of a millisecond is dropped.
    pub fn as_millis(&self) -> (n: u128)
        ensures
            n == self@ / 1_000_000,
    {
        self.nanos / NANOS_PER_MILLI
    }

    /// The whole seconds in the span; what is left of a second is dropped.
    pub fn as_secs(&self) -> (n: u64)
        ensures
            n == self@ / 1_000_000_000,
    {
        proof {
            use_type_invariant(self);
        }
        (self.nanos / NANOS_PER_SEC) as u64
    }
}

} // verus!
