//! Points in time and spans between them, in nanoseconds.
use vstd::prelude::*;

verus! {

/// A span of time.
#[derive(Clone, Copy, Debug, PartialEq, Eq, Structural, Hash)]
pub struct Duration {
    pub nanos: u64,
}

/// A point in time, counted from a fixed one in the past.
#[derive(Clone, Copy, Debug, PartialEq, Eq, Structural, Hash)]
pub struct Instant {
    pub nanos: u64,
}

impl Duration {
    /// This many milliseconds.
    pub fn from_millis(millis: u64) -> (span: Duration)
        requires
            millis * 1_000_000 <= u64::MAX,
        ensures
            span.nanos == millis * 1_000_000,
    {
        Duration { nanos: millis * 1_000_000 }
    }
}

impl Instant {
    /// The point this span later.
    pub fn plus(self, span: Duration) -> (later: Instant)
        requires
            self.nanos + span.nanos <= u64::MAX,
        ensures
            later.nanos == self.nanos + span.nanos,
    {
        Instant { nanos: self.nanos + span.nanos }
    }

    /// How long after another point this one is; nothing if it is before it.
    pub open spec fn spec_since(self, earlier: Instant) -> int {
        if self.nanos >= earlier.nanos {
            self.nanos - earlier.nanos
        } else {
            0
        }
    }

    /// How long after another point this one is; nothing if it is before it.
    pub fn since(self, earlier: Instant) -> (span: Duration)
        ensures
            span.nanos == self.spec_since(earlier),
    {
        if self.nanos >= earlier.nanos {
            Duration { nanos: self.nanos - earlier.nanos }
        } else {
            Duration { nanos: 0 }
        }
    }
}

} // verus!
