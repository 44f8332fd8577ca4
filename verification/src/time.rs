//! Spans of time with nanosecond resolution.
use vstd::prelude::*;

verus! {

/// Nanoseconds per second.
pub const NANOS_PER_SEC: u32 = 1_000_000_000;

/// A span of time: whole seconds and a fraction of a second in nanoseconds.
#[derive(Clone, Copy, Debug, PartialEq, Eq, PartialOrd, Ord, Structural)]
pub struct Duration {
    secs: u64,
    subsec: u32,
}

impl Duration {
    /// The fraction of a second is less than one.
    #[verifier::type_invariant]
    pub closed spec fn wf(self) -> bool {
        self.subsec < NANOS_PER_SEC
    }

    /// The span in nanoseconds.
    pub closed spec fn nanos(self) -> int {
        self.secs * NANOS_PER_SEC + self.subsec
    }

    /// The longest span.
    pub open spec fn max_nanos() -> int {
        u64::MAX * NANOS_PER_SEC + (NANOS_PER_SEC - 1)
    }

    /// A span of whole seconds and nanoseconds below one second.
    pub fn new(secs: u64, subsec: u32) -> (r: Self)
        requires
            subsec < NANOS_PER_SEC,
        ensures
            r.nanos() == secs * NANOS_PER_SEC + subsec,
    {
        Duration { secs, subsec }
    }

    pub fn from_secs(secs: u64) -> (r: Self)
        ensures
            r.nanos() == secs * 1_000_000_000,
    {
        Duration { secs, subsec: 0 }
    }

    pub fn from_millis(millis: u64) -> (r: Self)
        ensures
            r.nanos() == millis * 1_000_000,
    {
        Duration { secs: millis / 1000, subsec: (millis % 1000) as u32 * 1_000_000 }
    }

    /// No time at all.
    pub fn zero() -> (r: Self)
        ensures
            r.nanos() == 0,
    {
        Duration { secs: 0, subsec: 0 }
    }

    /// The longest span.
    pub fn max() -> (r: Self)
        ensures
            r.nanos() == Self::max_nanos(),
    {
        Duration { secs: u64::MAX, subsec: NANOS_PER_SEC - 1 }
    }

    /// A span's length is not negative, is bounded, and determines the span.
    pub proof fn lemma_bounds(self, other: Self)
        requires
            self.wf(),
            other.wf(),
        ensures
            0 <= self.nanos() <= Self::max_nanos(),
            self.nanos() == other.nanos() ==> self == other,
    {
    }

    pub fn secs(self) -> (r: u64)
        ensures
            r == self.nanos() / (NANOS_PER_SEC as int),
    {
        proof {
            use_type_invariant(self);
        }
        self.secs
    }

    pub fn subsec_nanos(self) -> (r: u32)
        ensures
            r == self.nanos() % (NANOS_PER_SEC as int),
            r < NANOS_PER_SEC,
    {
        proof {
            use_type_invariant(self);
        }
        self.subsec
    }

    pub fn is_zero(self) -> (r: bool)
        ensures
            r == (self.nanos() == 0),
    {
        proof {
            use_type_invariant(self);
        }
        self.secs == 0 && self.subsec == 0
    }

    /// Whether this span is shorter than the other.
    pub fn less(self, other: Self) -> (r: bool)
        ensures
            r == (self.nanos() < other.nanos()),
    {
        proof {
            use_type_invariant(self);
            use_type_invariant(other);
        }
        self.secs < other.secs || (self.secs == other.secs && self.subsec < other.subsec)
    }

    /// The sum, unless it is too long to be represented.
    pub fn checked_add(self, other: Self) -> (r: Option<Self>)
        ensures
            match r {
                Some(sum) => sum.nanos() == self.nanos() + other.nanos(),
                None => self.nanos() + other.nanos() > Self::max_nanos(),
            },
    {
        proof {
            use_type_invariant(self);
            use_type_invariant(other);
        }
        let carry: u64 = if self.subsec + other.subsec >= NANOS_PER_SEC {
            1
        } else {
            0
        };
        let subsec: u32 = if carry == 1 {
            self.subsec + other.subsec - NANOS_PER_SEC
        } else {
            self.subsec + other.subsec
        };
        if other.secs > u64::MAX - self.secs {
            return None;
        }
        let secs: u64 = self.secs + other.secs;
        if carry > u64::MAX - secs {
            return None;
        }
        Some(Duration { secs: secs + carry, subsec })
    }

    /// The difference, or no time where the other span is longer.
    pub fn saturating_sub(self, other: Self) -> (r: Self)
        ensures
            r.nanos() == if self.nanos() >= other.nanos() {
                self.nanos() - other.nanos()
            } else {
                0
            },
    {
        proof {
            use_type_invariant(self);
            use_type_invariant(other);
        }
        if self.secs < other.secs || (self.secs == other.secs && self.subsec < other.subsec) {
            Duration { secs: 0, subsec: 0 }
        } else if self.subsec >= other.subsec {
            Duration { secs: self.secs - other.secs, subsec: self.subsec - other.subsec }
        } else {
            Duration {
                secs: self.secs - other.secs - 1,
                subsec: NANOS_PER_SEC - (other.subsec - self.subsec),
            }
        }
    }
}

/// The whole milliseconds of a span of so many nanoseconds, at most `u64::MAX`.
pub open spec fn millis_spec(nanos: int) -> int {
    if nanos / 1_000_000 <= u64::MAX {
        nanos / 1_000_000
    } else {
        u64::MAX as int
    }
}

/// The whole milliseconds of a span, at most `u64::MAX`.
pub fn millis(duration: Duration) -> (r: u64)
    ensures
        r == millis_spec(duration.nanos()),
{
    proof {
        use_type_invariant(duration);
    }
    let fraction: u64 = (duration.subsec / 1_000_000) as u64;
    proof {
        assert(duration.nanos() / 1_000_000 == duration.secs * 1000 + fraction) by (nonlinear_arith)
            requires
                duration.nanos() == duration.secs * 1_000_000_000 + duration.subsec,
                fraction == duration.subsec / 1_000_000,
        ;
    }
    if duration.secs > (u64::MAX - fraction) / 1000 {
        u64::MAX
    } else {
        duration.secs * 1000 + fraction
    }
}

/// The earlier of the overall deadline and the end of a step's own time. All three are measured
/// from the same moment.
pub fn deadline(overall: Duration, started: Duration, timeout: Duration) -> (r: Duration)
    ensures
        r.nanos() == if started.nanos() + timeout.nanos() < overall.nanos() {
            started.nanos() + timeout.nanos()
        } else {
            overall.nanos()
        },
{
    proof {
        use_type_invariant(overall);
        overall.lemma_bounds(overall);
    }
    match started.checked_add(timeout) {
        Some(end) => if end.less(overall) {
            end
        } else {
            overall
        },
        None => overall,
    }
}

} // verus!
