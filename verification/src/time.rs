//! Spans and points of time, counted in nanoseconds.
//!
//! A [`Duration`] covers what 64 bits of seconds and a nanosecond part can
//! express. An [`Instant`] is a reading of a clock whose origin the caller
//! picks: only differences between readings of one clock mean anything.

use vstd::prelude::*;

verus! {

/// The longest span there is, in nanoseconds: `u64::MAX` seconds and
/// 999,999,999 nanoseconds.
pub const NANOS_MAX: u128 = 18_446_744_073_709_551_615_999_999_999;

const NANOS_PER_SEC: u128 = 1_000_000_000;

const NANOS_PER_MILLI: u128 = 1_000_000;

const NANOS_PER_MICRO: u128 = 1_000;

/// A span of time. Its view is its length in nanoseconds.
#[derive(Debug, Clone, Copy, PartialEq, Eq, PartialOrd, Ord, Hash)]
pub struct Duration {
    nanos: u128,
}

impl View for Duration {
    type V = nat;

    closed spec fn view(&self) -> nat {
        self.nanos as nat
    }
}

/// The longer of zero and the span from `earlier` to `later`.
pub open spec fn span(earlier: nat, later: nat) -> nat {
    if earlier <= later {
        (later - earlier) as nat
    } else {
        0
    }
}

impl Duration {
    #[verifier::type_invariant]
    spec fn in_range(self) -> bool {
        self.nanos <= NANOS_MAX
    }

    /// No time at all.
    pub fn zero() -> (span: Duration)
        ensures
            span@ == 0,
    {
        Duration { nanos: 0 }
    }

    /// `secs` seconds and `nanos` nanoseconds.
    pub fn new(secs: u64, nanos: u32) -> (span: Duration)
        requires
            secs * 1_000_000_000 + nanos <= NANOS_MAX,
        ensures
            span@ == secs * 1_000_000_000 + nanos,
    {
        Duration { nanos: secs as u128 * NANOS_PER_SEC + nanos as u128 }
    }

    pub fn from_secs(secs: u64) -> (span: Duration)
        ensures
            span@ == secs * 1_000_000_000,
    {
        Duration { nanos: secs as u128 * NANOS_PER_SEC }
    }

    pub fn from_millis(millis: u64) -> (span: Duration)
        ensures
            span@ == millis * 1_000_000,
    {
        Duration { nanos: millis as u128 * NANOS_PER_MILLI }
    }

    pub fn from_micros(micros: u64) -> (span: Duration)
        ensures
            span@ == micros * 1_000,
    {
        Duration { nanos: micros as u128 * NANOS_PER_MICRO }
    }

    /// The length in nanoseconds.
    pub fn as_nanos(self) -> (nanos: u128)
        ensures
            nanos == self@,
            nanos <= NANOS_MAX,
    {
        proof {
            use_type_invariant(&self);
        }
        self.nanos
    }

    /// The whole seconds of the span.
    pub fn as_secs(self) -> (secs: u64)
        ensures
            secs == self@ / 1_000_000_000,
    {
        proof {
            use_type_invariant(&self);
        }
        (self.nanos / NANOS_PER_SEC) as u64
    }

    /// The nanoseconds of the span beyond its whole seconds.
    pub fn subsec_nanos(self) -> (nanos: u32)
        ensures
            nanos == self@ % 1_000_000_000,
            nanos < 1_000_000_000,
    {
        (self.nanos % NANOS_PER_SEC) as u32
    }

    pub fn is_zero(self) -> (zero: bool)
        ensures
            zero == (self@ == 0),
    {
        self.nanos == 0
    }

    /// The shorter of two spans.
    pub fn min(self, other: Duration) -> (shorter: Duration)
        ensures
            shorter@ == if self@ <= other@ {
                self@
            } else {
                other@
            },
    {
        if self.nanos <= other.nanos {
            self
        } else {
            other
        }
    }

    /// Two spans end to end.
    pub fn plus(self, other: Duration) -> (sum: Duration)
        requires
            self@ + other@ <= NANOS_MAX,
        ensures
            sum@ == self@ + other@,
    {
        Duration { nanos: self.nanos + other.nanos }
    }
}

/// A reading of a clock. Its view is the time since the clock's origin, in
/// nanoseconds.
#[derive(Debug, Clone, Copy, PartialEq, Eq, PartialOrd, Ord, Hash)]
pub struct Instant {
    since_origin: Duration,
}

impl View for Instant {
    type V = nat;

    closed spec fn view(&self) -> nat {
        self.since_origin@
    }
}

impl Instant {
    /// The reading at `since_origin` after the clock's origin.
    pub fn after_origin(since_origin: Duration) -> (at: Instant)
        ensures
            at@ == since_origin@,
    {
        Instant { since_origin }
    }

    /// The time that passed between two readings, or zero when `earlier` is
    /// not the earlier one.
    pub fn duration_since(self, earlier: Instant) -> (passed: Duration)
        ensures
            passed@ == span(earlier@, self@),
            earlier@ <= NANOS_MAX,
            self@ <= NANOS_MAX,
    {
        let from: u128 = earlier.since_origin.as_nanos();
        let to: u128 = self.since_origin.as_nanos();
        if from <= to {
            Duration { nanos: to - from }
        } else {
            Duration { nanos: 0 }
        }
    }

    /// The reading `later` after this one.
    pub fn plus(self, later: Duration) -> (at: Instant)
        requires
            self@ + later@ <= NANOS_MAX,
        ensures
            at@ == self@ + later@,
    {
        Instant { since_origin: self.since_origin.plus(later) }
    }

    /// Whether this reading is not before `other`.
    pub fn reached(self, other: Instant) -> (reached: bool)
        ensures
            reached == (self@ >= other@),
    {
        self.since_origin.as_nanos() >= other.since_origin.as_nanos()
    }
}

/// A span is what lies between two points: it leads from the earlier one to the
/// later one, and from no point back to one before it.
pub proof fn law_a_span_leads_from_the_earlier_to_the_later(earlier: nat, later: nat)
    ensures
        earlier <= later ==> earlier + span(earlier, later) == later,
        later <= earlier ==> span(earlier, later) == 0,
{
}

/// The longest span is the longest that seconds in 64 bits and a nanosecond part
/// can express.
pub proof fn law_the_longest_span_is_what_seconds_and_nanoseconds_express()
    ensures
        NANOS_MAX == u64::MAX * 1_000_000_000 + 999_999_999,
{
}

} // verus!
