//! Spans of time.

use vstd::prelude::*;

verus! {

/// Nanoseconds in one second.
pub const NANOS_PER_SEC: u128 = 1_000_000_000;

/// Nanoseconds in one millisecond.
pub const NANOS_PER_MILLI: u128 = 1_000_000;

/// The longest representable span: `u64::MAX` whole seconds and 999999999 ns.
pub const MAX_NANOS: u128 = 18_446_744_073_709_551_615_999_999_999;

/// A span of time with nanosecond resolution.
///
/// It covers the same range as a 64-bit count of seconds with a sub-second part;
/// its view is the number of nanoseconds.
#[derive(Clone, Copy, PartialEq, Eq, PartialOrd, Ord, Hash, Debug, Structural)]
pub struct Duration {
    pub(crate) nanos: u128,
}

impl View for Duration {
    type V = nat;

    open(crate) spec fn view(&self) -> nat {
        self.nanos as nat
    }
}

impl Duration {
    /// No span leaves the representable range.
    #[verifier::type_invariant]
    pub open(crate) spec fn in_range(self) -> bool {
        self.nanos <= MAX_NANOS
    }

    /// The span of `nanos` nanoseconds.
    pub open(crate) spec fn of_nanos(nanos: nat) -> Duration {
        Duration { nanos: nanos as u128 }
    }

    /// The empty span.
    pub fn zero() -> (d: Duration)
        ensures
            d@ == 0,
    {
        Duration { nanos: 0 }
    }

    /// The longest span.
    pub fn max() -> (d: Duration)
        ensures
            d@ == MAX_NANOS,
            d@ == 18_446_744_073_709_551_615_999_999_999,
    {
        Duration { nanos: MAX_NANOS }
    }

    /// `secs` whole seconds.
    pub fn from_secs(secs: u64) -> (d: Duration)
        ensures
            d@ == secs * NANOS_PER_SEC,
            d@ == secs * 1_000_000_000,
    {
        Duration { nanos: secs as u128 * NANOS_PER_SEC }
    }

    /// `millis` whole milliseconds.
    pub fn from_millis(millis: u64) -> (d: Duration)
        ensures
            d@ == millis * NANOS_PER_MILLI,
            d@ == millis * 1_000_000,
    {
        Duration { nanos: millis as u128 * NANOS_PER_MILLI }
    }

    /// `secs` seconds and `subsec_nanos` nanoseconds, or `None` if the second
    /// part is a whole second or more.
    pub fn from_parts(secs: u64, subsec_nanos: u32) -> (d: Option<Duration>)
        ensures
            d is Some <==> subsec_nanos < NANOS_PER_SEC,
            d matches Some(d) ==> d@ == secs * NANOS_PER_SEC + subsec_nanos,
            d matches Some(d) ==> d@ == secs * 1_000_000_000 + subsec_nanos,
    {
        if (subsec_nanos as u128) < NANOS_PER_SEC {
            Some(Duration { nanos: secs as u128 * NANOS_PER_SEC + subsec_nanos as u128 })
        } else {
            None
        }
    }

    /// The span of `nanos` nanoseconds, which must be in range.
    pub(crate) fn from_nanos(nanos: u128) -> (d: Duration)
        requires
            nanos <= MAX_NANOS,
        ensures
            d@ == nanos,
    {
        Duration { nanos }
    }

    /// The whole seconds of the span.
    pub fn as_secs(self) -> (s: u64)
        ensures
            s == self@ / (NANOS_PER_SEC as nat),
            s == self@ / 1_000_000_000,
    {
        proof {
            use_type_invariant(&self);
        }
        (self.nanos / NANOS_PER_SEC) as u64
    }

    /// What is left of the span beyond its whole seconds, in nanoseconds.
    pub fn subsec_nanos(self) -> (n: u32)
        ensures
            n == self@ % (NANOS_PER_SEC as nat),
            n < NANOS_PER_SEC,
            n == self@ % 1_000_000_000,
    {
        (self.nanos % NANOS_PER_SEC) as u32
    }

    /// Whether the span is empty.
    pub fn is_zero(self) -> (b: bool)
        ensures
            b == (self@ == 0),
    {
        self.nanos == 0
    }

    /// Whether the span is at least as long as `other`.
    pub fn at_least(self, other: Duration) -> (b: bool)
        ensures
            b == (self@ >= other@),
    {
        self.nanos >= other.nanos
    }

    /// Whether the span is longer than `other`.
    pub fn exceeds(self, other: Duration) -> (b: bool)
        ensures
            b == (self@ > other@),
    {
        self.nanos > other.nanos
    }

    /// `self * factor`, or the longest span if that is out of range.
    pub fn saturating_mul(self, factor: u32) -> (d: Duration)
        ensures
            d@ == if self@ * factor <= MAX_NANOS {
                (self@ * factor) as nat
            } else {
                MAX_NANOS as nat
            },
    {
        proof {
            use_type_invariant(&self);
            assert(self.nanos * factor <= MAX_NANOS * 0xffff_ffff) by (nonlinear_arith)
                requires
                    self.nanos <= MAX_NANOS,
                    factor <= 0xffff_ffff,
            ;
        }
        let product: u128 = self.nanos * factor as u128;
        if product <= MAX_NANOS {
            Duration { nanos: product }
        } else {
            Duration { nanos: MAX_NANOS }
        }
    }
}

/// The text that `{:?}` makes of a span of `secs` seconds and `nanos` nanoseconds.
pub uninterp spec fn duration_debug(secs: u64, nanos: u32) -> Seq<char>;

/// The `Debug` of `std::time::Duration` writes the span with a unit that suits it. What
/// comes out depends on the span alone; it is named here and not spelled out.
#[verifier::external_body]
pub(crate) fn debug_duration(secs: u64, nanos: u32) -> (s: String)
    requires
        nanos < 1_000_000_000,
    ensures
        s@ == duration_debug(secs, nanos),
{
    format!("{:?}", std::time::Duration::new(secs, nanos))
}

impl Duration {
    /// The span as text.
    pub open(crate) spec fn shown(self) -> Seq<char> {
        duration_debug(
            (self@ / (NANOS_PER_SEC as nat)) as u64,
            (self@ % (NANOS_PER_SEC as nat)) as u32,
        )
    }

    /// The span as text, with a unit that suits it.
    pub fn show(self) -> (s: String)
        ensures
            s@ == self.shown(),
    {
        debug_duration(self.as_secs(), self.subsec_nanos())
    }
}

} // verus!
