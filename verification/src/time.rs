//! Spans of time.

use vstd::prelude::*;

verus! {

/// A span of time, to the nanosecond.
#[derive(Clone, Copy, Debug, PartialEq, Eq, Structural)]
pub struct Duration {
    pub secs: u64,
    pub nanos: u32,
}

pub const NANOS_PER_MILLI: u32 = 1_000_000;

impl Duration {
    /// The part below a second is less than a second.
    pub open spec fn wf(self) -> bool {
        self.nanos < 1_000_000_000
    }

    /// The whole milliseconds of the span.
    pub open spec fn millis(self) -> nat {
        (self.secs * 1000 + self.nanos / NANOS_PER_MILLI) as nat
    }

    /// No time at all.
    pub open spec fn zero(self) -> bool {
        self.secs == 0 && self.nanos == 0
    }

    pub fn from_secs(secs: u64) -> (d: Self)
        ensures
            d == (Duration { secs, nanos: 0 }),
    {
        Duration { secs, nanos: 0 }
    }

    pub fn from_millis(millis: u64) -> (d: Self)
        ensures
            d.wf(),
            d.millis() == millis,
            d.nanos % NANOS_PER_MILLI == 0,
    {
        let d = Duration { secs: millis / 1000, nanos: (millis % 1000) as u32 * NANOS_PER_MILLI };
        assert(d.nanos / NANOS_PER_MILLI == millis % 1000 && d.nanos % NANOS_PER_MILLI == 0)
            by (nonlinear_arith)
            requires
                d.nanos == (millis % 1000) * 1_000_000,
        ;
        d
    }

    pub fn is_zero(self) -> (zero: bool)
        ensures
            zero == self.zero(),
    {
        self.secs == 0 && self.nanos == 0
    }

    pub fn as_millis(self) -> (millis: u128)
        ensures
            millis == self.millis(),
    {
        self.secs as u128 * 1000 + (self.nanos / NANOS_PER_MILLI) as u128
    }

    /// The whole milliseconds, or the largest number of 32 bits where there are more.
    pub fn as_millis_u32(self) -> (millis: u32)
        ensures
            millis == (if self.millis() <= u32::MAX {
                self.millis() as u32
            } else {
                u32::MAX
            }),
    {
        let millis: u128 = self.as_millis();
        if millis <= u32::MAX as u128 {
            millis as u32
        } else {
            u32::MAX
        }
    }
}

/// A thousand milliseconds are a second, a million nanoseconds a millisecond, and only no time at
/// all is none.
pub proof fn law_milliseconds(secs: u64, millis: u32, nanos: u32)
    requires
        millis < 1000,
        nanos < 1_000_000,
    ensures
        ({
            let d = Duration { secs, nanos: (millis * 1_000_000 + nanos) as u32 };
            &&& d.wf()
            &&& d.millis() == secs * 1000 + millis
            &&& d.zero() <==> secs == 0 && millis == 0 && nanos == 0
        }),
{
    assert((millis * 1_000_000 + nanos) / 1_000_000 == millis);
}

} // verus!
