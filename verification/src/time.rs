//! Points in time, as plain numbers.
//!
//! Nothing here reads a clock: whoever has one says what time it is.

use vstd::prelude::*;

verus! {

/// A point on a monotonic clock, in nanoseconds from an origin that all points of a
/// run share.
#[derive(Debug, Clone, Copy, PartialEq, Eq, Structural)]
pub struct Instant {
    pub nanos: u128,
}

/// The nanoseconds from `earlier` to `later`; none where `later` is not later.
pub open spec fn nanos_between(earlier: Instant, later: Instant) -> nat {
    if earlier.nanos <= later.nanos {
        (later.nanos - earlier.nanos) as nat
    } else {
        0
    }
}

/// The whole microseconds from `earlier` to `later`.
pub open spec fn micros_between(earlier: Instant, later: Instant) -> nat {
    nanos_between(earlier, later) / 1_000
}

/// The whole milliseconds from `earlier` to `later`.
pub open spec fn millis_between(earlier: Instant, later: Instant) -> nat {
    nanos_between(earlier, later) / 1_000_000
}

impl Instant {
    /// The point that many nanoseconds after the origin.
    pub fn from_nanos(nanos: u128) -> (t: Instant)
        ensures
            t.nanos == nanos,
    {
        Instant { nanos }
    }

    /// The nanoseconds since `earlier`; none where `earlier` is not earlier.
    pub fn nanos_since(&self, earlier: Instant) -> (n: u128)
        ensures
            n == nanos_between(earlier, *self),
    {
        self.nanos.saturating_sub(earlier.nanos)
    }

    /// The whole microseconds since `earlier`.
    pub fn micros_since(&self, earlier: Instant) -> (n: u128)
        ensures
            n == micros_between(earlier, *self),
    {
        self.nanos_since(earlier) / 1_000
    }

    /// The whole milliseconds since `earlier`, modulo the size of a `u64`.
    pub fn millis_since(&self, earlier: Instant) -> (n: u64)
        ensures
            n == millis_between(earlier, *self) % 0x1_0000_0000_0000_0000,
    {
        (self.nanos_since(earlier) / 1_000_000 % 0x1_0000_0000_0000_0000) as u64
    }

    /// The point `ms` milliseconds later.
    pub fn plus_millis(&self, ms: u64) -> (t: Instant)
        requires
            self.nanos + ms * 1_000_000 <= u128::MAX,
        ensures
            t.nanos == self.nanos + ms * 1_000_000,
    {
        Instant { nanos: self.nanos + ms as u128 * 1_000_000 }
    }
}

/// The time between two points is what must be added to the earlier to get to the later.
pub proof fn law_time_between_leads_to_the_later(earlier: Instant, later: Instant)
    ensures
        earlier.nanos <= later.nanos ==> earlier.nanos + nanos_between(earlier, later)
            == later.nanos,
        later.nanos <= earlier.nanos ==> nanos_between(earlier, later) == 0,
{
}

/// Whole microseconds and milliseconds: as many as fit between two points, and no fewer.
pub proof fn law_whole_units_fit(earlier: Instant, later: Instant)
    ensures
        ({
            let nanos = nanos_between(earlier, later);
            let micros = micros_between(earlier, later);
            let millis = millis_between(earlier, later);
            &&& micros * 1_000 <= nanos < (micros + 1) * 1_000
            &&& millis * 1_000_000 <= nanos < (millis + 1) * 1_000_000
        }),
{
}

} // verus!
