//! Points on a monotonic clock.

use vstd::prelude::*;

verus! {

/// Nanoseconds in one millisecond.
pub const NANOS_PER_MILLI: u128 = 1_000_000;

/// Nanoseconds in one second.
pub const NANOS_PER_SEC: u128 = 1_000_000_000;

/// A reading of a monotonic clock, in nanoseconds since an origin that the
/// clock's owner chose.
#[derive(Debug, Clone, Copy)]
pub struct Timestamp {
    /// Nanoseconds since the clock's origin.
    pub nanos: u128,
}

impl View for Timestamp {
    type V = int;

    open spec fn view(&self) -> int {
        self.nanos as int
    }
}

/// A number of milliseconds, in nanoseconds.
pub open spec fn millis(ms: int) -> int {
    ms * NANOS_PER_MILLI
}

/// A number of seconds, in nanoseconds.
pub open spec fn seconds(secs: int) -> int {
    secs * NANOS_PER_SEC
}

impl Timestamp {
    /// The reading `ms` milliseconds later.
    pub fn plus_millis(self, ms: u64) -> (later: Timestamp)
        requires
            self@ + millis(ms as int) <= u128::MAX,
        ensures
            later@ == self@ + millis(ms as int),
    {
        Timestamp { nanos: self.nanos + ms as u128 * NANOS_PER_MILLI }
    }

    /// The reading `secs` seconds later.
    pub fn plus_secs(self, secs: u64) -> (later: Timestamp)
        requires
            self@ + seconds(secs as int) <= u128::MAX,
        ensures
            later@ == self@ + seconds(secs as int),
    {
        Timestamp { nanos: self.nanos + secs as u128 * NANOS_PER_SEC }
    }
}

/// A millisecond is a million nanoseconds, a second a thousand milliseconds, and
/// times add up.
pub proof fn law_times_add_up(a: int, b: int)
    ensures
        millis(a + 1) - millis(a) == 1_000_000,
        seconds(a) == millis(1000 * a),
        millis(a + b) == millis(a) + millis(b),
        millis(0) == 0,
{
}

} // verus!
