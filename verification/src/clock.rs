//! Points of the monotonic clock and the time between them.

use vstd::prelude::*;

verus! {

/// A reading of a monotonic clock, in nanoseconds from some fixed origin.
#[derive(Clone, Copy, Debug, PartialEq, Eq, Structural)]
pub struct Moment {
    pub nanos: u128,
}

/// The nanoseconds from `since` to `now`; zero if `since` is the later one.
pub open spec fn elapsed(now: Moment, since: Moment) -> int {
    if now.nanos >= since.nanos {
        now.nanos - since.nanos
    } else {
        0
    }
}

/// `secs` seconds, in nanoseconds.
pub open spec fn seconds(secs: u64) -> int {
    secs * 1_000_000_000
}

impl Moment {
    /// Whether at least `secs` seconds have gone by from `since` to `self`.
    pub fn at_least_since(&self, since: &Moment, secs: u64) -> (res: bool)
        ensures
            res == (elapsed(*self, *since) >= seconds(secs)),
            res == (self.nanos - since.nanos >= secs * 1_000_000_000 || secs == 0),
    {
        let gone: u128 = if self.nanos >= since.nanos {
            self.nanos - since.nanos
        } else {
            0
        };
        gone >= secs as u128 * 1_000_000_000
    }

    /// Whether at most `secs` seconds have gone by from `since` to `self`.
    pub fn at_most_since(&self, since: &Moment, secs: u64) -> (res: bool)
        ensures
            res == (elapsed(*self, *since) <= seconds(secs)),
            res == (self.nanos - since.nanos <= secs * 1_000_000_000),
    {
        let gone: u128 = if self.nanos >= since.nanos {
            self.nanos - since.nanos
        } else {
            0
        };
        gone <= secs as u128 * 1_000_000_000
    }
}

/// The time gone by is what must be added to the earlier reading to get to the later one, and none
/// if the readings are the other way round.
pub proof fn law_time_gone(now: Moment, since: Moment)
    ensures
        now.nanos >= since.nanos ==> since.nanos + elapsed(now, since) == now.nanos,
        now.nanos < since.nanos ==> elapsed(now, since) == 0,
{
}

/// Whether at least, or at most, some seconds have gone by is a matter of the nanoseconds between
/// the two readings, for any number of seconds: a second has 1,000,000,000 of them. At least no
/// time has always gone by.
pub proof fn law_seconds_gone(now: Moment, since: Moment, secs: u64)
    ensures
        elapsed(now, since) >= seconds(secs) <==> now.nanos - since.nanos >= secs * 1_000_000_000
            || secs == 0,
        elapsed(now, since) <= seconds(secs) <==> now.nanos - since.nanos <= secs * 1_000_000_000,
        seconds(secs) == secs * 1_000_000_000,
{
}

} // verus!
