//! Differences of the time stamps that input events carry.

use vstd::prelude::*;

verus! {

/// A time stamp in seconds and microseconds.
#[derive(Debug, Clone, Copy, PartialEq, Eq, Structural)]
pub struct TimeVal {
    /// Whole seconds.
    pub tv_sec: i64,
    /// Microseconds beyond the whole seconds.
    pub tv_usec: i64,
}

/// The time from `b` to `a`, in microseconds.
pub open spec fn micros_between(a: TimeVal, b: TimeVal) -> int {
    (a.tv_sec - b.tv_sec) * 1_000_000 + (a.tv_usec - b.tv_usec)
}

/// The time from `b` to `a`, in microseconds; negative where `a` is the
/// earlier.
pub fn diff_micros(a: &TimeVal, b: &TimeVal) -> (d: i128)
    ensures
        d == micros_between(*a, *b),
{
    (a.tv_sec as i128 - b.tv_sec as i128) * 1_000_000 + (a.tv_usec as i128 - b.tv_usec as i128)
}

} // verus!
