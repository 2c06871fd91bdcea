//! Points in time and time spans, in microseconds, as wide as the packet header
//! carries them.
use vstd::prelude::*;

verus! {

/// A point in time, in microseconds, modulo 2^32.
#[derive(Debug, Clone, Copy, PartialEq, Eq, Structural)]
pub struct Timestamp(pub u32);

/// A time span in microseconds.
#[derive(Debug, Clone, Copy, PartialEq, Eq, Structural)]
pub struct Delay(pub u32);

/// The distance between two points in time, whichever comes first.
pub open spec fn distance(a: Timestamp, b: Timestamp) -> Delay {
    if a.0 > b.0 {
        Delay((a.0 - b.0) as u32)
    } else {
        Delay((b.0 - a.0) as u32)
    }
}

/// The distance between two points in time, whichever comes first.
pub fn abs_diff(a: Timestamp, b: Timestamp) -> (d: Delay)
    ensures
        d == distance(a, b),
{
    if a.0 > b.0 {
        Delay(a.0 - b.0)
    } else {
        Delay(b.0 - a.0)
    }
}

/// The distance between two points in time does not depend on their order.
pub proof fn distance_is_symmetric(a: Timestamp, b: Timestamp)
    ensures
        distance(a, b) == distance(b, a),
{
}

} // verus!
