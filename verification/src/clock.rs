//! Time, in nanoseconds since the run began.
use vstd::prelude::*;

verus! {

/// One second.
pub const SECOND: u128 = 1_000_000_000;

/// One millisecond.
pub const MILLISECOND: u128 = 1_000_000;

/// The longest time that can have passed since the run began: the longest
/// `std::time::Duration`.
pub const MAX_ELAPSED: u128 = 18_446_744_073_709_551_615_999_999_999;

/// What is left until `moment`, nothing once it is past.
pub open spec fn left(moment: u128, now: u128) -> u128 {
    if moment > now {
        (moment - now) as u128
    } else {
        0
    }
}

/// What is left until `moment`, nothing once it is past.
pub fn time_left(moment: u128, now: u128) -> (r: u128)
    ensures
        r == left(moment, now),
{
    if moment > now {
        moment - now
    } else {
        0
    }
}

/// The earlier of two moments.
pub open spec fn earlier(a: u128, b: u128) -> u128 {
    if a <= b {
        a
    } else {
        b
    }
}

/// The earlier of two moments.
pub fn earlier_of(a: u128, b: u128) -> (r: u128)
    ensures
        r == earlier(a, b),
{
    if a <= b {
        a
    } else {
        b
    }
}

/// What is left reaches exactly to the moment, and is nothing once the moment is there.
pub proof fn law_left_reaches_the_moment(moment: u128, now: u128)
    ensures
        now < moment ==> now + left(moment, now) == moment,
        moment <= now ==> left(moment, now) == 0,
{
}

/// The earlier of two moments is one of them, and later than neither.
pub proof fn law_earlier_is_the_least(a: u128, b: u128)
    ensures
        earlier(a, b) == a || earlier(a, b) == b,
        earlier(a, b) <= a,
        earlier(a, b) <= b,
{
}

} // verus!
