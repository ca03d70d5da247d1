//! Instants as whole seconds since the Unix epoch, and whole days between them.

use vstd::prelude::*;

verus! {

/// Seconds in a day.
pub const DAY_SECS: i64 = 86_400;

/// The whole days from `then` to `now`, rounded toward zero.
pub open spec fn days_between(now: int, then: int) -> int {
    if now >= then {
        (now - then) / (DAY_SECS as int)
    } else {
        -((then - now) / (DAY_SECS as int))
    }
}

/// The whole days from `then` to `now`, rounded toward zero.
pub fn whole_days_between(now: i64, then: i64) -> (r: i64)
    ensures
        r == days_between(now as int, then as int),
{
    let diff: i128 = now as i128 - then as i128;
    if diff >= 0 {
        (diff / (DAY_SECS as i128)) as i64
    } else {
        let back: i128 = -diff;
        -((back / (DAY_SECS as i128)) as i64)
    }
}

/// The day, counted from the Unix epoch, on which an instant falls.
pub open spec fn day_of(t: int) -> int {
    t / (DAY_SECS as int)
}

/// The day, counted from the Unix epoch, on which an instant falls.
pub fn day_number(t: i64) -> (r: i64)
    ensures
        r == day_of(t as int),
{
    let q = (t as i128) / (DAY_SECS as i128);
    let rem = (t as i128) % (DAY_SECS as i128);
    if rem < 0 {
        (q - 1) as i64
    } else {
        q as i64
    }
}

} // verus!
