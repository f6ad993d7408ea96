//! Turning mouse-wheel rotation into whole zoom steps. Fine-grained wheels report
//! fractions of a notch; they are summed until a whole notch has turned, and a change of
//! direction discards the fraction turned the other way.

use vstd::prelude::*;
use crate::chrome::div_toward_zero;

verus! {

/// Wheel rotation of one notch.
pub const WHEEL_DELTA: i32 = 120;

/// -1, 0 or 1 by the sign of `value`.
pub open spec fn sign(value: int) -> int {
    if value > 0 {
        1
    } else if value < 0 {
        -1
    } else {
        0
    }
}

/// The rotation still owed before `delta` is added: the kept fraction, or nothing when it
/// was turned in the other direction.
pub open spec fn kept_rotation(remainder: int, delta: int) -> int {
    if remainder != 0 && sign(remainder) != sign(delta) {
        0
    } else {
        remainder
    }
}

/// The whole notches and the fraction left after adding `delta` to the kept `remainder`;
/// no rotation leaves everything as it was.
pub open spec fn wheel_steps(remainder: int, delta: int) -> (int, int) {
    if delta == 0 {
        (0, remainder)
    } else {
        let total = kept_rotation(remainder, delta) + delta;
        let steps = div_toward_zero(total, WHEEL_DELTA as int);
        (steps, total - WHEEL_DELTA * steps)
    }
}

/// Adds a wheel rotation of `delta` to the fraction `remainder` left from earlier
/// rotations and returns the whole notches turned and the new fraction.
pub fn accumulate_wheel(remainder: i32, delta: i16) -> (r: (i32, i32))
    requires
        i32::MIN <= remainder + delta <= i32::MAX,
    ensures
        r.0 == wheel_steps(remainder as int, delta as int).0,
        r.1 == wheel_steps(remainder as int, delta as int).1,
        -WHEEL_DELTA < remainder < WHEEL_DELTA ==> -WHEEL_DELTA < r.1 < WHEEL_DELTA,
{
    let delta: i32 = delta as i32;
    if delta == 0 {
        return (0, remainder);
    }
    let mut total: i32 = remainder;
    if remainder != 0 && ((remainder > 0) != (delta > 0)) {
        total = 0;
    }
    total = total + delta;
    let steps: i32 = total / WHEEL_DELTA;
    let rest: i32 = total % WHEEL_DELTA;
    assert(rest == total - WHEEL_DELTA * steps);
    (steps, rest)
}

/// The fraction kept between rotations never reaches a whole notch, and it is never turned
/// against the last rotation.
pub proof fn wheel_fraction_stays_below_a_notch(remainder: int, delta: int)
    requires
        -WHEEL_DELTA < remainder < WHEEL_DELTA,
        delta != 0,
    ensures
        -WHEEL_DELTA < wheel_steps(remainder, delta).1 < WHEEL_DELTA,
        wheel_steps(remainder, delta).1 == 0 || sign(wheel_steps(remainder, delta).1) == sign(
            delta,
        ),
{
}

} // verus!
