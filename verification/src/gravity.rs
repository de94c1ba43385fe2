//! The pull that a ship feels at a position: one unit toward the centre along
//! the axis (or both axes) on which it is farthest out.

use vstd::prelude::*;

verus! {

pub open spec fn abs_i(v: int) -> int {
    if v < 0 {
        -v
    } else {
        v
    }
}

/// One unit toward zero: `1` for a negative coordinate, `-1` otherwise.
pub open spec fn toward_zero(v: int) -> int {
    if v < 0 {
        1
    } else {
        -1
    }
}

/// The gravity at `(x, y)`. `i32::MIN` has no absolute value in `i32`, where
/// the computation panics; `requires` leaves it out.
pub fn gravity(x: i32, y: i32) -> (r: (i32, i32))
    requires
        x != i32::MIN,
        y != i32::MIN,
    ensures
        r.0 == (if abs_i(x as int) >= abs_i(y as int) { toward_zero(x as int) } else { 0 }),
        r.1 == (if abs_i(x as int) <= abs_i(y as int) { toward_zero(y as int) } else { 0 }),
{
    let ax: i32 = if x < 0 { -x } else { x };
    let ay: i32 = if y < 0 { -y } else { y };
    (
        if ax >= ay {
            if x < 0 {
                1
            } else {
                -1
            }
        } else {
            0
        },
        if ax <= ay {
            if y < 0 {
                1
            } else {
                -1
            }
        } else {
            0
        },
    )
}

} // verus!
