//! The axis-aligned rectangle: whether the point where a ray meets its
//! plane counts as a hit.

use crate::binary32::{less, value_lt};
use crate::obj::{in_reach, within_reach};
use vstd::prelude::*;

verus! {

/// The point `(a, b)` of the plane lies in the rectangle from `(a0, b0)` to
/// `(a1, b1)`, its edges included: on neither axis below the one bound or
/// above the other.
pub open spec fn rect_holds(a: u32, a0: u32, a1: u32, b: u32, b0: u32, b1: u32) -> bool {
    !(value_lt(a, a0) || value_lt(a1, a) || value_lt(b, b0) || value_lt(b1, b))
}

/// Whether a ray that meets the plane of a rectangle at distance `t`, in
/// the point `(a, b)`, strikes the rectangle within the open interval from
/// `t_min` to `t_max`. All numbers are bit patterns.
pub fn rect_struck(
    t: u32,
    t_min: u32,
    t_max: u32,
    a: u32,
    a0: u32,
    a1: u32,
    b: u32,
    b0: u32,
    b1: u32,
) -> (struck: bool)
    ensures
        struck == (within_reach(t, t_min, t_max) && rect_holds(a, a0, a1, b, b0, b1)),
{
    in_reach(t, t_min, t_max) && !(less(a, a0) || less(a1, a) || less(b, b0) || less(b1, b))
}

/// A point below the rectangle's least bound on either axis is no hit.
pub proof fn lemma_point_outside_rect_misses(a: u32, a0: u32, a1: u32, b: u32, b0: u32, b1: u32)
    requires
        value_lt(a, a0) || value_lt(a1, a) || value_lt(b, b0) || value_lt(b1, b),
    ensures
        !rect_holds(a, a0, a1, b, b0, b1),
{
}

} // verus!
