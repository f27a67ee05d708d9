//! Small tests on vectors.

use crate::binary32::{is_nan, magnitude, nan};
use crate::types::{vec3_bits, vec3_lane};
use bevy_math::Vec3;
use vstd::prelude::*;

verus! {

/// The pattern of the threshold below which a lane counts as zero: the
/// binary32 value nearest to one hundred-millionth.
pub const NEAR_ZERO: u32 = 0x322B_CC77;

/// The absolute value of the lane lies below the threshold.
pub open spec fn lane_near_zero(bits: u32) -> bool {
    !is_nan(bits) && magnitude(bits) < NEAR_ZERO
}

/// Whether every lane of the vector is so close to zero that the vector
/// gives no direction.
pub fn near_zero(v: Vec3) -> (answer: bool)
    ensures
        answer == (lane_near_zero(vec3_bits(v)[0]) && lane_near_zero(vec3_bits(v)[1])
            && lane_near_zero(vec3_bits(v)[2])),
{
    small(vec3_lane(&v, 0)) && small(vec3_lane(&v, 1)) && small(vec3_lane(&v, 2))
}

fn small(bits: u32) -> (answer: bool)
    ensures
        answer == lane_near_zero(bits),
{
    let m: u32 = if bits >= 0x8000_0000 {
        bits - 0x8000_0000
    } else {
        bits
    };
    !nan(bits) && m < NEAR_ZERO
}

} // verus!
