//! What a surface decides once the numbers are in.

use crate::binary32::{less, value_lt};
use crate::types::ONE;
use vstd::prelude::*;

verus! {

/// A metal surface sends a ray on only where the ray leaves it: where the
/// scattered direction and the normal, multiplied lane by lane and summed,
/// come to more than zero. All else is absorbed.
pub open spec fn leaves_surface(dot: u32) -> bool {
    value_lt(0, dot)
}

/// Whether a metal surface sends the scattered ray on, given the bit
/// pattern of the product of its direction with the normal.
pub fn scatters_outward(dot: u32) -> (answer: bool)
    ensures
        answer == leaves_surface(dot),
{
    less(0, dot)
}

/// A glass surface mirrors the ray where it cannot be refracted, the
/// refraction ratio times the sine of the angle of incidence being above
/// one, or where the reflectance is above the number drawn.
pub open spec fn mirrors(ratio_sine: u32, reflectance: u32, draw: u32) -> bool {
    value_lt(ONE, ratio_sine) || value_lt(draw, reflectance)
}

/// Whether a glass surface mirrors the ray rather than refract it. All
/// three numbers are bit patterns.
pub fn must_reflect(ratio_sine: u32, reflectance: u32, draw: u32) -> (answer: bool)
    ensures
        answer == mirrors(ratio_sine, reflectance, draw),
{
    less(ONE, ratio_sine) || less(draw, reflectance)
}

/// Where the refraction ratio times the sine is above one, the ray is
/// mirrored whatever the reflectance and whatever number is drawn.
pub proof fn lemma_total_internal_reflection(ratio_sine: u32, reflectance: u32, draw: u32)
    requires
        value_lt(ONE, ratio_sine),
    ensures
        mirrors(ratio_sine, reflectance, draw),
{
}

} // verus!
