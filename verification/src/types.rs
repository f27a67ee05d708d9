//! Vectors, colours and rays.

use crate::binary32::{is_nan, value_le, value_rank};
use bevy_math::{Vec3, Vec4};
use vstd::prelude::*;

verus! {

/// `Vec3` of the math crate: three binary32 lanes, carried as they are.
#[verifier::external_type_specification]
#[verifier::external_body]
pub struct ExVec3(Vec3);

/// `Vec4` of the math crate: four binary32 lanes, carried as they are.
#[verifier::external_type_specification]
#[verifier::external_body]
pub struct ExVec4(Vec4);

/// A position in space.
pub type Point3 = Vec3;

/// Red, green, blue and a weight.
pub type Color = Vec4;

/// The bit patterns of the three lanes of a vector: x, y, z.
pub uninterp spec fn vec3_bits(v: Vec3) -> Seq<u32>;

/// `Vec3::to_array` of the math crate, then the bit pattern of one lane.
#[verifier::external_body]
pub(crate) fn vec3_lane(v: &Vec3, axis: usize) -> (bits: u32)
    requires
        axis < 3,
    ensures
        bits == vec3_bits(*v)[axis as int],
{
    v.to_array()[axis].to_bits()
}

/// The lanes of the sum of two vectors, from their lanes. A lane that is
/// a NaN stands as the one pattern `0x7FC0_0000`.
pub uninterp spec fn vec3_sum(a: Seq<u32>, b: Seq<u32>) -> Seq<u32>;

/// The two patterns are the same, or both a NaN.
pub open spec fn lane_agrees(a: u32, b: u32) -> bool {
    a == b || (is_nan(a) && is_nan(b))
}

/// Lane by lane, the two vectors hold the same pattern or both a NaN.
pub open spec fn lanes_agree(a: Seq<u32>, b: Seq<u32>) -> bool {
    lane_agrees(a[0], b[0]) && lane_agrees(a[1], b[1]) && lane_agrees(a[2], b[2])
}

/// `Add` of the math crate for `Vec3`: the lane-wise sum, each lane rounded
/// to binary32.
#[verifier::external_body]
pub(crate) fn vec3_add(a: Vec3, b: Vec3) -> (sum: Vec3)
    ensures
        lanes_agree(vec3_bits(sum), vec3_sum(vec3_bits(a), vec3_bits(b))),
{
    a + b
}

/// The bit patterns of the four lanes of a colour: red, green, blue and
/// weight. Every NaN stands as the one pattern `0x7FC0_0000`.
pub uninterp spec fn color_bits(c: Color) -> Seq<u32>;

/// The lanes of the sum of two colours, from their lanes.
pub uninterp spec fn lanes_sum(a: Seq<u32>, b: Seq<u32>) -> Seq<u32>;

/// The lanes of the lane-wise product of two colours, from their lanes.
pub uninterp spec fn lanes_product(a: Seq<u32>, b: Seq<u32>) -> Seq<u32>;

/// The lanes of black with no weight: four times positive zero.
pub open spec fn black_bits() -> Seq<u32> {
    seq![0u32, 0u32, 0u32, 0u32]
}

/// `Vec4::ZERO` of the math crate: positive zero in every lane.
#[verifier::external_body]
pub(crate) fn color_black() -> (black: Color)
    ensures
        color_bits(black) == black_bits(),
{
    Vec4::ZERO
}

/// `Add` of the math crate for `Vec4`: the lane-wise sum, each lane rounded
/// to binary32.
#[verifier::external_body]
pub(crate) fn color_add(a: Color, b: Color) -> (sum: Color)
    ensures
        color_bits(sum) == lanes_sum(color_bits(a), color_bits(b)),
{
    a + b
}

/// `Mul` of the math crate for `Vec4`: the lane-wise product, each lane
/// rounded to binary32.
#[verifier::external_body]
pub(crate) fn color_mul(a: Color, b: Color) -> (product: Color)
    ensures
        color_bits(product) == lanes_product(color_bits(a), color_bits(b)),
{
    a * b
}

/// The pattern of one.
pub const ONE: u32 = 0x3F80_0000;

/// The lanes of white at full weight: four times one.
pub open spec fn one_bits() -> Seq<u32> {
    seq![ONE, ONE, ONE, ONE]
}

/// `Vec4::ONE` of the math crate: one in every lane.
#[verifier::external_body]
pub(crate) fn color_one() -> (one: Color)
    ensures
        color_bits(one) == one_bits(),
{
    Vec4::ONE
}

/// `r` is `x` brought into the range from `lo` to `hi`: `x` itself where
/// it lies in the range, else the bound it lies beyond, up to the sign of
/// a zero. Nothing is said where one of the three is a NaN or the range is
/// empty.
pub open spec fn lane_clamped(x: u32, lo: u32, hi: u32, r: u32) -> bool {
    if is_nan(x) || is_nan(lo) || is_nan(hi) || !value_le(lo, hi) {
        true
    } else if value_rank(x) < value_rank(lo) {
        !is_nan(r) && value_rank(r) == value_rank(lo)
    } else if value_rank(x) > value_rank(hi) {
        !is_nan(r) && value_rank(r) == value_rank(hi)
    } else {
        !is_nan(r) && value_rank(r) == value_rank(x)
    }
}

/// [`lane_clamped`] on each of the four lanes.
pub open spec fn lanes_clamped(x: Seq<u32>, lo: Seq<u32>, hi: Seq<u32>, r: Seq<u32>) -> bool {
    &&& lane_clamped(x[0], lo[0], hi[0], r[0])
    &&& lane_clamped(x[1], lo[1], hi[1], r[1])
    &&& lane_clamped(x[2], lo[2], hi[2], r[2])
    &&& lane_clamped(x[3], lo[3], hi[3], r[3])
}

/// `Vec4::clamp` of the math crate: lane by lane the greater of the value
/// and the lower bound, then the lesser of that and the upper bound.
#[verifier::external_body]
pub(crate) fn color_clamp(c: Color, lo: Color, hi: Color) -> (clamped: Color)
    ensures
        lanes_clamped(color_bits(c), color_bits(lo), color_bits(hi), color_bits(clamped)),
{
    c.clamp(lo, hi)
}

/// The colour `a + b * c`, lane by lane, brought into the range from zero
/// to one.
pub fn multiply_add(a: Color, b: Color, c: Color) -> (color: Color)
    ensures
        lanes_clamped(
            lanes_sum(color_bits(a), lanes_product(color_bits(b), color_bits(c))),
            black_bits(),
            one_bits(),
            color_bits(color),
        ),
{
    color_clamp(color_add(a, color_mul(b, c)), color_black(), color_one())
}

/// A half-line: where it starts and which way it goes.
#[derive(Clone, Copy, PartialEq)]
pub struct Ray {
    pub origin: Point3,
    pub direction: Vec3,
}

impl Ray {
    /// The ray from `origin` along `direction`.
    pub fn new(origin: Point3, direction: Vec3) -> (ray: Ray)
        ensures
            ray.origin == origin,
            ray.direction == direction,
    {
        Ray { origin, direction }
    }
}

} // verus!
