//! Axis-aligned bounding boxes.

use crate::binary32::{is_nan, order_key, total_rank, value_le};
use crate::types::{lanes_agree, vec3_add, vec3_bits, vec3_lane, vec3_sum, Point3};
use bevy_math::Vec3;
use vstd::prelude::*;

verus! {

/// `r` is a least of `a` and `b`, NaN set aside: with one NaN the other
/// pattern, with two a NaN, else one of the two that is `<=` both.
pub open spec fn lane_min(a: u32, b: u32, r: u32) -> bool {
    if is_nan(a) && is_nan(b) {
        is_nan(r)
    } else if is_nan(a) {
        r == b
    } else if is_nan(b) {
        r == a
    } else {
        (r == a || r == b) && value_le(r, a) && value_le(r, b)
    }
}

/// `r` is a greatest of `a` and `b`, NaN set aside as in [`lane_min`].
pub open spec fn lane_max(a: u32, b: u32, r: u32) -> bool {
    if is_nan(a) && is_nan(b) {
        is_nan(r)
    } else if is_nan(a) {
        r == b
    } else if is_nan(b) {
        r == a
    } else {
        (r == a || r == b) && value_le(a, r) && value_le(b, r)
    }
}

/// [`lane_min`] on each of the three lanes.
pub open spec fn lanes_min(a: Seq<u32>, b: Seq<u32>, r: Seq<u32>) -> bool {
    lane_min(a[0], b[0], r[0]) && lane_min(a[1], b[1], r[1]) && lane_min(a[2], b[2], r[2])
}

/// [`lane_max`] on each of the three lanes.
pub open spec fn lanes_max(a: Seq<u32>, b: Seq<u32>, r: Seq<u32>) -> bool {
    lane_max(a[0], b[0], r[0]) && lane_max(a[1], b[1], r[1]) && lane_max(a[2], b[2], r[2])
}

/// [`value_le`] on each of the three lanes.
pub open spec fn lanes_le(a: Seq<u32>, b: Seq<u32>) -> bool {
    value_le(a[0], b[0]) && value_le(a[1], b[1]) && value_le(a[2], b[2])
}

/// None of the three lanes is a NaN.
pub open spec fn lanes_ordered(a: Seq<u32>) -> bool {
    !is_nan(a[0]) && !is_nan(a[1]) && !is_nan(a[2])
}

/// `Vec3::min` of the math crate: lane by lane the lesser value. Where one
/// lane is a NaN the other is taken; where the two compare equal (the two
/// zeros) either may come back.
#[verifier::external_body]
fn vec3_min(a: Vec3, b: Vec3) -> (r: Vec3)
    ensures
        lanes_min(vec3_bits(a), vec3_bits(b), vec3_bits(r)),
{
    a.min(b)
}

/// `Vec3::max` of the math crate: lane by lane the greater value, with
/// NaN and equal values treated as in `Vec3::min`.
#[verifier::external_body]
fn vec3_max(a: Vec3, b: Vec3) -> (r: Vec3)
    ensures
        lanes_max(vec3_bits(a), vec3_bits(b), vec3_bits(r)),
{
    a.max(b)
}

/// The pattern of positive infinity.
pub const POSITIVE_INFINITY: u32 = 0x7F80_0000;

/// The pattern of negative infinity.
pub const NEGATIVE_INFINITY: u32 = 0xFF80_0000;

/// `Vec3::INFINITY` of the math crate: positive infinity in every lane.
#[verifier::external_body]
fn vec3_infinity() -> (r: Vec3)
    ensures
        vec3_bits(r) == seq![POSITIVE_INFINITY, POSITIVE_INFINITY, POSITIVE_INFINITY],
{
    Vec3::INFINITY
}

/// `Vec3::NEG_INFINITY` of the math crate: negative infinity in every lane.
#[verifier::external_body]
fn vec3_neg_infinity() -> (r: Vec3)
    ensures
        vec3_bits(r) == seq![NEGATIVE_INFINITY, NEGATIVE_INFINITY, NEGATIVE_INFINITY],
{
    Vec3::NEG_INFINITY
}

/// A box given by its least and its greatest corner.
#[derive(Clone, Copy)]
pub struct AABB {
    pub min: Point3,
    pub max: Point3,
}

impl AABB {
    /// No lane of either corner is a NaN.
    pub open spec fn ordered(self) -> bool {
        lanes_ordered(vec3_bits(self.min)) && lanes_ordered(vec3_bits(self.max))
    }

    /// On every axis `self` starts no later and ends no earlier than `inner`.
    pub open spec fn contains(self, inner: AABB) -> bool {
        lanes_le(vec3_bits(self.min), vec3_bits(inner.min)) && lanes_le(
            vec3_bits(inner.max),
            vec3_bits(self.max),
        )
    }

    /// `self` is a union of `a` and `b`: its least corner a lane-wise least
    /// of theirs, its greatest corner a lane-wise greatest.
    pub open spec fn joins(self, a: AABB, b: AABB) -> bool {
        lanes_min(vec3_bits(a.min), vec3_bits(b.min), vec3_bits(self.min)) && lanes_max(
            vec3_bits(a.max),
            vec3_bits(b.max),
            vec3_bits(self.max),
        )
    }

    /// `self` is `prev` stretched to reach the point `p`.
    pub open spec fn stretches(self, prev: AABB, p: Point3) -> bool {
        lanes_min(vec3_bits(prev.min), vec3_bits(p), vec3_bits(self.min)) && lanes_max(
            vec3_bits(prev.max),
            vec3_bits(p),
            vec3_bits(self.max),
        )
    }

    /// `self` is the empty box (least corner at positive, greatest at
    /// negative infinity) stretched to reach each of the points in turn.
    pub open spec fn spans(self, points: Seq<Point3>) -> bool
        decreases points.len(),
    {
        if points.len() == 0 {
            &&& vec3_bits(self.min) == seq![POSITIVE_INFINITY, POSITIVE_INFINITY, POSITIVE_INFINITY]
            &&& vec3_bits(self.max) == seq![NEGATIVE_INFINITY, NEGATIVE_INFINITY, NEGATIVE_INFINITY]
        } else {
            exists|prev: AABB|
                prev.spans(points.drop_last()) && #[trigger] self.stretches(prev, points.last())
        }
    }

    /// The point lies in the box, its faces included.
    pub open spec fn holds(self, p: Point3) -> bool {
        lanes_le(vec3_bits(self.min), vec3_bits(p)) && lanes_le(vec3_bits(p), vec3_bits(self.max))
    }

    /// The rank, in the total order, of the least corner along one axis.
    pub open spec fn axis_rank(self, axis: int) -> int {
        total_rank(vec3_bits(self.min)[axis])
    }

    /// The box between two corners.
    pub fn new(min: Point3, max: Point3) -> (bbox: AABB)
        ensures
            bbox.min == min,
            bbox.max == max,
    {
        AABB { min, max }
    }

    /// The smallest box around both.
    pub fn surrounding_box(a: AABB, b: AABB) -> (bbox: AABB)
        ensures
            bbox.joins(a, b),
    {
        let min = vec3_min(a.min, b.min);
        let max = vec3_max(a.max, b.max);
        AABB::new(min, max)
    }

    /// The box moved by `offset`.
    pub fn translated(&self, offset: Vec3) -> (bbox: AABB)
        ensures
            lanes_agree(vec3_bits(bbox.min), vec3_sum(vec3_bits(self.min), vec3_bits(offset))),
            lanes_agree(vec3_bits(bbox.max), vec3_sum(vec3_bits(self.max), vec3_bits(offset))),
    {
        AABB::new(vec3_add(self.min, offset), vec3_add(self.max, offset))
    }

    /// The smallest box around the given points: for none of them, the
    /// empty box.
    pub fn enclosing(points: &[Point3]) -> (bbox: AABB)
        ensures
            bbox.spans(points@),
    {
        let mut bbox = AABB::new(vec3_infinity(), vec3_neg_infinity());
        let mut k: usize = 0;
        proof {
            assert(points@.take(0).len() == 0);
        }
        while k < points.len()
            invariant
                k <= points.len(),
                bbox.spans(points@.take(k as int)),
            decreases points.len() - k,
        {
            let ghost prev = bbox;
            let p = points[k];
            bbox = AABB::new(vec3_min(bbox.min, p), vec3_max(bbox.max, p));
            proof {
                let upto = points@.take(k as int + 1);
                assert(upto.drop_last() =~= points@.take(k as int));
                assert(upto.last() == p);
                assert(bbox.stretches(prev, upto.last()));
            }
            k += 1;
        }
        proof {
            assert(points@.take(k as int) =~= points@);
        }
        bbox
    }

    /// The key by which boxes are ordered along an axis: the total-order
    /// rank of the least corner's lane.
    pub fn axis_key(&self, axis: usize) -> (key: i32)
        requires
            axis < 3,
        ensures
            key == self.axis_rank(axis as int),
    {
        order_key(vec3_lane(&self.min, axis))
    }

    /// A union of two boxes without NaN contains both, and has none either.
    pub proof fn lemma_union_contains(self, a: AABB, b: AABB)
        requires
            self.joins(a, b),
            a.ordered(),
            b.ordered(),
        ensures
            self.contains(a),
            self.contains(b),
            self.ordered(),
    {
    }

    /// A box around points without NaN holds each of them, and has no NaN
    /// itself.
    pub proof fn lemma_enclosing_holds_points(self, points: Seq<Point3>)
        requires
            self.spans(points),
            forall|k: int| 0 <= k < points.len() ==> lanes_ordered(vec3_bits(#[trigger] points[k])),
        ensures
            self.ordered(),
            forall|k: int| 0 <= k < points.len() ==> self.holds(#[trigger] points[k]),
        decreases points.len(),
    {
        if points.len() > 0 {
            let prev = choose|prev: AABB|
                prev.spans(points.drop_last()) && #[trigger] self.stretches(prev, points.last());
            let before = points.drop_last();
            assert forall|k: int| 0 <= k < before.len() implies lanes_ordered(
                vec3_bits(#[trigger] before[k]),
            ) by {
                assert(before[k] == points[k]);
            }
            prev.lemma_enclosing_holds_points(before);
            assert(lanes_ordered(vec3_bits(points.last())));
            assert forall|k: int| 0 <= k < points.len() implies self.holds(#[trigger] points[k]) by {
                if k < before.len() {
                    assert(before[k] == points[k]);
                    assert(prev.holds(before[k]));
                }
            }
        }
    }

    /// Containment is transitive.
    pub proof fn lemma_contains_transitive(self, mid: AABB, inner: AABB)
        requires
            self.contains(mid),
            mid.contains(inner),
        ensures
            self.contains(inner),
    {
    }
}

} // verus!
