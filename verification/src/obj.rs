//! What a sphere decides, the flat scene list, and the rotation axes.
//!
//! The list keeps one box for each object of the scene, in the order the
//! objects were added. An object is named by its place in that order.

use crate::aabb::AABB;
use crate::binary32::{less, value_le, value_lt};
use crate::walk::ListScan;
use vstd::prelude::*;

verus! {

/// The distance lies in the open interval from `t_min` to `t_max`: beyond
/// the one and short of the other, neither end included. A NaN lies in no
/// interval, and no distance lies in an interval with a NaN for an end.
pub open spec fn within_reach(t: u32, t_min: u32, t_max: u32) -> bool {
    value_lt(t_min, t) && value_lt(t, t_max)
}

/// Whether a distance lies in the open interval from `t_min` to `t_max`.
/// All three are bit patterns.
pub fn in_reach(t: u32, t_min: u32, t_max: u32) -> (answer: bool)
    ensures
        answer == within_reach(t, t_min, t_max),
{
    less(t_min, t) && less(t, t_max)
}

/// The ray meets the outer side of a surface: its direction and the
/// outward normal, multiplied lane by lane and summed, come to less than
/// zero.
pub open spec fn meets_front(dot: u32) -> bool {
    value_lt(dot, 0)
}

/// Whether a ray meets the outer side of a surface, given the bit pattern
/// of the product of its direction with the outward normal.
pub fn front_face(dot: u32) -> (answer: bool)
    ensures
        answer == meets_front(dot),
{
    less(dot, 0)
}

/// The root of a sphere's quadratic that counts as the hit: none where the
/// discriminant is below zero; else the nearer root where it lies in the
/// interval, else the farther one where that does.
pub open spec fn root_in_reach(
    discriminant: u32,
    near: u32,
    far: u32,
    t_min: u32,
    t_max: u32,
) -> Option<u32> {
    if value_lt(discriminant, 0) {
        None
    } else if within_reach(near, t_min, t_max) {
        Some(near)
    } else if within_reach(far, t_min, t_max) {
        Some(far)
    } else {
        None
    }
}

/// Picks the root of a sphere's quadratic that counts as the hit. All
/// numbers are bit patterns.
pub fn sphere_root(discriminant: u32, near: u32, far: u32, t_min: u32, t_max: u32) -> (root: Option<
    u32,
>)
    ensures
        root == root_in_reach(discriminant, near, far, t_min, t_max),
{
    if less(discriminant, 0) {
        None
    } else if in_reach(near, t_min, t_max) {
        Some(near)
    } else if in_reach(far, t_min, t_max) {
        Some(far)
    } else {
        None
    }
}

/// A ray whose line passes the sphere by, the discriminant being below
/// zero, strikes nothing.
pub proof fn lemma_ray_past_sphere_misses(
    discriminant: u32,
    near: u32,
    far: u32,
    t_min: u32,
    t_max: u32,
)
    requires
        value_lt(discriminant, 0),
    ensures
        root_in_reach(discriminant, near, far, t_min, t_max) is None,
{
}

/// The root that counts lies in the interval, short of both ends.
pub proof fn lemma_root_lies_in_reach(
    discriminant: u32,
    near: u32,
    far: u32,
    t_min: u32,
    t_max: u32,
)
    ensures
        root_in_reach(discriminant, near, far, t_min, t_max) matches Some(t) ==> within_reach(
            t,
            t_min,
            t_max,
        ),
{
}

/// Drawing the far end of the interval in keeps the root that counted
/// where it lies short of the new end, and gives none else: a sphere
/// answers a narrower interval with the hit it has in the wider one, or
/// with nothing. A root at the new end itself is no hit.
pub proof fn lemma_root_under_a_nearer_limit(
    discriminant: u32,
    near: u32,
    far: u32,
    t_min: u32,
    t_max: u32,
    nearer: u32,
)
    requires
        value_le(near, far),
        value_le(nearer, t_max),
    ensures
        root_in_reach(discriminant, near, far, t_min, nearer) == match root_in_reach(
            discriminant,
            near,
            far,
            t_min,
            t_max,
        ) {
            Some(t) => if value_lt(t, nearer) {
                Some(t)
            } else {
                None
            },
            None => None,
        },
{
}

/// `hull` is the first box joined with each of the others in turn.
pub open spec fn hull_of(boxes: Seq<AABB>, hull: AABB) -> bool
    decreases boxes.len(),
{
    if boxes.len() == 0 {
        false
    } else if boxes.len() == 1 {
        hull == boxes[0]
    } else {
        exists|rest: AABB| hull_of(boxes.drop_last(), rest) && #[trigger] hull.joins(rest, boxes.last())
    }
}

/// A hull of boxes without NaN contains each of them.
pub proof fn lemma_hull_contains_each(boxes: Seq<AABB>, hull: AABB)
    requires
        hull_of(boxes, hull),
        forall|k: int| 0 <= k < boxes.len() ==> (#[trigger] boxes[k]).ordered(),
    ensures
        hull.ordered(),
        forall|k: int| 0 <= k < boxes.len() ==> hull.contains(#[trigger] boxes[k]),
    decreases boxes.len(),
{
    if boxes.len() == 1 {
        assert(boxes[0].ordered());
    } else {
        let rest = choose|rest: AABB|
            hull_of(boxes.drop_last(), rest) && #[trigger] hull.joins(rest, boxes.last());
        let before = boxes.drop_last();
        assert forall|k: int| 0 <= k < before.len() implies (#[trigger] before[k]).ordered() by {
            assert(before[k] == boxes[k]);
        }
        lemma_hull_contains_each(before, rest);
        assert(boxes.last().ordered());
        hull.lemma_union_contains(rest, boxes.last());
        assert forall|k: int| 0 <= k < boxes.len() implies hull.contains(#[trigger] boxes[k]) by {
            if k < before.len() {
                assert(before[k] == boxes[k]);
                hull.lemma_contains_transitive(rest, before[k]);
            }
        }
    }
}

/// The objects of a scene, each by its box.
pub struct HittableList {
    objs: Vec<AABB>,
}

impl View for HittableList {
    type V = Seq<AABB>;

    /// The boxes, in the order the objects were added.
    closed spec fn view(&self) -> Seq<AABB> {
        self.objs@
    }
}

impl HittableList {
    /// An empty scene.
    pub fn new() -> (list: Self)
        ensures
            list@.len() == 0,
    {
        HittableList { objs: Vec::new() }
    }

    /// Adds an object, given by its box, at the end.
    pub fn add(&mut self, obj: AABB)
        ensures
            final(self)@ == old(self)@.push(obj),
    {
        self.objs.push(obj);
    }

    /// Takes every object out.
    pub fn clear(&mut self)
        ensures
            final(self)@.len() == 0,
    {
        self.objs.clear();
    }

    /// The boxes, in order.
    pub fn into_vec(self) -> (boxes: Vec<AABB>)
        ensures
            boxes@ == self@,
    {
        self.objs
    }

    /// Starts a closest-hit search through the list, first object first.
    pub fn hit<H>(&self) -> (search: ListScan<H>)
        ensures
            search.next() == 0,
            search.len() == self@.len(),
            search.best() is None,
    {
        ListScan::begin(self.objs.len())
    }

    /// The box around every object: none for an empty scene.
    pub fn bounding_box(&self) -> (hull: Option<AABB>)
        ensures
            hull is None <==> self@.len() == 0,
            hull matches Some(bbox) ==> hull_of(self@, bbox),
    {
        if self.objs.len() == 0 {
            return None;
        }
        let mut bbox = self.objs[0];
        let mut k: usize = 1;
        proof {
            assert(self.objs@.take(1).len() == 1);
        }
        while k < self.objs.len()
            invariant
                1 <= k <= self.objs.len(),
                hull_of(self.objs@.take(k as int), bbox),
            decreases self.objs.len() - k,
        {
            let ghost rest = bbox;
            bbox = AABB::surrounding_box(bbox, self.objs[k]);
            proof {
                let upto = self.objs@.take(k as int + 1);
                assert(upto.drop_last() =~= self.objs@.take(k as int));
                assert(upto.last() == self.objs@[k as int]);
                assert(bbox.joins(rest, upto.last()));
            }
            k += 1;
        }
        proof {
            assert(self.objs@.take(k as int) =~= self.objs@);
        }
        Some(bbox)
    }
}

/// An axis of rotation.
pub trait RotateVec3 {
    /// The lane that a rotation about the axis leaves as it is.
    spec fn fixed_lane() -> int;

    /// The lane that a rotation about the axis leaves as it is: 0 for x,
    /// 1 for y, 2 for z.
    fn axis() -> (axis: usize)
        ensures
            axis == Self::fixed_lane(),
            axis < 3,
    ;
}

/// Rotation about the x axis.
pub struct RotateVec3X;

/// Rotation about the y axis.
pub struct RotateVec3Y;

/// Rotation about the z axis.
pub struct RotateVec3Z;

impl RotateVec3 for RotateVec3X {
    open spec fn fixed_lane() -> int {
        0
    }

    fn axis() -> (axis: usize) {
        0
    }
}

impl RotateVec3 for RotateVec3Y {
    open spec fn fixed_lane() -> int {
        1
    }

    fn axis() -> (axis: usize) {
        1
    }
}

impl RotateVec3 for RotateVec3Z {
    open spec fn fixed_lane() -> int {
        2
    }

    fn axis() -> (axis: usize) {
        2
    }
}

} // verus!
