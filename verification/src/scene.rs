//! The tests of the library's own shapes, seen as the closest-hit search
//! sees a caller's tests: what a scene of spheres or of rectangles answers
//! to a bounded test, and what the slab test answers for a box. A hit is
//! here nothing but its distance along the ray, as a bit pattern.

use crate::aabb::AABB;
use crate::aarect::rect_holds;
use crate::binary32::{value_le, value_rank};
use crate::closest::{arises, bounded, clip};
use crate::obj::{lemma_root_under_a_nearer_limit, root_in_reach, within_reach};
use crate::slab::{lemma_wider_slabs_survive, reaches_around, survives, Slab};
use vstd::prelude::*;

verus! {

/// What the quadratic of a sphere gives for one ray: the discriminant and
/// the two roots, as bit patterns.
pub struct Roots {
    pub discriminant: u32,
    pub near: u32,
    pub far: u32,
}

/// Where a ray meets the plane of a rectangle: the distance and the point
/// in the plane, with the rectangle's bounds, as bit patterns.
pub struct Meeting {
    pub t: u32,
    pub a: u32,
    pub a0: u32,
    pub a1: u32,
    pub b: u32,
    pub b0: u32,
    pub b1: u32,
}

/// The far end of the interval under a bound: the distance of the bound,
/// or the caller's far limit.
pub open spec fn far_end(bound: Option<u32>, t_max: u32) -> u32 {
    match bound {
        Some(t) => t,
        None => t_max,
    }
}

/// The test of a scene of spheres, a hit being its distance: the root
/// that counts, where the surface is solid there.
pub open spec fn sphere_strikes(
    roots: Seq<Roots>,
    solid: spec_fn(usize, u32) -> bool,
    t_min: u32,
    t_max: u32,
) -> spec_fn(usize, Option<u32>) -> Option<u32> {
    |id: usize, bound: Option<u32>|
        match root_in_reach(
            roots[id as int].discriminant,
            roots[id as int].near,
            roots[id as int].far,
            t_min,
            far_end(bound, t_max),
        ) {
            Some(t) => if solid(id, t) {
                Some(t)
            } else {
                None
            },
            None => None,
        }
}

/// The test of a scene of rectangles, a hit being its distance: where the
/// ray meets the plane, if that lies in the interval and in the rectangle
/// and the surface is solid there.
pub open spec fn rect_strikes(
    meetings: Seq<Meeting>,
    solid: spec_fn(usize, u32) -> bool,
    t_min: u32,
    t_max: u32,
) -> spec_fn(usize, Option<u32>) -> Option<u32> {
    |id: usize, bound: Option<u32>|
        {
            let m = meetings[id as int];
            if within_reach(m.t, t_min, far_end(bound, t_max)) && rect_holds(
                m.a,
                m.a0,
                m.a1,
                m.b,
                m.b0,
                m.b1,
            ) && solid(id, m.t) {
                Some(m.t)
            } else {
                None
            }
        }
}

/// How far along the ray a distance lies: its value rank.
pub open spec fn by_value() -> spec_fn(u32) -> int {
    |t: u32| value_rank(t)
}

/// A scene of spheres answers every bounded test as [`bounded`] asks,
/// where of the two roots of each sphere the nearer lies no farther than
/// the farther one.
pub proof fn lemma_spheres_are_bounded(
    roots: Seq<Roots>,
    solid: spec_fn(usize, u32) -> bool,
    t_min: u32,
    t_max: u32,
)
    requires
        forall|k: int| 0 <= k < roots.len() ==> value_le((#[trigger] roots[k]).near, roots[k].far),
    ensures
        bounded(sphere_strikes(roots, solid, t_min, t_max), by_value(), roots.len() as int),
{
    let strike = sphere_strikes(roots, solid, t_min, t_max);
    let count = roots.len() as int;
    assert forall|id: usize, bound: Option<u32>|
        id < count && arises(bound, strike, count) implies #[trigger] strike(id, bound) == clip(
        strike(id, None),
        bound,
        by_value(),
    ) by {
        let r = roots[id as int];
        assert(value_le(r.near, r.far));
        if bound is Some {
            let limit = bound->0;
            let from = choose|from: usize| from < count && #[trigger] strike(from, None) == Some(limit);
            let f = roots[from as int];
            assert(value_le(f.near, f.far));
            assert(limit == f.near || limit == f.far);
            assert(within_reach(limit, t_min, t_max));
            lemma_root_under_a_nearer_limit(r.discriminant, r.near, r.far, t_min, t_max, limit);
        }
    }
}

/// A scene of rectangles answers every bounded test as [`bounded`] asks.
pub proof fn lemma_rects_are_bounded(
    meetings: Seq<Meeting>,
    solid: spec_fn(usize, u32) -> bool,
    t_min: u32,
    t_max: u32,
)
    ensures
        bounded(rect_strikes(meetings, solid, t_min, t_max), by_value(), meetings.len() as int),
{
    let strike = rect_strikes(meetings, solid, t_min, t_max);
    let count = meetings.len() as int;
    assert forall|id: usize, bound: Option<u32>|
        id < count && arises(bound, strike, count) implies #[trigger] strike(id, bound) == clip(
        strike(id, None),
        bound,
        by_value(),
    ) by {
        if bound is Some {
            let limit = bound->0;
            let from = choose|from: usize| from < count && #[trigger] strike(from, None) == Some(limit);
            assert(limit == meetings[from as int].t);
            assert(within_reach(limit, t_min, t_max));
        }
    }
}

/// The box test of a caller whose arithmetic gives the slabs `slabs_of` for
/// each box, a hit being its distance: the slab test within the interval
/// that ends at the bound.
pub open spec fn slab_crossing(
    slabs_of: spec_fn(AABB) -> Seq<Slab>,
    t_min: u32,
    t_max: u32,
) -> spec_fn(AABB, Option<u32>) -> bool {
    |bbox: AABB, bound: Option<u32>| survives(slabs_of(bbox), t_min, far_end(bound, t_max))
}

/// The arithmetic of the caller is monotone: the slabs of a box reach
/// around those of every box that it contains.
pub open spec fn widening(slabs_of: spec_fn(AABB) -> Seq<Slab>) -> bool {
    forall|outer: AABB, inner: AABB|
        #[trigger] outer.contains(inner) ==> slabs_of(outer).len() == slabs_of(inner).len()
            && forall|i: int|
            0 <= i < slabs_of(inner).len() ==> reaches_around(
                #[trigger] slabs_of(outer)[i],
                slabs_of(inner)[i],
            )
}

/// With monotone arithmetic the slab test passes from a box to every box
/// around it, as [`cautious`] asks of a box test.
pub proof fn lemma_slab_test_passes_outward(
    slabs_of: spec_fn(AABB) -> Seq<Slab>,
    t_min: u32,
    t_max: u32,
)
    requires
        widening(slabs_of),
    ensures
        forall|outer: AABB, inner: AABB, bound: Option<u32>|
            #![trigger outer.contains(inner), slab_crossing(slabs_of, t_min, t_max)(inner, bound)]
            outer.contains(inner) && slab_crossing(slabs_of, t_min, t_max)(inner, bound)
                ==> slab_crossing(slabs_of, t_min, t_max)(outer, bound),
{
    let crossing = slab_crossing(slabs_of, t_min, t_max);
    assert forall|outer: AABB, inner: AABB, bound: Option<u32>|
        #![trigger outer.contains(inner), crossing(inner, bound)]
        outer.contains(inner) && crossing(inner, bound) implies crossing(outer, bound) by {
        let narrow = slabs_of(inner);
        let wide = slabs_of(outer);
        assert forall|i: int| 0 <= i < narrow.len() implies reaches_around(
            #[trigger] wide[i],
            narrow[i],
        ) by {
            assert(reaches_around(slabs_of(outer)[i], slabs_of(inner)[i]));
        }
        let far = far_end(bound, t_max);
        lemma_wider_slabs_survive(narrow, wide, t_min, far, t_min, far);
    }
}

} // verus!
