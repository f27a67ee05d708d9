//! The slab test of a ray against a box, from the distances at which the
//! ray meets the faces.
//!
//! For each axis the caller works out, in binary32, where along the ray the
//! two faces of the box lie and the inverse of the ray's direction; the
//! test narrows the ray's interval by each axis in turn and fails as soon
//! as nothing is left of it. All numbers here are bit patterns.

use crate::aabb::AABB;
use crate::binary32::{
    at_most, greater, greater_of, is_nan, lemma_negation_reverses_order, less, lesser, lesser_of,
    negated, value_le, value_lt, value_rank,
};
use vstd::prelude::*;

verus! {

/// One axis of the test.
#[derive(Clone, Copy)]
pub struct Slab {
    /// Where the ray meets the face at the box's least corner.
    pub t0: u32,
    /// Where the ray meets the face at the box's greatest corner.
    pub t1: u32,
    /// The inverse of the ray's direction along the axis.
    pub inverse: u32,
}

impl Slab {
    /// Where the ray enters the slab: at the least corner, unless it runs
    /// against the axis.
    pub open spec fn entry(self) -> u32 {
        if value_lt(self.inverse, 0) {
            self.t1
        } else {
            self.t0
        }
    }

    /// Where the ray leaves the slab.
    pub open spec fn exit(self) -> u32 {
        if value_lt(self.inverse, 0) {
            self.t0
        } else {
            self.t1
        }
    }

    /// Neither end of the slab is a NaN.
    pub open spec fn ordered(self) -> bool {
        !is_nan(self.entry()) && !is_nan(self.exit())
    }

    /// The slab as the same ray run backwards meets it: every distance
    /// and the inverse direction negated.
    pub open spec fn reversed(self) -> Slab {
        Slab { t0: negated(self.t0), t1: negated(self.t1), inverse: negated(self.inverse) }
    }
}

/// Whether anything is left of the interval from `t_min` to `t_max` after
/// it was narrowed by each slab in turn: by none, all of it; else the
/// interval narrowed by the first slab must not be empty, and something
/// of it must be left after the others.
pub open spec fn survives(slabs: Seq<Slab>, t_min: u32, t_max: u32) -> bool
    decreases slabs.len(),
{
    if slabs.len() == 0 {
        true
    } else {
        let low = greater(slabs[0].entry(), t_min);
        let high = lesser(slabs[0].exit(), t_max);
        !value_le(high, low) && survives(slabs.drop_first(), low, high)
    }
}

impl AABB {
    /// Whether a ray crosses a box within the interval from `t_min` to
    /// `t_max`, given the three slabs of the box along the ray.
    pub fn hit(slabs: &[Slab; 3], t_min: u32, t_max: u32) -> (crossed: bool)
        ensures
            crossed == survives(slabs@, t_min, t_max),
    {
        let mut low = t_min;
        let mut high = t_max;
        let mut i: usize = 0;
        proof {
            assert(slabs@.skip(0) =~= slabs@);
        }
        while i < 3
            invariant
                i <= 3,
                survives(slabs@, t_min, t_max) == survives(slabs@.skip(i as int), low, high),
            decreases 3 - i,
        {
            let slab = slabs[i];
            let (entry, exit) = if less(slab.inverse, 0) {
                (slab.t1, slab.t0)
            } else {
                (slab.t0, slab.t1)
            };
            let ghost rest = slabs@.skip(i as int);
            proof {
                assert(rest[0] == slab);
                assert(rest.drop_first() =~= slabs@.skip(i as int + 1));
            }
            low = greater_of(entry, low);
            high = lesser_of(exit, high);
            if at_most(high, low) {
                return false;
            }
            i += 1;
        }
        true
    }
}

/// The test holds of a ray within an interval exactly where it holds of
/// the same ray run backwards within the interval turned round: from the
/// negated far end to the negated near end. No inverse direction may be a
/// NaN or a zero.
pub proof fn lemma_reversed_ray_crosses_alike(slabs: Seq<Slab>, t_min: u32, t_max: u32)
    requires
        forall|i: int|
            0 <= i < slabs.len() ==> !is_nan((#[trigger] slabs[i]).inverse) && value_rank(
                slabs[i].inverse,
            ) != 0,
    ensures
        survives(slabs.map_values(|s: Slab| s.reversed()), negated(t_max), negated(t_min))
            == survives(slabs, t_min, t_max),
    decreases slabs.len(),
{
    let back = slabs.map_values(|s: Slab| s.reversed());
    if slabs.len() > 0 {
        let first = slabs[0];
        assert(back[0] == first.reversed());
        assert(back[0].entry() == negated(first.exit()));
        assert(back[0].exit() == negated(first.entry()));
        let low = greater(first.entry(), t_min);
        let high = lesser(first.exit(), t_max);
        lemma_negation_reverses_order(first.exit(), t_max);
        lemma_negation_reverses_order(first.entry(), t_min);
        lemma_negation_reverses_order(low, high);
        assert(greater(back[0].entry(), negated(t_max)) == negated(high));
        assert(lesser(back[0].exit(), negated(t_min)) == negated(low));
        assert(back.drop_first() =~= slabs.drop_first().map_values(|s: Slab| s.reversed()));
        assert forall|i: int| 0 <= i < slabs.drop_first().len() implies !is_nan(
            (#[trigger] slabs.drop_first()[i]).inverse,
        ) && value_rank(slabs.drop_first()[i].inverse) != 0 by {
            assert(slabs.drop_first()[i] == slabs[i + 1]);
        }
        lemma_reversed_ray_crosses_alike(slabs.drop_first(), low, high);
    }
}

/// `wide` reaches at least as far as `narrow` on both sides.
pub open spec fn reaches_around(wide: Slab, narrow: Slab) -> bool {
    &&& wide.ordered()
    &&& narrow.ordered()
    &&& value_le(wide.entry(), narrow.entry())
    &&& value_le(narrow.exit(), wide.exit())
}

/// Wider slabs and a wider interval cannot turn a hit into a miss: where
/// the test holds of the slabs of a box, it holds of slabs that reach
/// around them, within the same interval or one that reaches around it.
pub proof fn lemma_wider_slabs_survive(
    narrow: Seq<Slab>,
    wide: Seq<Slab>,
    t_min: u32,
    t_max: u32,
    wide_min: u32,
    wide_max: u32,
)
    requires
        narrow.len() == wide.len(),
        forall|i: int| 0 <= i < narrow.len() ==> reaches_around(#[trigger] wide[i], narrow[i]),
        wide_min == t_min || value_le(wide_min, t_min),
        wide_max == t_max || value_le(t_max, wide_max),
        survives(narrow, t_min, t_max),
    ensures
        survives(wide, wide_min, wide_max),
    decreases narrow.len(),
{
    if narrow.len() > 0 {
        assert(reaches_around(wide[0], narrow[0]));
        let low = greater(narrow[0].entry(), t_min);
        let high = lesser(narrow[0].exit(), t_max);
        let wide_low = greater(wide[0].entry(), wide_min);
        let wide_high = lesser(wide[0].exit(), wide_max);
        assert forall|i: int| 0 <= i < narrow.drop_first().len() implies reaches_around(
            #[trigger] wide.drop_first()[i],
            narrow.drop_first()[i],
        ) by {
            assert(wide.drop_first()[i] == wide[i + 1]);
            assert(narrow.drop_first()[i] == narrow[i + 1]);
            assert(reaches_around(wide[i + 1], narrow[i + 1]));
        }
        lemma_wider_slabs_survive(
            narrow.drop_first(),
            wide.drop_first(),
            low,
            high,
            wide_low,
            wide_high,
        );
    }
}

} // verus!
