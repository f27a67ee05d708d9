//! What a search finds: the closest hit, through a hierarchy as through a
//! list.
//!
//! The two tests of the caller appear here as functions: `strike(id, bound)`
//! is the hit of the ray on object `id` within the open interval that ends
//! at `bound` (at the caller's far limit for `None`), and
//! `crosses(bbox, bound)` says whether the ray crosses a box within that
//! interval. `dist` measures how far along the ray a hit lies. A hit as far
//! as the bound is no hit: only a strictly closer one takes its place.

use crate::aabb::AABB;
use crate::bvh::{all_objects, keys_along, sorted_along, taken_from, BvhNode, Child};
use crate::sort::is_stable_order;
use crate::walk::{bound_of, record, scan, visit, Found};
use vstd::prelude::*;

verus! {

/// The hit lies closer than the bound: a hit as far as the bound does not.
pub open spec fn within<H>(hit: H, bound: Option<H>, dist: spec_fn(H) -> int) -> bool {
    match bound {
        Some(limit) => dist(hit) < dist(limit),
        None => true,
    }
}

/// A hit, kept only where it lies closer than the bound.
pub open spec fn clip<H>(hit: Option<H>, bound: Option<H>, dist: spec_fn(H) -> int) -> Option<H> {
    match hit {
        Some(h) => if within(h, bound, dist) {
            Some(h)
        } else {
            None
        },
        None => None,
    }
}

/// The bound is none, or the unbounded hit of one of the objects.
pub open spec fn arises<H>(
    bound: Option<H>,
    strike: spec_fn(usize, Option<H>) -> Option<H>,
    count: int,
) -> bool {
    bound matches Some(limit) ==> exists|id: usize| id < count && #[trigger] strike(id, None) == Some(limit)
}

/// Every object answers a bounded test with its unbounded hit, where that
/// lies closer than the bound, and with nothing else. This is asked only of
/// bounds that a search can come by: the unbounded hits of the objects.
pub open spec fn bounded<H>(
    strike: spec_fn(usize, Option<H>) -> Option<H>,
    dist: spec_fn(H) -> int,
    count: int,
) -> bool {
    forall|id: usize, bound: Option<H>|
        id < count && arises(bound, strike, count) ==> #[trigger] strike(id, bound) == clip(
            strike(id, None),
            bound,
            dist,
        )
}

/// The box test never denies a hit: it holds of the box of an object that
/// is struck, and of every box that contains one of which it holds.
pub open spec fn cautious<H>(
    crosses: spec_fn(AABB, Option<H>) -> bool,
    strike: spec_fn(usize, Option<H>) -> Option<H>,
    boxes: Seq<AABB>,
) -> bool {
    &&& forall|id: usize, bound: Option<H>|
        id < boxes.len() && (#[trigger] strike(id, bound)) is Some ==> crosses(
            boxes[id as int],
            bound,
        )
    &&& forall|outer: AABB, inner: AABB, bound: Option<H>|
        #![trigger outer.contains(inner), crosses(inner, bound)]
        outer.contains(inner) && crosses(inner, bound) ==> crosses(outer, bound)
}

/// No box has a NaN.
pub open spec fn all_ordered(boxes: Seq<AABB>) -> bool {
    forall|k: int| 0 <= k < boxes.len() ==> (#[trigger] boxes[k]).ordered()
}

/// A recorded hit is the unbounded hit of the object it names.
pub open spec fn genuine<H>(
    best: Option<Found<H>>,
    strike: spec_fn(usize, Option<H>) -> Option<H>,
    count: int,
) -> bool {
    best matches Some(found) ==> found.object < count && strike(found.object, None) == Some(
        found.hit,
    )
}

/// `later` is `earlier` itself, or a hit where there was none, or a hit
/// that lies closer: a hit gives way to a strictly closer one only.
pub open spec fn kept_or_closer<H>(
    later: Option<Found<H>>,
    earlier: Option<Found<H>>,
    dist: spec_fn(H) -> int,
) -> bool {
    later == earlier || match (later, earlier) {
        (Some(l), Some(e)) => dist(l.hit) < dist(e.hit),
        (Some(_), None) => true,
        _ => false,
    }
}

/// `later` lies no farther than `earlier`, where there is an `earlier`.
pub open spec fn no_farther<H>(
    later: Option<Found<H>>,
    earlier: Option<Found<H>>,
    dist: spec_fn(H) -> int,
) -> bool {
    earlier matches Some(e) ==> later matches Some(l) && dist(l.hit) <= dist(e.hit)
}

/// Where the search found a hit other than the one it started from, every
/// object from `next` up to the one it names lies farther than that hit.
pub open spec fn first_so_close<H>(
    later: Option<Found<H>>,
    earlier: Option<Found<H>>,
    next: int,
    strike: spec_fn(usize, Option<H>) -> Option<H>,
    dist: spec_fn(H) -> int,
) -> bool {
    later != earlier ==> match later {
        Some(found) => next <= found.object && forall|id: usize|
            next <= id < found.object ==> (#[trigger] strike(id, None) matches Some(h) ==> dist(
                found.hit,
            ) < dist(h)),
        None => false,
    }
}

/// No object named in `among` has a hit closer than `best`.
pub open spec fn closest_among<H>(
    best: Option<Found<H>>,
    among: Seq<usize>,
    strike: spec_fn(usize, Option<H>) -> Option<H>,
    dist: spec_fn(H) -> int,
) -> bool {
    forall|k: int|
        0 <= k < among.len() ==> (strike(#[trigger] among[k], None) matches Some(h) ==> best matches Some(
            found,
        ) && dist(found.hit) <= dist(h))
}

/// `best` is the closest hit of the scene: the unbounded hit of one of the
/// `count` objects, with none closer.
pub open spec fn closest_of<H>(
    best: Option<Found<H>>,
    count: int,
    strike: spec_fn(usize, Option<H>) -> Option<H>,
    dist: spec_fn(H) -> int,
) -> bool {
    &&& genuine(best, strike, count)
    &&& forall|id: usize|
        id < count ==> (#[trigger] strike(id, None) matches Some(h) ==> best matches Some(found)
            && dist(found.hit) <= dist(h))
}

impl Child {
    /// Every object under the child has a box, and the box of every node
    /// joins those of its two sides.
    pub open spec fn fits(self, boxes: Seq<AABB>) -> bool
        decreases self,
    {
        match self {
            Child::Object(id) => id < boxes.len(),
            Child::Node(node) => {
                &&& node.bbox.joins(node.left.bounds(boxes), node.right.bounds(boxes))
                &&& node.left.fits(boxes)
                &&& node.right.fits(boxes)
            },
        }
    }

    /// The box of a child holds no NaN and contains the box of every object
    /// under it, where the boxes of the objects hold none.
    pub proof fn lemma_bounds_contain_leaves(self, boxes: Seq<AABB>)
        requires
            self.fits(boxes),
            all_ordered(boxes),
        ensures
            self.bounds(boxes).ordered(),
            forall|k: int|
                0 <= k < self.leaves().len() ==> (#[trigger] self.leaves()[k]) < boxes.len()
                    && self.bounds(boxes).contains(boxes[self.leaves()[k] as int]),
        decreases self,
    {
        match self {
            Child::Object(id) => {
                assert(boxes[id as int].ordered());
            },
            Child::Node(node) => {
                node.left.lemma_bounds_contain_leaves(boxes);
                node.right.lemma_bounds_contain_leaves(boxes);
                let l = node.left.bounds(boxes);
                let r = node.right.bounds(boxes);
                node.bbox.lemma_union_contains(l, r);
                let ll = node.left.leaves();
                let rl = node.right.leaves();
                assert forall|k: int| 0 <= k < self.leaves().len() implies (
                #[trigger] self.leaves()[k]) < boxes.len() && self.bounds(boxes).contains(
                    boxes[self.leaves()[k] as int],
                ) by {
                    if k < ll.len() {
                        assert(self.leaves()[k] == ll[k]);
                        node.bbox.lemma_contains_transitive(l, boxes[ll[k] as int]);
                    } else {
                        assert(self.leaves()[k] == rl[k - ll.len()]);
                        node.bbox.lemma_contains_transitive(r, boxes[rl[k - ll.len()] as int]);
                    }
                }
            },
        }
    }
}

impl BvhNode {
    /// A tree that building can give fits the boxes it was built over, and
    /// the objects under it are those it was built over: each one is there,
    /// and no other.
    pub proof fn lemma_arranged_tree_holds_its_objects(self, boxes: Seq<AABB>, ids: Seq<usize>)
        requires
            self.arranges(boxes, ids),
        ensures
            Child::Node(Box::new(self)).fits(boxes),
            forall|k: int| 0 <= k < ids.len() ==> self.leaves().contains(#[trigger] ids[k]),
            forall|k: int| 0 <= k < self.leaves().len() ==> ids.contains(#[trigger] self.leaves()[k]),
        decreases self,
    {
        let leaves = self.leaves();
        if ids.len() == 1 {
            assert(leaves =~= seq![ids[0], ids[0]]);
            assert(leaves[0] == ids[0]);
            assert(self.left.fits(boxes) && self.right.fits(boxes));
        } else {
            let (axis, order) = choose|axis: int, order: Seq<usize>|
                {
                    &&& #[trigger] sorted_along(order, ids, boxes, axis)
                    &&& if ids.len() == 2 {
                        self.left == Child::Object(order[0]) && self.right == Child::Object(
                            order[1],
                        )
                    } else {
                        let mid = (ids.len() / 2) as int;
                        &&& self.left matches Child::Node(l) && l.arranges(boxes, order.take(mid))
                        &&& self.right matches Child::Node(r) && r.arranges(
                            boxes,
                            order.skip(mid),
                        )
                    }
                };
            let places = choose|places: Seq<usize>|
                #[trigger] is_stable_order(places, keys_along(boxes, ids, axis)) && taken_from(
                    order,
                    ids,
                    places,
                );
            assert forall|i: int| 0 <= i < order.len() implies ids.contains(#[trigger] order[i])
                && order[i] < boxes.len() by {
                assert(order[i] == ids[places[i] as int]);
            }
            let slot = Seq::new(
                ids.len(),
                |k: int| choose|i: int| 0 <= i < places.len() && places[i] == k as usize,
            );
            assert forall|k: int| 0 <= k < ids.len() implies 0 <= #[trigger] slot[k] < order.len()
                && order[slot[k]] == ids[k] by {
                assert(places.contains(k as usize));
            }
            let mid = (ids.len() / 2) as int;
            if ids.len() == 2 {
                assert(leaves =~= seq![order[0], order[1]]);
                assert(ids.contains(order[0]) && ids.contains(order[1]));
                assert(self.left.fits(boxes) && self.right.fits(boxes));
                assert forall|k: int| 0 <= k < ids.len() implies leaves.contains(
                    #[trigger] ids[k],
                ) by {
                    assert(0 <= slot[k] < order.len() && order[slot[k]] == ids[k]);
                    assert(leaves[slot[k]] == order[slot[k]]);
                }
                assert forall|k: int| 0 <= k < leaves.len() implies ids.contains(
                    #[trigger] leaves[k],
                ) by {
                    assert(leaves[k] == order[k]);
                }
            } else {
                let l = self.left->Node_0;
                let r = self.right->Node_0;
                let first = order.take(mid);
                let rest = order.skip(mid);
                l.lemma_arranged_tree_holds_its_objects(boxes, first);
                r.lemma_arranged_tree_holds_its_objects(boxes, rest);
                let ll = l.leaves();
                let rl = r.leaves();
                assert(leaves =~= ll + rl);
                assert(self.left == Child::Node(l) && self.right == Child::Node(r));
                assert(self.left.fits(boxes) && self.right.fits(boxes));
                assert forall|k: int| 0 <= k < ids.len() implies leaves.contains(
                    #[trigger] ids[k],
                ) by {
                    let s = slot[k];
                    assert(0 <= s < order.len() && order[s] == ids[k]);
                    if s < mid {
                        assert(first[s] == order[s]);
                        assert(ll.contains(first[s]));
                        let w = choose|w: int| 0 <= w < ll.len() && ll[w] == first[s];
                        assert(leaves[w] == ll[w]);
                    } else {
                        assert(rest[s - mid] == order[s]);
                        assert(rl.contains(rest[s - mid]));
                        let w = choose|w: int| 0 <= w < rl.len() && rl[w] == rest[s - mid];
                        assert(leaves[ll.len() + w] == rl[w]);
                    }
                }
                assert forall|k: int| 0 <= k < leaves.len() implies ids.contains(
                    #[trigger] leaves[k],
                ) by {
                    if k < ll.len() {
                        assert(leaves[k] == ll[k]);
                        assert(first.contains(ll[k]));
                        let w = choose|w: int| 0 <= w < first.len() && first[w] == ll[k];
                        assert(first[w] == order[w]);
                    } else {
                        assert(leaves[k] == rl[k - ll.len()]);
                        assert(rest.contains(rl[k - ll.len()]));
                        let w = choose|w: int| 0 <= w < rest.len() && rest[w] == rl[k - ll.len()];
                        assert(rest[w] == order[w + mid]);
                    }
                }
            }
        }
    }
}

/// Searching under a child leaves a genuine hit that lies no farther than
/// the hit of any object under the child; it is the hit that the search
/// started from, unless a strictly closer one was found. So the right side
/// of a node overrides the hit of its left side only with a closer one.
pub proof fn lemma_visit_finds_closest<H>(
    child: Child,
    best: Option<Found<H>>,
    boxes: Seq<AABB>,
    crosses: spec_fn(AABB, Option<H>) -> bool,
    strike: spec_fn(usize, Option<H>) -> Option<H>,
    dist: spec_fn(H) -> int,
)
    requires
        child.fits(boxes),
        all_ordered(boxes),
        bounded(strike, dist, boxes.len() as int),
        cautious(crosses, strike, boxes),
        genuine(best, strike, boxes.len() as int),
    ensures
        genuine(visit(child, best, crosses, strike), strike, boxes.len() as int),
        kept_or_closer(visit(child, best, crosses, strike), best, dist),
        no_farther(visit(child, best, crosses, strike), best, dist),
        closest_among(visit(child, best, crosses, strike), child.leaves(), strike, dist),
    decreases child,
{
    let bound = bound_of(best);
    match child {
        Child::Object(id) => {
            assert(strike(id, bound) == clip(strike(id, None), bound, dist));
            assert(child.leaves()[0] == id);
        },
        Child::Node(node) => {
            if crosses(node.bbox, bound) {
                let mid = visit(node.left, best, crosses, strike);
                let end = visit(node.right, mid, crosses, strike);
                lemma_visit_finds_closest(node.left, best, boxes, crosses, strike, dist);
                lemma_visit_finds_closest(node.right, mid, boxes, crosses, strike, dist);
                let ll = node.left.leaves();
                let rl = node.right.leaves();
                assert forall|k: int| 0 <= k < child.leaves().len() implies (strike(
                    #[trigger] child.leaves()[k],
                    None,
                ) matches Some(h) ==> end matches Some(found) && dist(found.hit) <= dist(h)) by {
                    if k < ll.len() {
                        assert(child.leaves()[k] == ll[k]);
                    } else {
                        assert(child.leaves()[k] == rl[k - ll.len()]);
                    }
                }
            } else {
                child.lemma_bounds_contain_leaves(boxes);
                assert forall|k: int| 0 <= k < child.leaves().len() implies (strike(
                    #[trigger] child.leaves()[k],
                    None,
                ) matches Some(h) ==> best matches Some(found) && dist(found.hit) <= dist(h)) by {
                    let id = child.leaves()[k];
                    assert(strike(id, bound) == clip(strike(id, None), bound, dist));
                    if strike(id, bound) is Some {
                        assert(crosses(boxes[id as int], bound));
                        assert(node.bbox.contains(boxes[id as int]));
                        assert(crosses(node.bbox, bound));
                    }
                }
            }
        },
    }
}

/// Under a node whose box the ray crosses, the hit of the right side takes
/// the place of the hit of the left side only where it lies strictly
/// closer; else the hit of the left side stands.
pub proof fn lemma_right_side_overrides_only_closer<H>(
    node: BvhNode,
    best: Option<Found<H>>,
    boxes: Seq<AABB>,
    crosses: spec_fn(AABB, Option<H>) -> bool,
    strike: spec_fn(usize, Option<H>) -> Option<H>,
    dist: spec_fn(H) -> int,
)
    requires
        Child::Node(Box::new(node)).fits(boxes),
        all_ordered(boxes),
        bounded(strike, dist, boxes.len() as int),
        cautious(crosses, strike, boxes),
        genuine(best, strike, boxes.len() as int),
        crosses(node.bbox, bound_of(best)),
    ensures
        ({
            let left = visit(node.left, best, crosses, strike);
            let both = visit(Child::Node(Box::new(node)), best, crosses, strike);
            &&& both == visit(node.right, left, crosses, strike)
            &&& kept_or_closer(both, left, dist)
        }),
{
    let left = visit(node.left, best, crosses, strike);
    lemma_visit_finds_closest(node.left, best, boxes, crosses, strike, dist);
    lemma_visit_finds_closest(node.right, left, boxes, crosses, strike, dist);
}

/// Searching the rest of a list leaves a genuine hit that lies no farther
/// than the hit of any object in the rest; it is the hit that the search
/// started from, unless a strictly closer one was found, and then it is
/// the hit of the first object that lies so close.
pub proof fn lemma_scan_finds_closest<H>(
    next: int,
    len: int,
    best: Option<Found<H>>,
    strike: spec_fn(usize, Option<H>) -> Option<H>,
    dist: spec_fn(H) -> int,
)
    requires
        0 <= next <= len <= usize::MAX,
        bounded(strike, dist, len),
        genuine(best, strike, len),
    ensures
        genuine(scan(next, len, best, strike), strike, len),
        kept_or_closer(scan(next, len, best, strike), best, dist),
        no_farther(scan(next, len, best, strike), best, dist),
        forall|id: usize|
            next <= id < len ==> (#[trigger] strike(id, None) matches Some(h) ==> scan(
                next,
                len,
                best,
                strike,
            ) matches Some(found) && dist(found.hit) <= dist(h)),
        first_so_close(scan(next, len, best, strike), best, next, strike, dist),
    decreases len - next,
{
    if next < len {
        let id = next as usize;
        let bound = bound_of(best);
        let mid = record(best, id, strike(id, bound));
        assert(strike(id, bound) == clip(strike(id, None), bound, dist));
        lemma_scan_finds_closest(next + 1, len, mid, strike, dist);
        let end = scan(next + 1, len, mid, strike);
        if end != best {
            let found = end->0;
            assert forall|earlier: usize| next <= earlier < found.object implies (
            #[trigger] strike(earlier, None) matches Some(h) ==> dist(found.hit) < dist(h)) by {
                if earlier == id {
                    assert(end != mid);
                }
            }
        }
    }
}

/// Two members of a list struck equally far: the search keeps the first.
/// The hit that a search through a list finds is the hit of the first
/// object that lies so close; every object before it lies farther.
pub proof fn lemma_list_keeps_the_first_of_equals<H>(
    count: int,
    strike: spec_fn(usize, Option<H>) -> Option<H>,
    dist: spec_fn(H) -> int,
)
    requires
        0 <= count <= usize::MAX,
        bounded(strike, dist, count),
    ensures
        first_so_close(scan(0, count, None, strike), None, 0, strike, dist),
{
    lemma_scan_finds_closest(0, count, None, strike, dist);
}

/// A search through a list finds the closest hit of the scene.
pub proof fn lemma_list_finds_closest<H>(
    count: int,
    strike: spec_fn(usize, Option<H>) -> Option<H>,
    dist: spec_fn(H) -> int,
)
    requires
        0 <= count <= usize::MAX,
        bounded(strike, dist, count),
    ensures
        closest_of(scan(0, count, None, strike), count, strike, dist),
{
    lemma_scan_finds_closest(0, count, None, strike, dist);
}

/// A search through a hierarchy that was built over the scene finds the
/// closest hit of the scene, where the box test is cautious.
pub proof fn lemma_hierarchy_finds_closest<H>(
    tree: BvhNode,
    boxes: Seq<AABB>,
    crosses: spec_fn(AABB, Option<H>) -> bool,
    strike: spec_fn(usize, Option<H>) -> Option<H>,
    dist: spec_fn(H) -> int,
)
    requires
        boxes.len() <= usize::MAX,
        tree.arranges(boxes, all_objects(boxes.len() as int)),
        all_ordered(boxes),
        bounded(strike, dist, boxes.len() as int),
        cautious(crosses, strike, boxes),
    ensures
        closest_of(
            visit(Child::Node(Box::new(tree)), None, crosses, strike),
            boxes.len() as int,
            strike,
            dist,
        ),
{
    let root = Child::Node(Box::new(tree));
    let ids = all_objects(boxes.len() as int);
    tree.lemma_arranged_tree_holds_its_objects(boxes, ids);
    lemma_visit_finds_closest(root, None, boxes, crosses, strike, dist);
    let found = visit(root, None, crosses, strike);
    assert(root.leaves() =~= tree.leaves());
    assert forall|id: usize| id < boxes.len() implies (#[trigger] strike(id, None) matches Some(h)
        ==> found matches Some(f) && dist(f.hit) <= dist(h)) by {
        assert(ids[id as int] == id);
        assert(tree.leaves().contains(ids[id as int]));
        let w = choose|w: int| 0 <= w < tree.leaves().len() && tree.leaves()[w] == id;
        assert(root.leaves()[w] == id);
    }
}

/// No two objects have unbounded hits equally far along the ray.
pub open spec fn distinct_distances<H>(
    count: int,
    strike: spec_fn(usize, Option<H>) -> Option<H>,
    dist: spec_fn(H) -> int,
) -> bool {
    forall|a: usize, b: usize|
        a < count && b < count && a != b && (#[trigger] strike(a, None)) is Some && (
        #[trigger] strike(b, None)) is Some ==> dist(strike(a, None)->0) != dist(
            strike(b, None)->0,
        )
}

/// The two hits lie equally far along the ray, or both are none.
pub open spec fn equally_far<H>(
    a: Option<Found<H>>,
    b: Option<Found<H>>,
    dist: spec_fn(H) -> int,
) -> bool {
    match (a, b) {
        (Some(x), Some(y)) => dist(x.hit) == dist(y.hit),
        (None, None) => true,
        _ => false,
    }
}

/// Two closest hits of one scene lie equally far along the ray, or both
/// are none; and they are the same hit on the same object, where no two
/// objects have hits equally far.
pub proof fn lemma_closest_is_one_distance<H>(
    a: Option<Found<H>>,
    b: Option<Found<H>>,
    count: int,
    strike: spec_fn(usize, Option<H>) -> Option<H>,
    dist: spec_fn(H) -> int,
)
    requires
        closest_of(a, count, strike, dist),
        closest_of(b, count, strike, dist),
    ensures
        equally_far(a, b, dist),
        distinct_distances(count, strike, dist) ==> a == b,
{
    if a is Some {
        assert(strike(a->0.object, None) == Some(a->0.hit));
    }
    if b is Some {
        assert(strike(b->0.object, None) == Some(b->0.hit));
    }
}

/// A hierarchy built over a scene and a list of the same scene find hits
/// equally far along the ray, or none at all; and the same hit on the same
/// object, where no two objects have hits equally far.
pub proof fn lemma_hierarchy_agrees_with_list<H>(
    tree: BvhNode,
    boxes: Seq<AABB>,
    crosses: spec_fn(AABB, Option<H>) -> bool,
    strike: spec_fn(usize, Option<H>) -> Option<H>,
    dist: spec_fn(H) -> int,
)
    requires
        boxes.len() <= usize::MAX,
        tree.arranges(boxes, all_objects(boxes.len() as int)),
        all_ordered(boxes),
        bounded(strike, dist, boxes.len() as int),
        cautious(crosses, strike, boxes),
    ensures
        ({
            let through_tree = visit(Child::Node(Box::new(tree)), None, crosses, strike);
            let through_list = scan(0, boxes.len() as int, None, strike);
            &&& equally_far(through_tree, through_list, dist)
            &&& distinct_distances(boxes.len() as int, strike, dist) ==> through_tree
                == through_list
        }),
{
    let count = boxes.len() as int;
    lemma_hierarchy_finds_closest(tree, boxes, crosses, strike, dist);
    lemma_list_finds_closest(count, strike, dist);
    lemma_closest_is_one_distance(
        visit(Child::Node(Box::new(tree)), None, crosses, strike),
        scan(0, count, None, strike),
        count,
        strike,
        dist,
    );
}

/// `order` names every object of a scene of its length once: `back` leads
/// from each object to its place in `order`.
pub open spec fn rearranges(order: Seq<usize>, back: Seq<usize>) -> bool {
    &&& back.len() == order.len()
    &&& forall|k: int| 0 <= k < order.len() ==> (#[trigger] order[k]) < order.len()
    &&& forall|id: int|
        0 <= id < order.len() ==> (#[trigger] back[id]) < order.len() && order[back[id] as int]
            == id
}

/// The test of the object that stands at a place of a rearranged scene.
pub open spec fn rearranged<H>(
    strike: spec_fn(usize, Option<H>) -> Option<H>,
    order: Seq<usize>,
) -> spec_fn(usize, Option<H>) -> Option<H> {
    |place: usize, bound: Option<H>| strike(order[place as int], bound)
}

/// A hit of a rearranged scene, named as in the scene itself.
pub open spec fn renamed<H>(found: Option<Found<H>>, order: Seq<usize>) -> Option<Found<H>> {
    match found {
        Some(f) => Some(Found { object: order[f.object as int], hit: f.hit }),
        None => None,
    }
}

/// A hierarchy built over a scene in any order of its objects and a list
/// of the scene find hits equally far along the ray, or none at all; and
/// the same hit on the same object, where no two objects have hits equally
/// far.
pub proof fn lemma_hierarchy_over_any_order_agrees_with_list<H>(
    tree: BvhNode,
    boxes: Seq<AABB>,
    order: Seq<usize>,
    back: Seq<usize>,
    crosses: spec_fn(AABB, Option<H>) -> bool,
    strike: spec_fn(usize, Option<H>) -> Option<H>,
    dist: spec_fn(H) -> int,
)
    requires
        boxes.len() <= usize::MAX,
        order.len() == boxes.len(),
        rearranges(order, back),
        tree.arranges(
            Seq::new(boxes.len(), |k: int| boxes[order[k] as int]),
            all_objects(boxes.len() as int),
        ),
        all_ordered(boxes),
        bounded(strike, dist, boxes.len() as int),
        cautious(crosses, strike, boxes),
    ensures
        ({
            let through_tree = renamed(
                visit(Child::Node(Box::new(tree)), None, crosses, rearranged(strike, order)),
                order,
            );
            let through_list = scan(0, boxes.len() as int, None, strike);
            &&& equally_far(through_tree, through_list, dist)
            &&& distinct_distances(boxes.len() as int, strike, dist) ==> through_tree
                == through_list
        }),
{
    let count = boxes.len() as int;
    let turned = Seq::new(boxes.len(), |k: int| boxes[order[k] as int]);
    let strike2 = rearranged(strike, order);
    assert forall|k: int| 0 <= k < turned.len() implies (#[trigger] turned[k]).ordered() by {
        assert(boxes[order[k] as int].ordered());
    }
    assert forall|place: usize, bound: Option<H>|
        place < count && arises(bound, strike2, count) implies #[trigger] strike2(place, bound)
        == clip(strike2(place, None), bound, dist) by {
        if bound is Some {
            let at = choose|at: usize| at < count && #[trigger] strike2(at, None) == Some(bound->0);
            assert(strike(order[at as int], None) == Some(bound->0));
        }
        assert(arises(bound, strike, count));
        assert(strike(order[place as int], bound) == clip(
            strike(order[place as int], None),
            bound,
            dist,
        ));
    }
    assert forall|place: usize, bound: Option<H>|
        place < turned.len() && (#[trigger] strike2(place, bound)) is Some implies crosses(
        turned[place as int],
        bound,
    ) by {
        assert(strike(order[place as int], bound) is Some);
    }
    lemma_hierarchy_finds_closest(tree, turned, crosses, strike2, dist);
    lemma_list_finds_closest(count, strike, dist);
    let found = visit(Child::Node(Box::new(tree)), None, crosses, strike2);
    let named = renamed(found, order);
    assert(closest_of(named, count, strike, dist)) by {
        if found is Some {
            assert(strike2(found->0.object, None) == Some(found->0.hit));
        }
        assert forall|id: usize| id < count implies (#[trigger] strike(id, None) matches Some(h)
            ==> named matches Some(f) && dist(f.hit) <= dist(h)) by {
            let place = back[id as int];
            assert(order[place as int] == id);
            assert(strike2(place, None) == strike(id, None));
        }
    }
    lemma_closest_is_one_distance(named, scan(0, count, None, strike), count, strike, dist);
}

} // verus!
