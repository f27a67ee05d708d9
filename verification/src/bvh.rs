//! The bounding-volume hierarchy: a binary tree over the objects of a scene,
//! built by sorting along a random axis and halving.
//!
//! An object is named by its position in the slice of boxes that the tree is
//! built from.

use crate::aabb::AABB;
use crate::sort::{is_stable_order, stable_order};
use rand::Rng;
use vstd::arithmetic::power2::{lemma2_to64, lemma_pow2_unfold, pow2};
use vstd::prelude::*;

verus! {

/// What hangs under a node: one object, or another node.
pub enum Child {
    Object(usize),
    Node(Box<BvhNode>),
}

/// A node: two children and a box around both.
pub struct BvhNode {
    pub left: Child,
    pub right: Child,
    pub bbox: AABB,
}

/// The names of the objects of a scene: `0, 1, .., count - 1`.
pub open spec fn all_objects(count: int) -> Seq<usize> {
    Seq::new(count as nat, |k: int| k as usize)
}

/// The keys by which the named objects are sorted along an axis, place
/// by place: the rank of each object's box.
pub open spec fn keys_along(boxes: Seq<AABB>, ids: Seq<usize>, axis: int) -> Seq<i32> {
    Seq::new(ids.len(), |k: int| boxes[ids[k] as int].axis_rank(axis) as i32)
}

/// `order` holds the entries of `ids` that stand at the given places, in
/// the order of the places.
pub open spec fn taken_from(order: Seq<usize>, ids: Seq<usize>, places: Seq<usize>) -> bool {
    &&& order.len() == places.len()
    &&& forall|i: int| 0 <= i < order.len() ==> #[trigger] order[i] == ids[places[i] as int]
}

/// `order` is `ids` sorted stably by the rank of the boxes along one of
/// the three axes: by rising rank, and entries of equal rank in the order
/// they have in `ids`.
pub open spec fn sorted_along(order: Seq<usize>, ids: Seq<usize>, boxes: Seq<AABB>, axis: int) -> bool {
    &&& 0 <= axis < 3
    &&& exists|places: Seq<usize>|
        #[trigger] is_stable_order(places, keys_along(boxes, ids, axis)) && taken_from(
            order,
            ids,
            places,
        )
}

impl Child {
    /// The box of a child: the object's own, or the node's.
    pub open spec fn bounds(self, boxes: Seq<AABB>) -> AABB {
        match self {
            Child::Object(id) => boxes[id as int],
            Child::Node(node) => node.bbox,
        }
    }

    /// The objects under a child, left to right.
    pub open spec fn leaves(self) -> Seq<usize>
        decreases self,
    {
        match self {
            Child::Object(id) => seq![id],
            Child::Node(node) => node.left.leaves() + node.right.leaves(),
        }
    }
}

impl BvhNode {
    /// The objects under a node, left to right. A node over one object
    /// names it twice.
    pub open spec fn leaves(self) -> Seq<usize> {
        self.left.leaves() + self.right.leaves()
    }

    /// The number of nodes on the longest way down from this node.
    pub open spec fn height(self) -> nat
        decreases self,
    {
        let l: nat = match self.left {
            Child::Object(_) => 0,
            Child::Node(node) => node.height(),
        };
        let r: nat = match self.right {
            Child::Object(_) => 0,
            Child::Node(node) => node.height(),
        };
        if l >= r {
            l + 1
        } else {
            r + 1
        }
    }

    /// The tree is one that building over `ids` can give: the box of every
    /// node joins those of its children; a node over one object holds it on
    /// both sides; a node over more holds, for some axis, the first half of
    /// the objects as sorted stably along it on the left and the rest on
    /// the right, as objects where there are two, as nodes else.
    pub open spec fn arranges(self, boxes: Seq<AABB>, ids: Seq<usize>) -> bool
        decreases self,
    {
        &&& ids.len() >= 1
        &&& forall|k: int| 0 <= k < ids.len() ==> (#[trigger] ids[k]) < boxes.len()
        &&& self.bbox.joins(self.left.bounds(boxes), self.right.bounds(boxes))
        &&& if ids.len() == 1 {
            self.left == Child::Object(ids[0]) && self.right == Child::Object(ids[0])
        } else {
            exists|axis: int, order: Seq<usize>|
                {
                    &&& #[trigger] sorted_along(order, ids, boxes, axis)
                    &&& if ids.len() == 2 {
                        self.left == Child::Object(order[0]) && self.right == Child::Object(
                            order[1],
                        )
                    } else {
                        let mid = (ids.len() / 2) as int;
                        &&& self.left matches Child::Node(l) && l.arranges(boxes, order.take(mid))
                        &&& self.right matches Child::Node(r) && r.arranges(
                            boxes,
                            order.skip(mid),
                        )
                    }
                }
        }
    }
}

/// `Rng::gen_range` of rand, on `0..=2`, drawn from the generator of the
/// calling thread: one of the three axes.
#[verifier::external_body]
fn random_axis() -> (axis: usize)
    ensures
        axis <= 2,
{
    rand::thread_rng().gen_range(0..=2)
}

/// Sorts object names by the rank of their boxes along an axis, keeping
/// the given order among equal ranks.
pub fn sort_along(boxes: &[AABB], ids: &Vec<usize>, axis: usize) -> (order: Vec<usize>)
    requires
        axis < 3,
        forall|k: int| 0 <= k < ids.len() ==> (#[trigger] ids[k]) < boxes.len(),
    ensures
        sorted_along(order@, ids@, boxes@, axis as int),
{
    let ghost wanted = keys_along(boxes@, ids@, axis as int);
    let mut keys: Vec<i32> = Vec::with_capacity(ids.len());
    let mut k: usize = 0;
    while k < ids.len()
        invariant
            k <= ids.len(),
            axis < 3,
            wanted == keys_along(boxes@, ids@, axis as int),
            forall|k: int| 0 <= k < ids.len() ==> (#[trigger] ids[k]) < boxes.len(),
            keys@ =~= wanted.take(k as int),
        decreases ids.len() - k,
    {
        keys.push(boxes[ids[k]].axis_key(axis));
        k += 1;
    }
    proof {
        assert(wanted.take(k as int) =~= wanted);
    }
    let places = stable_order(&keys);
    let mut order: Vec<usize> = Vec::with_capacity(ids.len());
    let mut i: usize = 0;
    while i < places.len()
        invariant
            i <= places.len(),
            places.len() == ids.len(),
            is_stable_order(places@, wanted),
            wanted.len() == ids.len(),
            order.len() == i,
            forall|o: int| 0 <= o < i ==> #[trigger] order[o] == ids[places[o] as int],
        decreases places.len() - i,
    {
        order.push(ids[places[i]]);
        i += 1;
    }
    proof {
        assert(taken_from(order@, ids@, places@));
    }
    order
}

impl BvhNode {
    /// The box of a child.
    fn child_box(child: &Child, boxes: &[AABB]) -> (bbox: AABB)
        requires
            child matches Child::Object(id) ==> id < boxes.len(),
        ensures
            bbox == child.bounds(boxes@),
    {
        match child {
            Child::Object(id) => boxes[*id],
            Child::Node(node) => node.bbox,
        }
    }

    /// Puts a node over two children.
    fn over(left: Child, right: Child, boxes: &[AABB]) -> (node: BvhNode)
        requires
            left matches Child::Object(id) ==> id < boxes.len(),
            right matches Child::Object(id) ==> id < boxes.len(),
        ensures
            node.left == left,
            node.right == right,
            node.bbox.joins(left.bounds(boxes@), right.bounds(boxes@)),
    {
        let bbox = AABB::surrounding_box(
            Self::child_box(&left, boxes),
            Self::child_box(&right, boxes),
        );
        BvhNode { left, right, bbox }
    }

    /// Builds the tree over the named objects.
    fn build(boxes: &[AABB], ids: Vec<usize>) -> (node: BvhNode)
        requires
            ids.len() >= 1,
            forall|k: int| 0 <= k < ids.len() ==> (#[trigger] ids[k]) < boxes.len(),
        ensures
            node.arranges(boxes@, ids@),
        decreases ids.len(),
    {
        let axis = random_axis();
        let n = ids.len();
        if n == 1 {
            return Self::over(Child::Object(ids[0]), Child::Object(ids[0]), boxes);
        }
        let mut order = sort_along(boxes, &ids, axis);
        let ghost sorted = order@;
        proof {
            let places = choose|places: Seq<usize>|
                #[trigger] is_stable_order(places, keys_along(boxes@, ids@, axis as int))
                    && taken_from(sorted, ids@, places);
            assert forall|i: int| 0 <= i < sorted.len() implies (#[trigger] sorted[i])
                < boxes.len() by {
                assert(sorted[i] == ids@[places[i] as int]);
            }
        }
        if n == 2 {
            let node = Self::over(Child::Object(order[0]), Child::Object(order[1]), boxes);
            proof {
                assert(sorted_along(sorted, ids@, boxes@, axis as int));
                assert(node.arranges(boxes@, ids@));
            }
            return node;
        }
        let mid = n / 2;
        let rest = order.split_off(mid);
        proof {
            assert(order@ =~= sorted.take(mid as int));
            assert(rest@ =~= sorted.skip(mid as int));
            assert forall|i: int| 0 <= i < order@.len() implies (#[trigger] order@[i])
                < boxes.len() by {
                assert(order@[i] == sorted[i]);
            }
            assert forall|i: int| 0 <= i < rest@.len() implies (#[trigger] rest@[i])
                < boxes.len() by {
                assert(rest@[i] == sorted[i + mid]);
            }
        }
        let l = Self::build(boxes, order);
        let r = Self::build(boxes, rest);
        let node = Self::over(Child::Node(Box::new(l)), Child::Node(Box::new(r)), boxes);
        proof {
            assert(sorted_along(sorted, ids@, boxes@, axis as int));
            assert(node.arranges(boxes@, ids@));
        }
        node
    }

    /// A tree over one or two objects is one node high, and a tree over
    /// more is balanced: two to the power of one less than its height is
    /// at most one less than the number of objects.
    pub proof fn lemma_height_is_logarithmic(self, boxes: Seq<AABB>, ids: Seq<usize>)
        requires
            self.arranges(boxes, ids),
        ensures
            self.height() >= 1,
            ids.len() <= 2 ==> self.height() == 1,
            ids.len() >= 3 ==> pow2((self.height() - 1) as nat) <= ids.len() - 1,
        decreases self,
    {
        lemma2_to64();
        if ids.len() >= 2 {
            let (axis, order) = choose|axis: int, order: Seq<usize>|
                {
                    &&& #[trigger] sorted_along(order, ids, boxes, axis)
                    &&& if ids.len() == 2 {
                        self.left == Child::Object(order[0]) && self.right == Child::Object(
                            order[1],
                        )
                    } else {
                        let mid = (ids.len() / 2) as int;
                        &&& self.left matches Child::Node(l) && l.arranges(boxes, order.take(mid))
                        &&& self.right matches Child::Node(r) && r.arranges(
                            boxes,
                            order.skip(mid),
                        )
                    }
                };
            if ids.len() >= 3 {
                let n = ids.len() as int;
                let mid = n / 2;
                let l = self.left->Node_0;
                let r = self.right->Node_0;
                l.lemma_height_is_logarithmic(boxes, order.take(mid));
                r.lemma_height_is_logarithmic(boxes, order.skip(mid));
                let hl = l.height();
                let hr = r.height();
                let deeper = if hl >= hr {
                    hl
                } else {
                    hr
                };
                assert(self.height() == deeper + 1);
                lemma_pow2_unfold(deeper);
                assert(order.take(mid).len() == mid);
                assert(order.skip(mid).len() == n - mid);
                if hl >= hr {
                    assert(2 * pow2((hl - 1) as nat) <= n - 1);
                } else {
                    assert(2 * pow2((hr - 1) as nat) <= n - 1);
                }
            }
        }
    }

    /// Builds the hierarchy over a scene given by the boxes of its objects.
    /// Object `k` is the one whose box is `objects[k]`.
    pub fn new(objects: &[AABB]) -> (node: BvhNode)
        requires
            objects.len() >= 1,
        ensures
            node.arranges(objects@, all_objects(objects.len() as int)),
    {
        let mut ids: Vec<usize> = Vec::new();
        let mut k: usize = 0;
        while k < objects.len()
            invariant
                k <= objects.len(),
                ids@ =~= all_objects(k as int),
            decreases objects.len() - k,
        {
            ids.push(k);
            k += 1;
        }
        Self::build(objects, ids)
    }
}

} // verus!
