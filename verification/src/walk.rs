//! Closest-hit search, as a conversation: the search names what is to be
//! tested next, a box or an object, the caller tests it against its ray and
//! answers, and the search goes on from the answer.
//!
//! The caller tests every box and every object against the open interval
//! that ends at the closest hit found so far, or at its own far limit as
//! long as there is none: a hit counts only where it lies strictly closer.
//! A hit record `H` is the caller's: the search stores the latest one and
//! reads nothing in it.

use crate::aabb::AABB;
use crate::bvh::{BvhNode, Child};
use vstd::prelude::*;

verus! {

/// A hit, with the object that was struck.
pub struct Found<H> {
    pub object: usize,
    pub hit: H,
}

/// What the caller is to test next.
pub enum Probe {
    /// Does the ray cross this box?
    Bounds(AABB),
    /// Does the ray strike this object?
    Object(usize),
    /// Nothing is left to test.
    Done,
}

/// The caller's answer to a probe.
pub enum Event<H> {
    /// To `Probe::Bounds`: whether the ray crosses the box.
    Crossed(bool),
    /// To `Probe::Object`: the hit, if there is one.
    Struck(Option<H>),
}

/// The hit that bounds the next test.
pub open spec fn bound_of<H>(best: Option<Found<H>>) -> Option<H> {
    match best {
        Some(found) => Some(found.hit),
        None => None,
    }
}

/// The closest hit after an object has answered: its hit, where it has one.
pub open spec fn record<H>(best: Option<Found<H>>, object: usize, outcome: Option<H>) -> Option<
    Found<H>,
> {
    match outcome {
        Some(hit) => Some(Found { object, hit }),
        None => best,
    }
}

/// The closest hit after everything under `child` was searched, starting
/// from `best`: an object is struck within the bound and recorded; a node
/// whose box the ray does not cross is passed over; else its left side is
/// searched, then its right side against what the left side found.
pub open spec fn visit<H>(
    child: Child,
    best: Option<Found<H>>,
    crosses: spec_fn(AABB, Option<H>) -> bool,
    strike: spec_fn(usize, Option<H>) -> Option<H>,
) -> Option<Found<H>>
    decreases child,
{
    match child {
        Child::Object(id) => record(best, id, strike(id, bound_of(best))),
        Child::Node(node) => if crosses(node.bbox, bound_of(best)) {
            visit(node.right, visit(node.left, best, crosses, strike), crosses, strike)
        } else {
            best
        },
    }
}

/// The closest hit after every entry of a work stack was searched, the
/// last entry first.
pub open spec fn run<H>(
    stack: Seq<Child>,
    best: Option<Found<H>>,
    crosses: spec_fn(AABB, Option<H>) -> bool,
    strike: spec_fn(usize, Option<H>) -> Option<H>,
) -> Option<Found<H>>
    decreases stack.len(),
{
    if stack.len() == 0 {
        best
    } else {
        run(stack.drop_last(), visit(stack.last(), best, crosses, strike), crosses, strike)
    }
}

/// The closest hit after the objects `next..len` of a list were searched
/// in order, starting from `best`.
pub open spec fn scan<H>(
    next: int,
    len: int,
    best: Option<Found<H>>,
    strike: spec_fn(usize, Option<H>) -> Option<H>,
) -> Option<Found<H>>
    decreases len - next,
{
    if next < 0 || next >= len {
        best
    } else {
        scan(next + 1, len, record(best, next as usize, strike(next as usize, bound_of(best))), strike)
    }
}

/// What a work stack asks for: its last entry.
pub open spec fn probe_of(stack: Seq<Child>) -> Probe {
    if stack.len() == 0 {
        Probe::Done
    } else {
        match stack.last() {
            Child::Object(id) => Probe::Object(id),
            Child::Node(node) => Probe::Bounds(node.bbox),
        }
    }
}

/// The work stack after an answer. An answer of the kind that was asked
/// for takes the last entry off, and a crossed box puts the node's right
/// and left side on; any other answer changes nothing.
pub open spec fn stack_after<H>(stack: Seq<Child>, event: Event<H>) -> Seq<Child> {
    if stack.len() == 0 {
        stack
    } else {
        match (stack.last(), event) {
            (Child::Object(_), Event::Struck(_)) => stack.drop_last(),
            (Child::Node(node), Event::Crossed(crossed)) => if crossed {
                stack.drop_last().push(node.right).push(node.left)
            } else {
                stack.drop_last()
            },
            _ => stack,
        }
    }
}

/// The closest hit after an answer: the hit of the object asked about,
/// where the answer brings one.
pub open spec fn best_after<H>(stack: Seq<Child>, best: Option<Found<H>>, event: Event<H>) -> Option<
    Found<H>,
> {
    if stack.len() == 0 {
        best
    } else {
        match (stack.last(), event) {
            (Child::Object(id), Event::Struck(outcome)) => record(best, id, outcome),
            _ => best,
        }
    }
}

/// The answer that the two tests give to what a work stack asks for.
pub open spec fn answer<H>(
    stack: Seq<Child>,
    best: Option<Found<H>>,
    crosses: spec_fn(AABB, Option<H>) -> bool,
    strike: spec_fn(usize, Option<H>) -> Option<H>,
) -> Event<H>
    recommends
        stack.len() > 0,
{
    match stack.last() {
        Child::Object(id) => Event::Struck(strike(id, bound_of(best))),
        Child::Node(node) => Event::Crossed(crosses(node.bbox, bound_of(best))),
    }
}

/// An entry of the work stack of a search.
#[derive(Clone, Copy)]
pub enum Pending<'a> {
    Object(usize),
    Node(&'a BvhNode),
}

impl<'a> Pending<'a> {
    /// The child that the entry stands for.
    pub open spec fn child(self) -> Child {
        match self {
            Pending::Object(id) => Child::Object(id),
            Pending::Node(node) => Child::Node(Box::new(*node)),
        }
    }

    fn of(child: &'a Child) -> (entry: Pending<'a>)
        ensures
            entry.child() == *child,
    {
        match child {
            Child::Object(id) => Pending::Object(*id),
            Child::Node(node) => Pending::Node(&**node),
        }
    }
}

/// A search through a hierarchy.
pub struct Walk<'a, H> {
    stack: Vec<Pending<'a>>,
    best: Option<Found<H>>,
}

impl<'a, H> Walk<'a, H> {
    /// What is still to be searched, the next entry last.
    pub closed spec fn stack(&self) -> Seq<Child> {
        self.stack@.map_values(|entry: Pending<'a>| entry.child())
    }

    /// The closest hit so far.
    pub closed spec fn best(&self) -> Option<Found<H>> {
        self.best
    }

    /// Starts a search at the root, with no hit yet.
    pub fn begin(root: &'a BvhNode) -> (walk: Self)
        ensures
            walk.stack() == seq![Child::Node(Box::new(*root))],
            walk.best() is None,
    {
        let mut stack: Vec<Pending<'a>> = Vec::new();
        stack.push(Pending::Node(root));
        let walk = Walk { stack, best: None };
        proof {
            assert(walk.stack() =~= seq![Child::Node(Box::new(*root))]);
        }
        walk
    }

    /// What the caller is to test next.
    pub fn probe(&self) -> (probe: Probe)
        ensures
            probe == probe_of(self.stack()),
    {
        let n = self.stack.len();
        if n == 0 {
            Probe::Done
        } else {
            match self.stack[n - 1] {
                Pending::Object(id) => Probe::Object(id),
                Pending::Node(node) => Probe::Bounds(node.bbox),
            }
        }
    }

    /// The hit that bounds the next test: the closest so far.
    pub fn bound(&self) -> (bound: Option<&H>)
        ensures
            match bound {
                Some(hit) => bound_of(self.best()) == Some(*hit),
                None => self.best() is None,
            },
    {
        match &self.best {
            Some(found) => Some(&found.hit),
            None => None,
        }
    }

    /// Takes the caller's answer to the last probe.
    pub fn advance(&mut self, event: Event<H>)
        ensures
            final(self).stack() == stack_after(old(self).stack(), event),
            final(self).best() == best_after(old(self).stack(), old(self).best(), event),
    {
        let n = self.stack.len();
        if n == 0 {
            return ;
        }
        let ghost before = self.stack@;
        let top = self.stack[n - 1];
        match (top, event) {
            (Pending::Object(id), Event::Struck(outcome)) => {
                self.stack.pop();
                if let Some(hit) = outcome {
                    self.best = Some(Found { object: id, hit });
                }
                proof {
                    assert(self.stack() =~= old(self).stack().drop_last());
                }
            },
            (Pending::Node(node), Event::Crossed(crossed)) => {
                self.stack.pop();
                if crossed {
                    self.stack.push(Pending::of(&node.right));
                    self.stack.push(Pending::of(&node.left));
                    proof {
                        assert(self.stack() =~= old(self).stack().drop_last().push(node.right).push(
                            node.left,
                        ));
                    }
                } else {
                    proof {
                        assert(self.stack() =~= old(self).stack().drop_last());
                    }
                }
            },
            _ => {},
        }
    }

    /// Ends the search and gives the closest hit found.
    pub fn finish(self) -> (best: Option<Found<H>>)
        ensures
            best == self.best(),
    {
        self.best
    }
}

/// A search through a list of objects, one after the other.
pub struct ListScan<H> {
    next: usize,
    len: usize,
    best: Option<Found<H>>,
}

impl<H> ListScan<H> {
    /// The object that is asked about next.
    pub closed spec fn next(&self) -> int {
        self.next as int
    }

    /// The number of objects in the list.
    pub closed spec fn len(&self) -> int {
        self.len as int
    }

    /// The closest hit so far.
    pub closed spec fn best(&self) -> Option<Found<H>> {
        self.best
    }

    /// Starts a search over `len` objects, with no hit yet.
    pub fn begin(len: usize) -> (list: Self)
        ensures
            list.next() == 0,
            list.len() == len,
            list.best() is None,
    {
        ListScan { next: 0, len, best: None }
    }

    /// What the caller is to test next.
    pub fn probe(&self) -> (probe: Probe)
        ensures
            probe == if 0 <= self.next() < self.len() {
                Probe::Object(self.next() as usize)
            } else {
                Probe::Done
            },
    {
        if self.next < self.len {
            Probe::Object(self.next)
        } else {
            Probe::Done
        }
    }

    /// The hit that bounds the next test: the closest so far.
    pub fn bound(&self) -> (bound: Option<&H>)
        ensures
            match bound {
                Some(hit) => bound_of(self.best()) == Some(*hit),
                None => self.best() is None,
            },
    {
        match &self.best {
            Some(found) => Some(&found.hit),
            None => None,
        }
    }

    /// Takes the caller's answer to the last probe. Only a `Struck` answer
    /// to an object moves the search on.
    pub fn advance(&mut self, event: Event<H>)
        ensures
            final(self).len() == old(self).len(),
            match event {
                Event::Struck(outcome) if 0 <= old(self).next() < old(self).len() => {
                    &&& final(self).next() == old(self).next() + 1
                    &&& final(self).best() == record(
                        old(self).best(),
                        old(self).next() as usize,
                        outcome,
                    )
                },
                _ => final(self).next() == old(self).next() && final(self).best() == old(
                    self,
                ).best(),
            },
    {
        if self.next < self.len {
            match event {
                Event::Struck(outcome) => {
                    if let Some(hit) = outcome {
                        self.best = Some(Found { object: self.next, hit });
                    }
                    self.next = self.next + 1;
                },
                Event::Crossed(_) => {},
            }
        }
    }

    /// Ends the search and gives the closest hit found.
    pub fn finish(self) -> (best: Option<Found<H>>)
        ensures
            best == self.best(),
    {
        self.best
    }
}

impl BvhNode {
    /// Starts a closest-hit search through the hierarchy.
    pub fn hit<'a, H>(&'a self) -> (walk: Walk<'a, H>)
        ensures
            walk.stack() == seq![Child::Node(Box::new(*self))],
            walk.best() is None,
    {
        Walk::begin(self)
    }

    /// The box around everything in the hierarchy.
    pub fn bounding_box(&self) -> (bbox: AABB)
        ensures
            bbox == self.bbox,
    {
        self.bbox
    }
}

/// A step of the search through a hierarchy, taken on the answer that the
/// two tests give, does not change what the search will find.
pub proof fn lemma_step_keeps_outcome<H>(
    stack: Seq<Child>,
    best: Option<Found<H>>,
    crosses: spec_fn(AABB, Option<H>) -> bool,
    strike: spec_fn(usize, Option<H>) -> Option<H>,
)
    requires
        stack.len() > 0,
    ensures
        ({
            let event = answer(stack, best, crosses, strike);
            run(stack_after(stack, event), best_after(stack, best, event), crosses, strike) == run(
                stack,
                best,
                crosses,
                strike,
            )
        }),
{
    let event = answer(stack, best, crosses, strike);
    let rest = stack.drop_last();
    match stack.last() {
        Child::Object(id) => {},
        Child::Node(node) => {
            if crosses(node.bbox, bound_of(best)) {
                let two = rest.push(node.right).push(node.left);
                let one = rest.push(node.right);
                assert(two.drop_last() =~= one);
                assert(one.drop_last() =~= rest);
                let mid = visit(node.left, best, crosses, strike);
                assert(run(two, best, crosses, strike) == run(one, mid, crosses, strike));
                assert(run(one, mid, crosses, strike) == run(
                    rest,
                    visit(node.right, mid, crosses, strike),
                    crosses,
                    strike,
                ));
            }
        },
    }
}

/// A search that has just begun at a root will find what searching under
/// the root finds.
pub proof fn lemma_run_from_root<H>(
    tree: BvhNode,
    crosses: spec_fn(AABB, Option<H>) -> bool,
    strike: spec_fn(usize, Option<H>) -> Option<H>,
)
    ensures
        run(seq![Child::Node(Box::new(tree))], None, crosses, strike) == visit(
            Child::Node(Box::new(tree)),
            None,
            crosses,
            strike,
        ),
{
    let stack = seq![Child::Node(Box::new(tree))];
    assert(stack.drop_last() =~= Seq::<Child>::empty());
    let after = visit(stack.last(), None, crosses, strike);
    assert(run(stack.drop_last(), after, crosses, strike) == after);
}

/// A step of the search through a list, taken on the answer that the test
/// gives, does not change what the search will find.
pub proof fn lemma_list_step_keeps_outcome<H>(
    next: int,
    len: int,
    best: Option<Found<H>>,
    strike: spec_fn(usize, Option<H>) -> Option<H>,
)
    requires
        0 <= next < len,
    ensures
        scan(
            next + 1,
            len,
            record(best, next as usize, strike(next as usize, bound_of(best))),
            strike,
        ) == scan(next, len, best, strike),
{
}

} // verus!
