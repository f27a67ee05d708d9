//! The tables of the noise generator: 256 gradient vectors and, for each
//! axis, a shuffled table of the numbers below 256 that scatters lattice
//! points over the gradients.

use crate::types::Point3;
use bevy_math::Vec3;
use rand::seq::SliceRandom;
use vstd::prelude::*;

verus! {

/// The number of gradients, and the length of every table.
pub const POINT_COUNT: usize = 256;

/// `SliceRandom::shuffle` of rand, with the generator of the calling
/// thread: the entries change places and nothing else.
#[verifier::external_body]
fn shuffle(table: &mut Vec<usize>)
    ensures
        final(table)@.to_multiset() == old(table)@.to_multiset(),
{
    table.shuffle(&mut rand::thread_rng());
}

/// The table holds every number below [`POINT_COUNT`] once.
pub open spec fn is_permutation_table(table: Seq<usize>) -> bool {
    &&& table.len() == POINT_COUNT
    &&& forall|i: int| 0 <= i < table.len() ==> #[trigger] table[i] < POINT_COUNT
    &&& table.no_duplicates()
}

/// The low eight bits of a lattice coordinate: its place in a table.
pub open spec fn table_slot(coordinate: i64) -> usize {
    (coordinate & 255) as usize
}

/// The place of a lattice coordinate in a table is the coordinate modulo
/// the table's length.
pub proof fn lemma_table_slot_is_remainder(coordinate: i64)
    ensures
        table_slot(coordinate) == coordinate as int % 256,
{
    assert(0 <= coordinate & 255 < 256) by (bit_vector);
    let low = coordinate & 255;
    assert((coordinate - low) % 256 == 0) by (bit_vector)
        requires
            low == coordinate & 255,
    ;
    let d = (coordinate - low) as int;
    assert(d % 256 == 0);
    assert(coordinate as int == 256 * (d / 256) + low as int) by (nonlinear_arith)
        requires
            d == coordinate - low,
            d % 256 == 0,
    ;
    vstd::arithmetic::div_mod::lemma_fundamental_div_mod_converse(
        coordinate as int,
        256,
        d / 256,
        low as int,
    );
}

/// A lattice coordinate, or the next one where `step` is not zero. The
/// coordinate after the greatest is the least.
pub open spec fn stepped(coordinate: i64, step: int) -> i64 {
    if step == 0 {
        coordinate
    } else {
        coordinate.wrapping_add(1)
    }
}

/// A fresh table: the numbers below [`POINT_COUNT`], shuffled.
pub fn generate_perm() -> (table: Vec<usize>)
    ensures
        is_permutation_table(table@),
{
    let mut table: Vec<usize> = Vec::with_capacity(POINT_COUNT);
    let mut i: usize = 0;
    while i < POINT_COUNT
        invariant
            i <= POINT_COUNT,
            table@ =~= Seq::new(i as nat, |k: int| k as usize),
        decreases POINT_COUNT - i,
    {
        table.push(i);
        i += 1;
    }
    let ghost sorted = table@;
    shuffle(&mut table);
    proof {
        broadcast use vstd::seq_lib::group_to_multiset_ensures;

        assert(sorted.no_duplicates());
        sorted.lemma_multiset_has_no_duplicates();
        table@.lemma_multiset_has_no_duplicates_conv();
        assert(table@.to_multiset().len() == sorted.to_multiset().len());
        assert forall|i: int| 0 <= i < table@.len() implies #[trigger] table@[i] < POINT_COUNT by {
            assert(table@.contains(table@[i]));
            assert(sorted.to_multiset().count(table@[i]) > 0);
            assert(sorted.contains(table@[i]));
        }
    }
    table
}

/// A copy of a vector, entry by entry.
fn copied<T: Copy>(from: &Vec<T>) -> (copy: Vec<T>)
    ensures
        copy@ == from@,
{
    let mut copy: Vec<T> = Vec::with_capacity(from.len());
    let mut i: usize = 0;
    while i < from.len()
        invariant
            i <= from.len(),
            copy@ =~= from@.take(i as int),
        decreases from.len() - i,
    {
        copy.push(from[i]);
        i += 1;
    }
    proof {
        assert(from@.take(i as int) =~= from@);
    }
    copy
}

/// The tables of one noise generator.
pub struct Perlin {
    vecs: Vec<Vec3>,
    perm_x: Vec<usize>,
    perm_y: Vec<usize>,
    perm_z: Vec<usize>,
}

impl Perlin {
    #[verifier::type_invariant]
    spec fn well_formed(self) -> bool {
        &&& self.vecs@.len() == POINT_COUNT
        &&& is_permutation_table(self.perm_x@)
        &&& is_permutation_table(self.perm_y@)
        &&& is_permutation_table(self.perm_z@)
    }

    /// The gradient vectors.
    pub closed spec fn gradients(self) -> Seq<Vec3> {
        self.vecs@
    }

    /// The table of an axis: 0 for x, 1 for y, anything else for z.
    pub closed spec fn table(self, axis: int) -> Seq<usize> {
        if axis == 0 {
            self.perm_x@
        } else if axis == 1 {
            self.perm_y@
        } else {
            self.perm_z@
        }
    }

    /// The number of the gradient at a lattice point: the entries that the
    /// three tables hold for its coordinates, combined by exclusive or.
    pub open spec fn lattice_slot(self, i: i64, j: i64, k: i64) -> usize {
        self.table(0)[table_slot(i) as int] ^ self.table(1)[table_slot(j) as int] ^ self.table(
            2,
        )[table_slot(k) as int]
    }

    /// A generator over the given gradients, with three fresh tables; none
    /// unless there are [`POINT_COUNT`] gradients.
    pub fn new(vecs: Vec<Vec3>) -> (noise: Option<Perlin>)
        ensures
            noise is Some <==> vecs@.len() == POINT_COUNT,
            noise matches Some(perlin) ==> {
                &&& perlin.gradients() == vecs@
                &&& is_permutation_table(perlin.table(0))
                &&& is_permutation_table(perlin.table(1))
                &&& is_permutation_table(perlin.table(2))
            },
    {
        if vecs.len() != POINT_COUNT {
            return None;
        }
        let perm_x = generate_perm();
        let perm_y = generate_perm();
        let perm_z = generate_perm();
        Some(Perlin { vecs, perm_x, perm_y, perm_z })
    }

    /// The number of the gradient at a lattice point, always below
    /// [`POINT_COUNT`].
    pub fn lattice_index(&self, i: i64, j: i64, k: i64) -> (slot: usize)
        ensures
            slot == self.lattice_slot(i, j, k),
            slot < POINT_COUNT,
    {
        proof {
            use_type_invariant(self);
        }
        let a = Self::slot_of(i);
        let b = Self::slot_of(j);
        let c = Self::slot_of(k);
        let x = self.perm_x[a];
        let y = self.perm_y[b];
        let z = self.perm_z[c];
        assert(x ^ y ^ z < 256) by (bit_vector)
            requires
                x < 256,
                y < 256,
                z < 256,
        ;
        x ^ y ^ z
    }

    /// The gradient at a lattice point.
    pub fn gradient(&self, i: i64, j: i64, k: i64) -> (vector: Point3)
        ensures
            vector == self.gradients()[self.lattice_slot(i, j, k) as int],
    {
        proof {
            use_type_invariant(self);
        }
        let slot = self.lattice_index(i, j, k);
        self.vecs[slot]
    }

    /// The gradients at the eight corners of the lattice cell that starts
    /// at a lattice point: corner `c` lies one step on along x where `c`
    /// is four or more, along y where `c / 2` is odd, and along z where
    /// `c` is odd.
    pub fn corners(&self, i: i64, j: i64, k: i64) -> (around: [Point3; 8])
        ensures
            forall|c: int|
                0 <= c < 8 ==> #[trigger] around@[c] == self.gradients()[self.lattice_slot(
                    stepped(i, c / 4),
                    stepped(j, (c / 2) % 2),
                    stepped(k, c % 2),
                ) as int],
    {
        let i1 = i.wrapping_add(1);
        let j1 = j.wrapping_add(1);
        let k1 = k.wrapping_add(1);
        [
            self.gradient(i, j, k),
            self.gradient(i, j, k1),
            self.gradient(i, j1, k),
            self.gradient(i, j1, k1),
            self.gradient(i1, j, k),
            self.gradient(i1, j, k1),
            self.gradient(i1, j1, k),
            self.gradient(i1, j1, k1),
        ]
    }

    fn slot_of(coordinate: i64) -> (slot: usize)
        ensures
            slot == table_slot(coordinate),
            slot < POINT_COUNT,
    {
        let low: i64 = coordinate & 255;
        assert(0 <= coordinate & 255 < 256) by (bit_vector);
        low as usize
    }
}

impl Clone for Perlin {
    /// A generator with the same gradients and the same three tables.
    fn clone(&self) -> (copy: Self)
        ensures
            copy.gradients() == self.gradients(),
            copy.table(0) == self.table(0),
            copy.table(1) == self.table(1),
            copy.table(2) == self.table(2),
    {
        proof {
            use_type_invariant(self);
        }
        Perlin {
            vecs: copied(&self.vecs),
            perm_x: copied(&self.perm_x),
            perm_y: copied(&self.perm_y),
            perm_z: copied(&self.perm_z),
        }
    }
}

} // verus!
