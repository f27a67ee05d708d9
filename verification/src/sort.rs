//! Stable sorting by integer keys.
//!
//! What is sorted are the places `0, 1, .., n - 1` of a sequence of keys:
//! the result names the places by rising key, places of equal key in
//! rising order.

use vstd::prelude::*;
use vstd::set_lib::{lemma_int_range, lemma_subset_equality, set_int_range};

verus! {

/// The place `a` comes before the place `b`: its key is lower, or the same
/// and the place itself is lower.
pub open spec fn precedes(keys: Seq<i32>, a: int, b: int) -> bool {
    keys[a] < keys[b] || (keys[a] == keys[b] && a < b)
}

/// The entry at `i` comes before the entry at `j`.
pub open spec fn in_order(order: Seq<usize>, keys: Seq<i32>, i: int, j: int) -> bool {
    precedes(keys, order[i] as int, order[j] as int)
}

/// Every entry names a place from `lo` up to, not including, `hi`, and
/// each comes before all that follow it.
pub open spec fn rising(order: Seq<usize>, keys: Seq<i32>, lo: int, hi: int) -> bool {
    &&& forall|i: int| 0 <= i < order.len() ==> lo <= #[trigger] order[i] < hi
    &&& forall|i: int, j: int| 0 <= i < j < order.len() ==> #[trigger] in_order(order, keys, i, j)
}

/// `order` is the stable order of the keys: it names every place once, by
/// rising key, and places of equal key in rising order.
pub open spec fn is_stable_order(order: Seq<usize>, keys: Seq<i32>) -> bool {
    &&& order.len() == keys.len()
    &&& keys.len() <= usize::MAX
    &&& rising(order, keys, 0, keys.len() as int)
    &&& forall|place: int| 0 <= place < keys.len() ==> #[trigger] order.contains(place as usize)
}

/// As many rising entries as there are places name every place.
pub proof fn lemma_rising_names_every_place(order: Seq<usize>, keys: Seq<i32>)
    requires
        order.len() == keys.len(),
        keys.len() <= usize::MAX,
        rising(order, keys, 0, keys.len() as int),
    ensures
        is_stable_order(order, keys),
{
    let n = keys.len() as int;
    let named = order.map_values(|place: usize| place as int);
    assert forall|i: int, j: int| 0 <= i < named.len() && 0 <= j < named.len() && i != j implies
        named[i] != named[j] by {
        if i < j {
            assert(in_order(order, keys, i, j));
        } else {
            assert(in_order(order, keys, j, i));
        }
    }
    named.unique_seq_to_set();
    lemma_int_range(0, n);
    assert forall|x: int| named.to_set().contains(x) implies set_int_range(0, n).contains(x) by {
        let i = choose|i: int| 0 <= i < named.len() && named[i] == x;
        assert(0 <= order[i] < n);
    }
    vstd::set_lib::lemma_len_subset(named.to_set(), set_int_range(0, n));
    lemma_subset_equality(named.to_set(), set_int_range(0, n));
    assert forall|place: int| 0 <= place < n implies #[trigger] order.contains(place as usize) by {
        assert(set_int_range(0, n).contains(place));
        assert(named.to_set().contains(place));
        let i = choose|i: int| 0 <= i < named.len() && named[i] == place;
        assert(order[i] == place as usize);
    }
}

/// The stable order is the only one: two of them are the same sequence.
pub proof fn lemma_stable_order_is_unique(a: Seq<usize>, b: Seq<usize>, keys: Seq<i32>)
    requires
        is_stable_order(a, keys),
        is_stable_order(b, keys),
    ensures
        a == b,
    decreases keys.len(),
{
    lemma_same_prefix(a, b, keys, keys.len() as int);
    assert(a =~= b);
}

/// Two stable orders agree on their first `upto` entries.
proof fn lemma_same_prefix(a: Seq<usize>, b: Seq<usize>, keys: Seq<i32>, upto: int)
    requires
        is_stable_order(a, keys),
        is_stable_order(b, keys),
        0 <= upto <= keys.len(),
    ensures
        forall|i: int| 0 <= i < upto ==> a[i] == b[i],
    decreases upto,
{
    if upto > 0 {
        lemma_same_prefix(a, b, keys, upto - 1);
        let k = upto - 1;
        if a[k] != b[k] {
            // Each of the two entries stands later in the other order,
            // so each would have to come before the other.
            assert(b.contains(a[k] as int as usize));
            let jb = choose|j: int| 0 <= j < b.len() && b[j] == a[k];
            assert(a.contains(b[k] as int as usize));
            let ja = choose|j: int| 0 <= j < a.len() && a[j] == b[k];
            if jb < k {
                assert(a[jb] == b[jb]);
                assert(in_order(a, keys, jb, k));
            }
            if ja < k {
                assert(b[ja] == a[ja]);
                assert(in_order(b, keys, ja, k));
            }
            assert(in_order(b, keys, k, jb));
            assert(in_order(a, keys, k, ja));
        }
    }
}

/// Merges two rising runs, the first over the places `lo..mid`, the second
/// over `mid..hi`, into one over `lo..hi`.
fn merge(keys: &Vec<i32>, left: &Vec<usize>, right: &Vec<usize>, lo: usize, mid: usize, hi: usize) -> (out:
    Vec<usize>)
    requires
        lo <= mid <= hi <= keys.len(),
        left.len() == mid - lo,
        right.len() == hi - mid,
        rising(left@, keys@, lo as int, mid as int),
        rising(right@, keys@, mid as int, hi as int),
    ensures
        out.len() == hi - lo,
        rising(out@, keys@, lo as int, hi as int),
{
    let mut out: Vec<usize> = Vec::with_capacity(hi - lo);
    let mut i: usize = 0;
    let mut j: usize = 0;
    while i < left.len() || j < right.len()
        invariant
            lo <= mid <= hi <= keys.len(),
            left.len() == mid - lo,
            right.len() == hi - mid,
            rising(left@, keys@, lo as int, mid as int),
            rising(right@, keys@, mid as int, hi as int),
            i <= left.len(),
            j <= right.len(),
            out.len() == i + j,
            rising(out@, keys@, lo as int, hi as int),
            forall|o: int|
                0 <= o < out.len() && i < left.len() ==> precedes(
                    keys@,
                    #[trigger] out[o] as int,
                    left[i as int] as int,
                ),
            forall|o: int|
                0 <= o < out.len() && j < right.len() ==> precedes(
                    keys@,
                    #[trigger] out[o] as int,
                    right[j as int] as int,
                ),
        decreases left.len() - i + right.len() - j,
    {
        let ghost before = out@;
        let take_left = if j >= right.len() {
            true
        } else if i >= left.len() {
            false
        } else {
            keys[left[i]] <= keys[right[j]]
        };
        if take_left {
            let place = left[i];
            out.push(place);
            proof {
                assert forall|a: int, b: int| 0 <= a < b < out@.len() implies #[trigger] in_order(
                    out@,
                    keys@,
                    a,
                    b,
                ) by {
                    if b < before.len() {
                        assert(in_order(before, keys@, a, b));
                    } else {
                        assert(precedes(keys@, before[a] as int, place as int));
                    }
                }
                assert forall|o: int| 0 <= o < out@.len() && i + 1 < left.len() implies precedes(
                    keys@,
                    #[trigger] out@[o] as int,
                    left[i + 1] as int,
                ) by {
                    assert(in_order(left@, keys@, i as int, i + 1));
                    if o < before.len() {
                        assert(precedes(keys@, before[o] as int, place as int));
                    }
                }
                assert forall|o: int| 0 <= o < out@.len() && j < right.len() implies precedes(
                    keys@,
                    #[trigger] out@[o] as int,
                    right[j as int] as int,
                ) by {
                    if o < before.len() {
                        assert(precedes(keys@, before[o] as int, right[j as int] as int));
                    } else {
                        assert(lo <= left@[i as int] < mid);
                        assert(mid <= right@[j as int] < hi);
                    }
                }
            }
            i += 1;
        } else {
            let place = right[j];
            out.push(place);
            proof {
                assert forall|a: int, b: int| 0 <= a < b < out@.len() implies #[trigger] in_order(
                    out@,
                    keys@,
                    a,
                    b,
                ) by {
                    if b < before.len() {
                        assert(in_order(before, keys@, a, b));
                    } else {
                        assert(precedes(keys@, before[a] as int, place as int));
                    }
                }
                assert forall|o: int| 0 <= o < out@.len() && j + 1 < right.len() implies precedes(
                    keys@,
                    #[trigger] out@[o] as int,
                    right[j + 1] as int,
                ) by {
                    assert(in_order(right@, keys@, j as int, j + 1));
                    if o < before.len() {
                        assert(precedes(keys@, before[o] as int, place as int));
                    }
                }
                assert forall|o: int| 0 <= o < out@.len() && i < left.len() implies precedes(
                    keys@,
                    #[trigger] out@[o] as int,
                    left[i as int] as int,
                ) by {
                    if o < before.len() {
                        assert(precedes(keys@, before[o] as int, left[i as int] as int));
                    }
                }
            }
            j += 1;
        }
    }
    out
}

/// Sorts the places `lo..hi`.
fn sort_range(keys: &Vec<i32>, lo: usize, hi: usize) -> (out: Vec<usize>)
    requires
        lo <= hi <= keys.len(),
    ensures
        out.len() == hi - lo,
        rising(out@, keys@, lo as int, hi as int),
    decreases hi - lo,
{
    if hi - lo == 0 {
        Vec::new()
    } else if hi - lo == 1 {
        let mut out: Vec<usize> = Vec::with_capacity(1);
        out.push(lo);
        out
    } else {
        let mid = lo + (hi - lo) / 2;
        let left = sort_range(keys, lo, mid);
        let right = sort_range(keys, mid, hi);
        merge(keys, &left, &right, lo, mid, hi)
    }
}

/// The stable order of the keys.
pub fn stable_order(keys: &Vec<i32>) -> (order: Vec<usize>)
    ensures
        is_stable_order(order@, keys@),
{
    let order = sort_range(keys, 0, keys.len());
    proof {
        lemma_rising_names_every_place(order@, keys@);
    }
    order
}

} // verus!
