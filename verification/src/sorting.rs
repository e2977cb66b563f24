//! Stable orders of floating-point keys.

use crate::float::F32;
use vstd::prelude::*;

verus! {

/// Where a key stands among the others: smaller comes first, or larger where
/// the order is descending.
pub open spec fn standing(key: F32, descending: bool) -> int {
    if descending {
        -key.rank()
    } else {
        key.rank()
    }
}

/// Whether position `a` comes before position `b`: by key, and by position
/// where the keys have the same value.
pub open spec fn precedes(keys: Seq<F32>, descending: bool, a: int, b: int) -> bool {
    let ka = standing(keys[a], descending);
    let kb = standing(keys[b], descending);
    ka < kb || (ka == kb && a < b)
}

/// Whether some positions come one after the other.
pub open spec fn in_order(keys: Seq<F32>, descending: bool, order: Seq<usize>) -> bool {
    forall|i: int, j: int|
        0 <= i < j < order.len() ==> precedes(keys, descending, #[trigger] order[i] as int, #[trigger] order[j] as int)
}

/// Whether `order` holds each of the positions from `from` up to `to` once.
pub open spec fn positions(order: Seq<usize>, from: int, to: int) -> bool {
    &&& order.len() == to - from
    &&& order.no_duplicates()
    &&& forall|i: int| 0 <= i < order.len() ==> from <= #[trigger] order[i] < to
}

/// Whether every key is a number.
pub open spec fn no_nan(keys: Seq<F32>) -> bool {
    forall|i: int| 0 <= i < keys.len() ==> !(#[trigger] keys[i]).nan()
}

/// Whether the key at `b` comes strictly before that at `a`.
fn comes_first(keys: &[F32], descending: bool, b: usize, a: usize) -> (first: bool)
    requires
        a < keys@.len(),
        b < keys@.len(),
    ensures
        !keys@[a as int].nan() && !keys@[b as int].nan() ==> first == (standing(keys@[b as int], descending) < standing(
            keys@[a as int],
            descending,
        )),
{
    if descending {
        keys[a].lt(keys[b])
    } else {
        keys[b].lt(keys[a])
    }
}

/// Merges two runs of neighbouring positions.
fn merge(keys: &[F32], descending: bool, left: &Vec<usize>, right: &Vec<usize>, from: usize, middle: usize, to: usize) -> (merged: Vec<usize>)
    requires
        from <= middle <= to <= keys@.len(),
        positions(left@, from as int, middle as int),
        positions(right@, middle as int, to as int),
        no_nan(keys@) ==> in_order(keys@, descending, left@) && in_order(keys@, descending, right@),
    ensures
        positions(merged@, from as int, to as int),
        no_nan(keys@) ==> in_order(keys@, descending, merged@),
{
    let left_len: usize = left.len();
    let right_len: usize = right.len();
    let mut merged: Vec<usize> = Vec::new();
    let mut i: usize = 0;
    let mut j: usize = 0;
    while i < left_len || j < right_len
        invariant
            from <= middle <= to <= keys@.len(),
            left_len == left@.len(),
            right_len == right@.len(),
            positions(left@, from as int, middle as int),
            positions(right@, middle as int, to as int),
            i <= left_len,
            j <= right_len,
            merged@.len() == i + j,
            merged@.no_duplicates(),
            forall|k: int| 0 <= k < merged@.len() ==> from <= #[trigger] merged@[k] < to,
            forall|k: int|
                0 <= k < merged@.len() && #[trigger] merged@[k] < middle ==> exists|p: int|
                    0 <= p < i && left@[p] == merged@[k],
            forall|k: int|
                0 <= k < merged@.len() && #[trigger] merged@[k] >= middle ==> exists|q: int|
                    0 <= q < j && right@[q] == merged@[k],
            no_nan(keys@) ==> in_order(keys@, descending, left@) && in_order(keys@, descending, right@),
            no_nan(keys@) ==> in_order(keys@, descending, merged@),
            no_nan(keys@) ==> forall|k: int, p: int|
                0 <= k < merged@.len() && i <= p < left_len ==> precedes(
                    keys@,
                    descending,
                    #[trigger] merged@[k] as int,
                    #[trigger] left@[p] as int,
                ),
            no_nan(keys@) ==> forall|k: int, q: int|
                0 <= k < merged@.len() && j <= q < right_len ==> precedes(
                    keys@,
                    descending,
                    #[trigger] merged@[k] as int,
                    #[trigger] right@[q] as int,
                ),
        decreases left_len - i + right_len - j,
    {
        let take_right: bool = if i == left_len {
            true
        } else if j == right_len {
            false
        } else {
            comes_first(keys, descending, right[j], left[i])
        };
        let ghost before = merged@;
        if take_right {
            let next: usize = right[j];
            proof {
                assert forall|k: int| 0 <= k < before.len() implies before[k] != next by {
                    if before[k] >= middle {
                        let q = choose|q: int| 0 <= q < j && right@[q] == before[k];
                        assert(right@[q] != right@[j as int]);
                    }
                }
            }
            merged.push(next);
            j = j + 1;
            proof {
                assert(right@[j - 1] == merged@[merged@.len() - 1]);
                if no_nan(keys@) {
                    assert forall|p: int| i <= p < left_len implies precedes(keys@, descending, next as int, #[trigger] left@[p] as int) by {
                        if i < p {
                            assert(precedes(keys@, descending, left@[i as int] as int, left@[p] as int));
                        }
                    }
                    assert forall|q: int| j <= q < right_len implies precedes(keys@, descending, next as int, #[trigger] right@[q] as int) by {
                        assert(precedes(keys@, descending, right@[j - 1] as int, right@[q] as int));
                    }
                }
            }
        } else {
            let next: usize = left[i];
            proof {
                assert forall|k: int| 0 <= k < before.len() implies before[k] != next by {
                    if before[k] < middle {
                        let p = choose|p: int| 0 <= p < i && left@[p] == before[k];
                        assert(left@[p] != left@[i as int]);
                    }
                }
            }
            merged.push(next);
            i = i + 1;
            proof {
                assert(left@[i - 1] == merged@[merged@.len() - 1]);
                if no_nan(keys@) {
                    assert forall|q: int| j <= q < right_len implies precedes(keys@, descending, next as int, #[trigger] right@[q] as int) by {
                        assert(precedes(keys@, descending, next as int, right@[j as int] as int));
                        if j < q {
                            assert(precedes(keys@, descending, right@[j as int] as int, right@[q] as int));
                        }
                    }
                    assert forall|p: int| i <= p < left_len implies precedes(keys@, descending, next as int, #[trigger] left@[p] as int) by {
                        assert(precedes(keys@, descending, left@[i - 1] as int, left@[p] as int));
                    }
                }
            }
        }
    }
    merged
}

/// The positions of a range in order.
fn sort_range(keys: &[F32], descending: bool, from: usize, to: usize) -> (order: Vec<usize>)
    requires
        from <= to <= keys@.len(),
    ensures
        positions(order@, from as int, to as int),
        no_nan(keys@) ==> in_order(keys@, descending, order@),
    decreases to - from,
{
    let count: usize = to - from;
    if count == 0 {
        Vec::new()
    } else if count == 1 {
        let mut order: Vec<usize> = Vec::new();
        order.push(from);
        order
    } else {
        let middle: usize = from + count / 2;
        let left = sort_range(keys, descending, from, middle);
        let right = sort_range(keys, descending, middle, to);
        merge(keys, descending, &left, &right, from, middle, to)
    }
}

/// The positions of all keys in order; keys of the same value keep theirs. Keys
/// that are no numbers have no place in the order, so nothing but that every
/// position occurs once holds where there is one.
pub fn stable_order(keys: &[F32], descending: bool) -> (order: Vec<usize>)
    ensures
        positions(order@, 0, keys@.len() as int),
        no_nan(keys@) ==> in_order(keys@, descending, order@),
{
    sort_range(keys, descending, 0, keys.len())
}

/// There is only one order.
pub proof fn law_order_is_unique(keys: Seq<F32>, descending: bool, a: Seq<usize>, b: Seq<usize>)
    requires
        positions(a, 0, keys.len() as int),
        positions(b, 0, keys.len() as int),
        in_order(keys, descending, a),
        in_order(keys, descending, b),
    ensures
        a == b,
{
    lemma_same_order(keys, descending, a, b, keys.len());
    assert(a.take(keys.len() as int) =~= a);
    assert(b.take(keys.len() as int) =~= b);
}

/// A list of positions that is complete holds each of them.
pub proof fn lemma_every_position_occurs(order: Seq<usize>, n: nat, x: usize)
    requires
        positions(order, 0, n as int),
        x < n,
    ensures
        order.contains(x),
{
    let all = Set::<usize>::new(|k: usize| k < n);
    vstd::set_lib::lemma_int_range(0, n as int);
    let ints = vstd::set_lib::set_int_range(0, n as int);
    let image = order.map_values(|k: usize| k as int);
    assert(image.no_duplicates()) by {
        assert forall|i: int, j: int| 0 <= i < image.len() && 0 <= j < image.len() && i != j implies image[i] != image[j] by {
            assert(order[i] != order[j]);
        }
    }
    image.unique_seq_to_set();
    assert(image.to_set().subset_of(ints)) by {
        assert forall|k: int| image.to_set().contains(k) implies ints.contains(k) by {
            let i = choose|i: int| 0 <= i < image.len() && image[i] == k;
            assert(order[i] < n);
        }
    }
    vstd::set_lib::lemma_subset_equality(image.to_set(), ints);
    assert(ints.contains(x as int));
    assert(image.contains(x as int));
    let i = choose|i: int| 0 <= i < image.len() && image[i] == x as int;
    assert(order[i] == x);
}

proof fn lemma_same_order(keys: Seq<F32>, descending: bool, a: Seq<usize>, b: Seq<usize>, n: nat)
    requires
        positions(a, 0, keys.len() as int),
        positions(b, 0, keys.len() as int),
        in_order(keys, descending, a),
        in_order(keys, descending, b),
        n <= keys.len(),
    ensures
        a.take(n as int) == b.take(n as int),
    decreases n,
{
    if n > 0 {
        let k = n - 1;
        lemma_same_order(keys, descending, a, b, k as nat);
        if a[k] != b[k] {
            lemma_every_position_occurs(b, keys.len(), a[k]);
            lemma_every_position_occurs(a, keys.len(), b[k]);
            let i = choose|i: int| 0 <= i < b.len() && b[i] == a[k];
            let j = choose|j: int| 0 <= j < a.len() && a[j] == b[k];
            if i < k {
                assert(a.take(k)[i] == b.take(k)[i]);
                assert(a[i] == a[k]);
            }
            if j < k {
                assert(a.take(k)[j] == b.take(k)[j]);
                assert(b[j] == b[k]);
            }
            assert(precedes(keys, descending, b[k] as int, b[i] as int));
            assert(precedes(keys, descending, a[k] as int, a[j] as int));
        }
        assert(a.take(n as int) =~= a.take(k).push(a[k]));
        assert(b.take(n as int) =~= b.take(k).push(b[k]));
    } else {
        assert(a.take(0) =~= b.take(0));
    }
}

/// What the order of some numbers is: ascending numbers never fall from one
/// place to a later one, descending numbers never rise, and equal numbers stand
/// in the order in which they came.
pub proof fn law_order_goes_by_the_numbers(keys: Seq<F32>, descending: bool, order: Seq<usize>, i: int, j: int)
    requires
        no_nan(keys),
        positions(order, 0, keys.len() as int),
        in_order(keys, descending, order),
        0 <= i < j < order.len(),
    ensures
        ({
            let first = keys[order[i] as int];
            let second = keys[order[j] as int];
            &&& !descending ==> first.at_most(second)
            &&& descending ==> second.at_most(first)
            &&& first.at_most(second) && second.at_most(first) ==> order[i] < order[j]
        }),
        order[i] < keys.len() && order[j] < keys.len() && order[i] != order[j],
{
    assert(precedes(keys, descending, order[i] as int, order[j] as int));
}

/// Every position is listed once.
pub proof fn law_every_position_is_listed(order: Seq<usize>, n: usize, position: usize)
    requires
        positions(order, 0, n as int),
        position < n,
    ensures
        order.contains(position),
        order.len() == n,
        order.no_duplicates(),
{
    lemma_every_position_occurs(order, n as nat, position);
}

} // verus!
