//! What the points and the area of a ROC curve count: rows, and pairs of rows.

use crate::float::F32;
use crate::seqs::{count_where, lemma_count_where_uniform};
use crate::sorting::no_nan;
use crate::tuner::metrics::positive;
use crate::tuner::roc::{
    all_rows, at_or_above, counted_at, distinct_values, doubled_area, is_curve_of, lemma_place, stands_among,
};
use vstd::prelude::*;

verus! {

/// Whether a row is positive: its target lies above one half.
pub open spec fn is_positive(targets: Seq<F32>, row: int) -> bool {
    0x3f00_0000 < targets[row].bits <= 0x7f80_0000
}

/// How many positive rows rank at least as high as a row.
pub open spec fn positives_reaching(probabilities: Seq<F32>, targets: Seq<F32>, row: int) -> nat {
    Seq::new(targets.len(), |j: int| j).filter(
        |j: int| is_positive(targets, j) && probabilities[row].at_most(probabilities[j]),
    ).len()
}

/// How many positive rows rank higher than a row.
pub open spec fn positives_above(probabilities: Seq<F32>, targets: Seq<F32>, row: int) -> nat {
    Seq::new(targets.len(), |j: int| j).filter(
        |j: int| is_positive(targets, j) && probabilities[row].less(probabilities[j]),
    ).len()
}

/// Over the negative rows among the first `n`: twice for each positive row that
/// ranks higher, and once for each that ranks as high.
pub open spec fn ranked_pairs(probabilities: Seq<F32>, targets: Seq<F32>, n: nat) -> nat
    decreases n,
{
    if n == 0 {
        0
    } else {
        ranked_pairs(probabilities, targets, (n - 1) as nat) + if is_positive(targets, n - 1) {
            0
        } else {
            positives_reaching(probabilities, targets, n - 1) + positives_above(probabilities, targets, n - 1)
        }
    }
}

/// The area under the curve counts pairs of rows: doubled, it is two for each
/// pair of a negative row and a positive row that ranks higher, and one for each
/// such pair that ranks the same.
pub proof fn law_area_counts_ranked_pairs(probabilities: Seq<F32>, targets: Seq<F32>, points: Seq<(usize, usize)>)
    requires
        probabilities.len() == targets.len() <= usize::MAX,
        no_nan(probabilities),
        is_curve_of(probabilities, targets, points),
    ensures
        doubled_area(points, points.len()) == ranked_pairs(probabilities, targets, targets.len()),
{
    let thresholds = choose|thresholds: Seq<F32>| #[trigger]
        distinct_values(probabilities, thresholds) && counted_at(probabilities, targets, thresholds, points);
    let n = targets.len();
    let last = thresholds.len() as int - 1;
    lemma_area_up_to(probabilities, targets, thresholds, points, last);
    let keep = reaching(probabilities, targets, thresholds, last);
    let negative = |i: int| !is_positive(targets, i);
    assert forall|i: int| 0 <= i < n implies #[trigger] keep(i) == negative(i) by {
        lemma_place(probabilities, thresholds, i);
    }
    lemma_same_weights(n, keep, negative, pair_weight(probabilities, targets), pair_weight(probabilities, targets));
    lemma_pairs_are_weights(probabilities, targets, n);
}

/// A point of the curve counts the positive and the negative rows that rank at
/// least as high as a row; every row has its point.
pub proof fn law_points_count_the_rows_above(
    probabilities: Seq<F32>,
    targets: Seq<F32>,
    points: Seq<(usize, usize)>,
    row: int,
)
    requires
        probabilities.len() == targets.len() <= usize::MAX,
        no_nan(probabilities),
        is_curve_of(probabilities, targets, points),
        0 <= row < targets.len(),
    ensures
        points[0] == (0usize, 0usize),
        exists|k: int|
            {
                &&& 1 <= k < points.len()
                &&& (#[trigger] points[k]).0 == positives_reaching(probabilities, targets, row)
                &&& points[k].1 == Seq::new(targets.len(), |j: int| j).filter(
                    |j: int| !is_positive(targets, j) && probabilities[row].at_most(probabilities[j]),
                ).len()
            },
{
    let thresholds = choose|thresholds: Seq<F32>| #[trigger]
        distinct_values(probabilities, thresholds) && counted_at(probabilities, targets, thresholds, points);
    let place = lemma_place(probabilities, thresholds, row);
    assert(thresholds[place].at_most(probabilities[row]));
    lemma_same_rank(probabilities, thresholds, row, place);
    lemma_count_as_filter(probabilities, targets, thresholds[place], row, true);
    lemma_count_as_filter(probabilities, targets, thresholds[place], row, false);
    assert(points[place + 1].0 == at_or_above(probabilities, targets, thresholds[place], true));
    assert(Seq::new(targets.len(), |j: int| j).filter(
        |j: int| is_positive(targets, j) && probabilities[row].at_most(probabilities[j]),
    ) =~= Seq::new(targets.len(), |j: int| j).filter(
        |j: int| is_positive(targets, j) == true && probabilities[row].at_most(probabilities[j]),
    )) by {
        assert((|j: int| is_positive(targets, j) && probabilities[row].at_most(probabilities[j])) =~= (|j: int|
            is_positive(targets, j) == true && probabilities[row].at_most(probabilities[j])));
    }
    assert((|j: int| !is_positive(targets, j) && probabilities[row].at_most(probabilities[j])) =~= (|j: int|
        is_positive(targets, j) == false && probabilities[row].at_most(probabilities[j])));
}

/// A row ranks as its threshold.
proof fn lemma_same_rank(probabilities: Seq<F32>, thresholds: Seq<F32>, row: int, place: int)
    requires
        distinct_values(probabilities, thresholds),
        0 <= row < probabilities.len(),
        0 <= place < thresholds.len(),
        forall|i: int|
            0 <= i < thresholds.len() ==> (#[trigger] thresholds[i]).at_most(probabilities[row]) == (place <= i),
    ensures
        thresholds[place].same(probabilities[row]),
{
    assert(stands_among(thresholds, probabilities[row]));
    let i = choose|i: int| 0 <= i < thresholds.len() && (#[trigger] thresholds[i]).same(probabilities[row]);
    assert(thresholds[i].at_most(probabilities[row]));
    assert(thresholds[place].at_most(probabilities[row]));
    if place < i {
        assert(thresholds[i].less(thresholds[place]));
    }
}

/// A count at a threshold is a count at any row that ranks the same.
proof fn lemma_count_as_filter(probabilities: Seq<F32>, targets: Seq<F32>, threshold: F32, row: int, class: bool)
    requires
        probabilities.len() == targets.len() <= usize::MAX,
        0 <= row < targets.len(),
        threshold.same(probabilities[row]),
    ensures
        at_or_above(probabilities, targets, threshold, class) == Seq::new(targets.len(), |j: int| j).filter(
            |j: int| is_positive(targets, j) == class && probabilities[row].at_most(probabilities[j]),
        ).len(),
{
    let test = |r: usize| threshold.at_most(probabilities[r as int]) && positive(targets[r as int]) == class;
    let keep = |j: int| is_positive(targets, j) == class && probabilities[row].at_most(probabilities[j]);
    assert forall|j: int| 0 <= j < targets.len() implies test(j as usize) == #[trigger] keep(j) by {}
    lemma_rows_filtered(targets.len(), test, keep);
}

/// Counting rows is filtering their numbers.
proof fn lemma_rows_filtered(n: nat, test: spec_fn(usize) -> bool, keep: spec_fn(int) -> bool)
    requires
        n <= usize::MAX,
        forall|j: int| 0 <= j < n ==> test(j as usize) == #[trigger] keep(j),
    ensures
        count_where(all_rows(n), test) == Seq::new(n, |j: int| j).filter(keep).len(),
    decreases n,
{
    reveal(Seq::filter);
    let rows = all_rows(n);
    let numbers = Seq::new(n, |j: int| j);
    if n > 0 {
        lemma_rows_filtered((n - 1) as nat, test, keep);
        assert(rows.drop_last() =~= all_rows((n - 1) as nat));
        assert(numbers.drop_last() =~= Seq::new((n - 1) as nat, |j: int| j));
        assert(numbers.last() == n - 1 && rows.last() == (n - 1) as usize);
        assert(test((n - 1) as usize) == keep(n - 1));
    }
}

/// The sum of the weights of the numbers below `n` that are kept.
spec fn weight_sum(n: nat, keep: spec_fn(int) -> bool, weight: spec_fn(int) -> int) -> int
    decreases n,
{
    if n == 0 {
        0
    } else {
        weight_sum((n - 1) as nat, keep, weight) + if keep(n - 1) {
            weight(n - 1)
        } else {
            0
        }
    }
}

proof fn lemma_same_weights(
    n: nat,
    a: spec_fn(int) -> bool,
    b: spec_fn(int) -> bool,
    x: spec_fn(int) -> int,
    y: spec_fn(int) -> int,
)
    requires
        forall|i: int| 0 <= i < n ==> #[trigger] a(i) == b(i),
        forall|i: int| 0 <= i < n && a(i) ==> #[trigger] x(i) == y(i),
    ensures
        weight_sum(n, a, x) == weight_sum(n, b, y),
    decreases n,
{
    if n > 0 {
        lemma_same_weights((n - 1) as nat, a, b, x, y);
        assert(a(n - 1) == b(n - 1));
        if a(n - 1) {
            assert(x(n - 1) == y(n - 1));
        }
    }
}

/// Weights of two kinds of numbers add up, and numbers of one weight count.
proof fn lemma_weights_add(
    n: nat,
    all: spec_fn(int) -> bool,
    a: spec_fn(int) -> bool,
    b: spec_fn(int) -> bool,
    weight: spec_fn(int) -> int,
    of_b: int,
)
    requires
        forall|i: int| 0 <= i < n ==> #[trigger] all(i) == (a(i) || b(i)),
        forall|i: int| 0 <= i < n ==> !(#[trigger] a(i) && b(i)),
        forall|i: int| 0 <= i < n && #[trigger] b(i) ==> weight(i) == of_b,
    ensures
        weight_sum(n, all, weight) == weight_sum(n, a, weight) + weight_sum(n, b, |i: int| 1) * of_b,
        weight_sum(n, all, |i: int| 1) == weight_sum(n, a, |i: int| 1) + weight_sum(n, b, |i: int| 1),
    decreases n,
{
    if n > 0 {
        lemma_weights_add((n - 1) as nat, all, a, b, weight, of_b);
        assert(all(n - 1) == (a(n - 1) || b(n - 1)));
        assert(!(a(n - 1) && b(n - 1)));
        let before = weight_sum((n - 1) as nat, b, |i: int| 1);
        assert((before + 1) * of_b == before * of_b + of_b) by (nonlinear_arith);
    } else {
        assert(weight_sum(n, b, |i: int| 1) * of_b == 0) by (nonlinear_arith)
            requires
                weight_sum(n, b, |i: int| 1) == 0,
        ;
    }
}

/// Counting by weights of one is counting rows.
proof fn lemma_weights_of_one(n: nat, keep: spec_fn(int) -> bool, test: spec_fn(usize) -> bool)
    requires
        n <= usize::MAX,
        forall|j: int| 0 <= j < n ==> test(j as usize) == #[trigger] keep(j),
    ensures
        weight_sum(n, keep, |i: int| 1) == count_where(all_rows(n), test),
    decreases n,
{
    let rows = all_rows(n);
    if n > 0 {
        lemma_weights_of_one((n - 1) as nat, keep, test);
        assert(rows.drop_last() =~= all_rows((n - 1) as nat));
        assert(rows.last() == (n - 1) as usize);
        assert(test((n - 1) as usize) == keep(n - 1));
    }
}

/// The weight of a negative row.
spec fn pair_weight(probabilities: Seq<F32>, targets: Seq<F32>) -> spec_fn(int) -> int {
    |i: int|
        positives_reaching(probabilities, targets, i) as int + positives_above(probabilities, targets, i) as int
}

proof fn lemma_pairs_are_weights(probabilities: Seq<F32>, targets: Seq<F32>, n: nat)
    ensures
        ranked_pairs(probabilities, targets, n) == weight_sum(
            n,
            |i: int| !is_positive(targets, i),
            pair_weight(probabilities, targets),
        ),
    decreases n,
{
    if n > 0 {
        lemma_pairs_are_weights(probabilities, targets, (n - 1) as nat);
    }
}

/// The negative rows that rank at least as high as a threshold; none before the
/// first one.
spec fn reaching(probabilities: Seq<F32>, targets: Seq<F32>, thresholds: Seq<F32>, k: int) -> spec_fn(int) -> bool {
    |i: int| !is_positive(targets, i) && 0 <= k && thresholds[k].at_most(probabilities[i])
}

/// Up to each threshold the area is the sum of the weights of the negative rows
/// down to there.
proof fn lemma_area_up_to(
    probabilities: Seq<F32>,
    targets: Seq<F32>,
    thresholds: Seq<F32>,
    points: Seq<(usize, usize)>,
    k: int,
)
    requires
        probabilities.len() == targets.len() <= usize::MAX,
        no_nan(probabilities),
        distinct_values(probabilities, thresholds),
        counted_at(probabilities, targets, thresholds, points),
        -1 <= k < thresholds.len(),
    ensures
        doubled_area(points, (k + 2) as nat) == weight_sum(
            targets.len(),
            reaching(probabilities, targets, thresholds, k),
            pair_weight(probabilities, targets),
        ),
        points[k + 1].1 == weight_sum(targets.len(), reaching(probabilities, targets, thresholds, k), |i: int| 1),
    decreases k + 1,
{
    let n = targets.len();
    let weight = pair_weight(probabilities, targets);
    let all = reaching(probabilities, targets, thresholds, k);
    if k < 0 {
        lemma_nothing_kept(n, all, weight);
        lemma_nothing_kept(n, all, |i: int| 1);
    } else {
        lemma_area_up_to(probabilities, targets, thresholds, points, k - 1);
        let before = reaching(probabilities, targets, thresholds, k - 1);
        let here = |i: int|
            !is_positive(targets, i) && thresholds[k].same(probabilities[i]);
        let of_here = points[k + 1].0 + points[k].0;
        assert forall|i: int| 0 <= i < n implies #[trigger] all(i) == (before(i) || here(i)) && !(before(i) && here(
            i,
        )) by {
            let place = lemma_place(probabilities, thresholds, i);
            lemma_same_rank(probabilities, thresholds, i, place);
            assert(thresholds[k].at_most(probabilities[i]) == (place <= k));
            if k > 0 {
                assert(thresholds[k - 1].at_most(probabilities[i]) == (place <= k - 1));
            }
            if place < k {
                assert(thresholds[k].less(thresholds[place]));
            }
        }
        assert forall|i: int| 0 <= i < n && #[trigger] here(i) implies weight(i) == of_here by {
            lemma_weight_at(probabilities, targets, thresholds, points, k, i);
        }
        assert forall|i: int| 0 <= i < n implies !(#[trigger] before(i) && here(i)) by {
            assert(all(i) == (before(i) || here(i)));
        }
        lemma_weights_add(n, all, before, here, weight, of_here);
        let test = |r: usize| thresholds[k].at_most(probabilities[r as int]) && positive(targets[r as int]) == false;
        assert forall|j: int| 0 <= j < n implies test(j as usize) == #[trigger] all(j) by {}
        lemma_weights_of_one(n, all, test);
        assert(points[k + 1].1 == at_or_above(probabilities, targets, thresholds[k], false));
        let more = weight_sum(n, here, |i: int| 1);
        assert(points[k + 1].1 - points[k].1 == more);
        assert((points[k + 1].1 - points[k].1) * (points[k + 1].0 + points[k].0) == more * of_here);
        assert(doubled_area(points, (k + 2) as nat) == doubled_area(points, (k + 1) as nat) + (points[k + 1].1
            - points[k].1) * (points[k + 1].0 + points[k].0));
    }
}

proof fn lemma_nothing_kept(n: nat, keep: spec_fn(int) -> bool, weight: spec_fn(int) -> int)
    requires
        forall|i: int| 0 <= i < n ==> !(#[trigger] keep(i)),
    ensures
        weight_sum(n, keep, weight) == 0,
    decreases n,
{
    if n > 0 {
        lemma_nothing_kept((n - 1) as nat, keep, weight);
        assert(!keep(n - 1));
    }
}

/// The weight of a row at a threshold: the positive rows down to there and down
/// to the threshold before.
proof fn lemma_weight_at(
    probabilities: Seq<F32>,
    targets: Seq<F32>,
    thresholds: Seq<F32>,
    points: Seq<(usize, usize)>,
    k: int,
    row: int,
)
    requires
        probabilities.len() == targets.len() <= usize::MAX,
        no_nan(probabilities),
        distinct_values(probabilities, thresholds),
        counted_at(probabilities, targets, thresholds, points),
        0 <= k < thresholds.len(),
        0 <= row < targets.len(),
        thresholds[k].same(probabilities[row]),
    ensures
        positives_reaching(probabilities, targets, row) == points[k + 1].0,
        positives_above(probabilities, targets, row) == points[k].0,
{
    let n = targets.len();
    let reach = |j: int| is_positive(targets, j) && probabilities[row].at_most(probabilities[j]);
    let test = |r: usize| thresholds[k].at_most(probabilities[r as int]) && positive(targets[r as int]) == true;
    assert forall|j: int| 0 <= j < n implies test(j as usize) == #[trigger] reach(j) by {}
    lemma_rows_filtered(n, test, reach);
    assert(points[k + 1].0 == at_or_above(probabilities, targets, thresholds[k], true));
    let above = |j: int| is_positive(targets, j) && probabilities[row].less(probabilities[j]);
    if k == 0 {
        let never = |r: usize| false;
        assert forall|j: int| 0 <= j < n implies never(j as usize) == #[trigger] above(j) by {
            let place = lemma_place(probabilities, thresholds, j);
            lemma_same_rank(probabilities, thresholds, j, place);
            if place > 0 {
                assert(thresholds[place].less(thresholds[0]));
            }
        }
        lemma_rows_filtered(n, never, above);
        lemma_count_where_uniform(all_rows(n), never, false);
    } else {
        let earlier = |r: usize|
            thresholds[k - 1].at_most(probabilities[r as int]) && positive(targets[r as int]) == true;
        assert forall|j: int| 0 <= j < n implies earlier(j as usize) == #[trigger] above(j) by {
            let place = lemma_place(probabilities, thresholds, j);
            lemma_same_rank(probabilities, thresholds, j, place);
            assert(thresholds[k - 1].at_most(probabilities[j]) == (place <= k - 1));
            if place < k {
                assert(thresholds[k].less(thresholds[place]));
            } else if place > k {
                assert(thresholds[place].less(thresholds[k]));
            }
        }
        lemma_rows_filtered(n, earlier, above);
        assert(points[k - 1 + 1].0 == at_or_above(probabilities, targets, thresholds[k - 1], true));
    }
}

} // verus!
