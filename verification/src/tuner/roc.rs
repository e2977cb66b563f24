//! The ROC curve: how many rows of either class stand at or above each
//! probability, and the area below.

use crate::float::F32;
use crate::fractions::HALF;
use crate::seqs::{
    count_where, lemma_count_where_add, lemma_count_where_agreeing, lemma_count_where_more, lemma_count_where_uniform,
};
use crate::sorting::{in_order, lemma_every_position_occurs, no_nan, positions, precedes, stable_order};
use crate::tuner::metrics::positive;
use vstd::prelude::*;

verus! {

/// The rows from 0 up to `n`.
pub open spec fn all_rows(n: nat) -> Seq<usize> {
    Seq::new(n, |i: int| i as usize)
}

/// How many rows are of a class.
pub open spec fn class_count(targets: Seq<F32>, class: bool) -> nat {
    count_where(all_rows(targets.len()), |row: usize| positive(targets[row as int]) == class)
}

/// How many rows of a class have at least a given probability.
pub open spec fn at_or_above(probabilities: Seq<F32>, targets: Seq<F32>, threshold: F32, class: bool) -> nat {
    count_where(
        all_rows(targets.len()),
        |row: usize| threshold.at_most(probabilities[row as int]) && positive(targets[row as int]) == class,
    )
}

/// Whether thresholds are the values of some probabilities, each once, from the
/// largest to the smallest.
pub open spec fn distinct_values(probabilities: Seq<F32>, thresholds: Seq<F32>) -> bool {
    &&& forall|i: int, j: int|
        0 <= i < j < thresholds.len() ==> (#[trigger] thresholds[j]).less(#[trigger] thresholds[i])
    &&& forall|i: int| 0 <= i < thresholds.len() ==> probabilities.contains(#[trigger] thresholds[i])
    &&& forall|row: int|
        0 <= row < probabilities.len() ==> #[trigger] stands_among(thresholds, probabilities[row])
}

/// Whether a list holds a value.
pub open spec fn stands_among(thresholds: Seq<F32>, value: F32) -> bool {
    exists|i: int| 0 <= i < thresholds.len() && (#[trigger] thresholds[i]).same(value)
}

/// Whether points are those of the curve with the given thresholds: the first
/// is the origin, and each other one counts the positive and the negative rows
/// at or above a threshold.
pub open spec fn counted_at(
    probabilities: Seq<F32>,
    targets: Seq<F32>,
    thresholds: Seq<F32>,
    points: Seq<(usize, usize)>,
) -> bool {
    &&& points.len() == thresholds.len() + 1
    &&& points[0] == (0usize, 0usize)
    &&& forall|k: int|
        0 <= k < thresholds.len() ==> {
            &&& points[k + 1].0 == at_or_above(probabilities, targets, #[trigger] thresholds[k], true)
            &&& points[k + 1].1 == at_or_above(probabilities, targets, thresholds[k], false)
        }
}

/// Whether points are those of the ROC curve of some probabilities.
pub open spec fn is_curve_of(probabilities: Seq<F32>, targets: Seq<F32>, points: Seq<(usize, usize)>) -> bool {
    exists|thresholds: Seq<F32>| #[trigger]
        distinct_values(probabilities, thresholds) && counted_at(probabilities, targets, thresholds, points)
}

/// Whether no point of a curve lies below or left of one before it.
pub open spec fn rising(points: Seq<(usize, usize)>) -> bool {
    forall|i: int, j: int|
        0 <= i <= j < points.len() ==> (#[trigger] points[i]).0 <= (#[trigger] points[j]).0 && points[i].1
            <= points[j].1
}

/// The ROC curve of some predictions, in counts.
#[derive(Debug)]
pub enum RocCurve {
    /// There is nothing to rank, or targets are missing.
    NoRows,
    /// All rows are of one class.
    OneClass,
    /// The counts of positive and negative rows at or above each probability,
    /// the largest probability first.
    Points {
        /// The counts, from none of either to all of both.
        points: Vec<(usize, usize)>,
    },
}

/// Counting rows in any order gives the same.
proof fn lemma_count_in_any_order(order: Seq<usize>, n: nat, keep: spec_fn(usize) -> bool)
    requires
        positions(order, 0, n as int),
        n <= usize::MAX,
    ensures
        count_where(order, keep) == count_where(all_rows(n), keep),
    decreases n,
{
    if n > 0 {
        let last = (n - 1) as usize;
        lemma_every_position_occurs(order, n, last);
        let p = choose|p: int| 0 <= p < order.len() && order[p] == last;
        let front = order.take(p);
        let back = order.skip(p + 1);
        let rest = front + back;
        assert(order =~= front + seq![last] + back);
        lemma_count_where_add(front, seq![last], keep);
        lemma_count_where_add(front + seq![last], back, keep);
        lemma_count_where_add(front, back, keep);
        assert(all_rows(n) =~= all_rows((n - 1) as nat) + seq![last]);
        lemma_count_where_add(all_rows((n - 1) as nat), seq![last], keep);
        assert forall|i: int| 0 <= i < rest.len() implies 0 <= #[trigger] rest[i] < n - 1 by {
            if i < p {
                assert(rest[i] == order[i]);
            } else {
                assert(rest[i] == order[i + 1]);
            }
        }
        assert forall|i: int, j: int| 0 <= i < rest.len() && 0 <= j < rest.len() && i != j implies rest[i] != rest[j] by {
            let a = if i < p {
                i
            } else {
                i + 1
            };
            let b = if j < p {
                j
            } else {
                j + 1
            };
            assert(order[a] != order[b]);
        }
        assert(rest.no_duplicates());
        lemma_count_in_any_order(rest, (n - 1) as nat, keep);
    } else {
        assert(order =~= all_rows(0));
    }
}

/// Where the first rows of an order are those at or above a threshold, counting
/// a class among them counts it at or above the threshold.
proof fn lemma_front_is_at_or_above(
    probabilities: Seq<F32>,
    targets: Seq<F32>,
    order: Seq<usize>,
    end: int,
    threshold: F32,
    class: bool,
)
    requires
        probabilities.len() == targets.len() <= usize::MAX,
        positions(order, 0, targets.len() as int),
        0 <= end <= order.len(),
        forall|j: int| 0 <= j < end ==> threshold.at_most(probabilities[#[trigger] order[j] as int]),
        forall|j: int| end <= j < order.len() ==> !threshold.at_most(probabilities[#[trigger] order[j] as int]),
    ensures
        count_where(order.take(end), |row: usize| positive(targets[row as int]) == class) == at_or_above(
            probabilities,
            targets,
            threshold,
            class,
        ),
{
    let of_class = |row: usize| positive(targets[row as int]) == class;
    let above = |row: usize|
        threshold.at_most(probabilities[row as int]) && positive(targets[row as int]) == class;
    let front = order.take(end);
    let back = order.skip(end);
    assert(order =~= front + back);
    lemma_count_in_any_order(order, targets.len(), above);
    lemma_count_where_add(front, back, above);
    assert forall|j: int| 0 <= j < front.len() implies above(#[trigger] front[j]) == of_class(front[j]) by {
        assert(front[j] == order[j]);
    }
    lemma_count_where_agreeing(front, above, of_class);
    assert forall|j: int| 0 <= j < back.len() implies above(#[trigger] back[j]) == false by {
        assert(back[j] == order[end + j]);
    }
    lemma_count_where_uniform(back, above, false);
}

/// In a descending order, the rows behind a run of equal probabilities have
/// smaller ones than the run, and those before have none that is smaller.
proof fn lemma_run_splits_order(probabilities: Seq<F32>, order: Seq<usize>, start: int, end: int)
    requires
        no_nan(probabilities),
        positions(order, 0, probabilities.len() as int),
        in_order(probabilities, true, order),
        0 <= start < end <= order.len(),
        forall|j: int|
            start <= j < end ==> probabilities[#[trigger] order[j] as int].same(probabilities[order[start] as int]),
        end < order.len() ==> !probabilities[order[end] as int].same(probabilities[order[start] as int]),
    ensures
        ({
            let base = probabilities[order[start] as int];
            &&& forall|j: int| 0 <= j < end ==> base.at_most(probabilities[#[trigger] order[j] as int])
            &&& forall|j: int| end <= j < order.len() ==> probabilities[#[trigger] order[j] as int].less(base)
        }),
{
    let base = probabilities[order[start] as int];
    assert forall|j: int| 0 <= j < end implies base.at_most(probabilities[#[trigger] order[j] as int]) by {
        if j < start {
            assert(precedes(probabilities, true, order[j] as int, order[start] as int));
        }
    }
    assert forall|j: int| end <= j < order.len() implies probabilities[#[trigger] order[j] as int].less(base) by {
        assert(precedes(probabilities, true, order[start] as int, order[end] as int));
        if j > end {
            assert(precedes(probabilities, true, order[end] as int, order[j] as int));
        }
    }
}

/// A further, smaller threshold behind those that a list has.
proof fn lemma_next_threshold(
    probabilities: Seq<F32>,
    order: Seq<usize>,
    thresholds: Seq<F32>,
    start: int,
    end: int,
)
    requires
        no_nan(probabilities),
        0 <= start < end <= order.len(),
        forall|j: int| 0 <= j < order.len() ==> #[trigger] order[j] < probabilities.len(),
        forall|j: int|
            start <= j < end ==> probabilities[#[trigger] order[j] as int].same(probabilities[order[start] as int]),
        forall|i: int|
            0 <= i < thresholds.len() ==> probabilities[order[start] as int].less(#[trigger] thresholds[i]),
        forall|i: int, j: int|
            0 <= i < j < thresholds.len() ==> (#[trigger] thresholds[j]).less(#[trigger] thresholds[i]),
        forall|i: int| 0 <= i < thresholds.len() ==> probabilities.contains(#[trigger] thresholds[i]),
        forall|j: int| 0 <= j < start ==> stands_among(thresholds, probabilities[#[trigger] order[j] as int]),
        end < order.len() ==> probabilities[order[end] as int].less(probabilities[order[start] as int]),
    ensures
        ({
            let more = thresholds.push(probabilities[order[start] as int]);
            &&& forall|i: int, j: int| 0 <= i < j < more.len() ==> (#[trigger] more[j]).less(#[trigger] more[i])
            &&& forall|i: int| 0 <= i < more.len() ==> probabilities.contains(#[trigger] more[i])
            &&& forall|j: int| 0 <= j < end ==> stands_among(more, probabilities[#[trigger] order[j] as int])
            &&& end < order.len() ==> forall|i: int|
                0 <= i < more.len() ==> probabilities[order[end] as int].less(#[trigger] more[i])
        }),
{
    let base = probabilities[order[start] as int];
    let more = thresholds.push(base);
    let count = thresholds.len() as int;
    assert(more[count] == base);
    assert forall|j: int| 0 <= j < end implies stands_among(more, probabilities[#[trigger] order[j] as int]) by {
        if j < start {
            let i = choose|i: int|
                0 <= i < thresholds.len() && (#[trigger] thresholds[i]).same(probabilities[order[j] as int]);
            assert(more[i].same(probabilities[order[j] as int]));
        } else {
            assert(more[count].same(probabilities[order[j] as int]));
        }
    }
}

/// How many rows are positive.
fn count_positives(targets: &[F32]) -> (positives: usize)
    ensures
        positives == class_count(targets@, true),
        positives <= targets@.len(),
{
    let rows: usize = targets.len();
    let half = F32 { bits: HALF };
    let ghost is_positive = |row: usize| positive(targets@[row as int]) == true;
    let mut positives: usize = 0;
    let mut i: usize = 0;
    while i < rows
        invariant
            i <= rows == targets@.len(),
            half == (F32 { bits: HALF }),
            is_positive == (|row: usize| positive(targets@[row as int]) == true),
            positives == count_where(all_rows(i as nat), is_positive),
            positives <= i,
        decreases rows - i,
    {
        proof {
            assert(all_rows((i + 1) as nat).drop_last() =~= all_rows(i as nat));
            assert(all_rows((i + 1) as nat).last() == i);
            assert(is_positive(i) == positive(targets@[i as int]));
        }
        if half.lt(targets[i]) {
            positives = positives + 1;
        }
        i = i + 1;
    }
    positives
}

/// The ROC curve of some probabilities. Rows of equal probabilities share a
/// point.
pub fn roc_curve(probabilities: &[F32], targets: &[F32]) -> (curve: RocCurve)
    ensures
        match curve {
            RocCurve::NoRows => probabilities@.len() == 0 || probabilities@.len() != targets@.len(),
            RocCurve::OneClass => {
                &&& 0 < probabilities@.len() == targets@.len()
                &&& class_count(targets@, true) == 0 || class_count(targets@, false) == 0
            },
            RocCurve::Points { points } => {
                &&& 0 < probabilities@.len() == targets@.len()
                &&& 0 < class_count(targets@, true) < targets@.len()
                &&& points@.len() >= 2
                &&& points@[0] == (0usize, 0usize)
                &&& points@.last().0 == class_count(targets@, true)
                &&& points@.last().1 == class_count(targets@, false)
                &&& points@.last().0 + points@.last().1 == targets@.len()
                &&& rising(points@)
                &&& no_nan(probabilities@) ==> is_curve_of(probabilities@, targets@, points@)
            },
        },
{
    let rows: usize = targets.len();
    if probabilities.len() == 0 || probabilities.len() != rows {
        return RocCurve::NoRows;
    }
    let half = F32 { bits: HALF };
    let positives: usize = count_positives(targets);
    proof {
        lemma_two_classes(targets@, all_rows(targets@.len()));
    }
    if positives == 0 || positives == rows {
        return RocCurve::OneClass;
    }
    let order: Vec<usize> = stable_order(probabilities, true);
    let ghost up_test = |row: usize| positive(targets@[row as int]) == true;
    let ghost right_test = |row: usize| positive(targets@[row as int]) == false;
    let ghost mut thresholds: Seq<F32> = Seq::empty();
    let mut points: Vec<(usize, usize)> = Vec::new();
    points.push((0, 0));
    let mut up: usize = 0;
    let mut right: usize = 0;
    let mut start: usize = 0;
    assert(order@.take(0) =~= Seq::empty());
    while start < rows
        invariant
            0 < rows == targets@.len() == probabilities@.len() == order@.len(),
            start <= rows,
            half == (F32 { bits: HALF }),
            up_test == (|row: usize| positive(targets@[row as int]) == true),
            right_test == (|row: usize| positive(targets@[row as int]) == false),
            positions(order@, 0, targets@.len() as int),
            no_nan(probabilities@) ==> in_order(probabilities@, true, order@),
            up == count_where(order@.take(start as int), up_test),
            right == count_where(order@.take(start as int), right_test),
            up + right == start,
            points@.len() == thresholds.len() + 1,
            start > 0 ==> points@.len() >= 2,
            points@[0] == (0usize, 0usize),
            points@.last() == (up, right),
            rising(points@),
            no_nan(probabilities@) ==> {
                &&& start < rows ==> forall|i: int|
                    0 <= i < thresholds.len() ==> probabilities@[order@[start as int] as int].less(
                        #[trigger] thresholds[i],
                    )
                &&& forall|i: int, j: int|
                    0 <= i < j < thresholds.len() ==> (#[trigger] thresholds[j]).less(#[trigger] thresholds[i])
                &&& forall|i: int| 0 <= i < thresholds.len() ==> probabilities@.contains(#[trigger] thresholds[i])
                &&& forall|j: int|
                    0 <= j < start ==> stands_among(thresholds, probabilities@[#[trigger] order@[j] as int])
                &&& counted_at(probabilities@, targets@, thresholds, points@)
            },
        decreases rows - start,
    {
        let base: F32 = probabilities[order[start]];
        let mut end: usize = start;
        while end < rows && (end == start || probabilities[order[end]].eq_value(base))
            invariant
                start <= end <= rows == targets@.len() == probabilities@.len() == order@.len(),
                start < rows,
                half == (F32 { bits: HALF }),
                up_test == (|row: usize| positive(targets@[row as int]) == true),
                right_test == (|row: usize| positive(targets@[row as int]) == false),
                positions(order@, 0, targets@.len() as int),
                base == probabilities@[order@[start as int] as int],
                up == count_where(order@.take(end as int), up_test),
                right == count_where(order@.take(end as int), right_test),
                up + right == end,
                points@.last().0 <= up,
                points@.last().1 <= right,
                no_nan(probabilities@) ==> forall|j: int|
                    start <= j < end ==> probabilities@[#[trigger] order@[j] as int].same(base),
            decreases rows - end,
        {
            proof {
                assert(order@.take(end + 1).drop_last() =~= order@.take(end as int));
                assert(order@.take(end + 1).last() == order@[end as int]);
            }
            if half.lt(targets[order[end]]) {
                up = up + 1;
            } else {
                right = right + 1;
            }
            end = end + 1;
        }
        let ghost earlier = points@;
        points.push((up, right));
        proof {
            assert(rising(points@));
            if no_nan(probabilities@) {
                lemma_run_splits_order(probabilities@, order@, start as int, end as int);
                lemma_next_threshold(probabilities@, order@, thresholds, start as int, end as int);
                lemma_front_is_at_or_above(probabilities@, targets@, order@, end as int, base, true);
                lemma_front_is_at_or_above(probabilities@, targets@, order@, end as int, base, false);
                let more = thresholds.push(base);
                assert forall|k: int| 0 <= k < more.len() implies points@[k + 1].0 == at_or_above(
                    probabilities@,
                    targets@,
                    #[trigger] more[k],
                    true,
                ) && points@[k + 1].1 == at_or_above(probabilities@, targets@, more[k], false) by {
                    if k < thresholds.len() {
                        assert(points@[k + 1] == earlier[k + 1]);
                        assert(more[k] == thresholds[k]);
                    }
                }
            }
            thresholds = thresholds.push(base);
        }
        start = end;
    }
    proof {
        assert(order@.take(rows as int) =~= order@);
        lemma_count_in_any_order(order@, targets@.len(), up_test);
        lemma_count_in_any_order(order@, targets@.len(), right_test);
        if no_nan(probabilities@) {
            assert forall|row: int| 0 <= row < probabilities@.len() implies #[trigger] stands_among(
                thresholds,
                probabilities@[row],
            ) by {
                lemma_every_position_occurs(order@, targets@.len(), row as usize);
                let j = choose|j: int| 0 <= j < order@.len() && order@[j] == row as usize;
                assert(stands_among(thresholds, probabilities@[order@[j] as int]));
            }
            assert(distinct_values(probabilities@, thresholds));
        }
    }
    RocCurve::Points { points }
}

/// Every row is of one class or the other.
proof fn lemma_two_classes(targets: Seq<F32>, rows: Seq<usize>)
    ensures
        count_where(rows, |row: usize| positive(targets[row as int]) == true) + count_where(
            rows,
            |row: usize| positive(targets[row as int]) == false,
        ) == rows.len(),
    decreases rows.len(),
{
    if rows.len() > 0 {
        lemma_two_classes(targets, rows.drop_last());
    }
}

/// Twice the area under the first `n` points of a curve, in squares of one row
/// by one row: a step to the right adds the full squares below it, and a slope
/// over a run of equal probabilities adds half squares.
pub open spec fn doubled_area(points: Seq<(usize, usize)>, n: nat) -> int
    decreases n,
{
    if n <= 1 {
        0
    } else {
        doubled_area(points, (n - 1) as nat) + (points[n - 1].1 - points[n - 2].1) * (points[n - 1].0 + points[n
            - 2].0)
    }
}

/// The area under a ROC curve is at most the rectangle that the curve spans.
pub proof fn law_area_is_within_the_rectangle(points: Seq<(usize, usize)>, n: nat)
    requires
        rising(points),
        0 < n <= points.len(),
    ensures
        0 <= doubled_area(points, n) <= 2 * (points[n - 1].0 * points[n - 1].1),
    decreases n,
{
    let up = points[n - 1].0 as int;
    let right = points[n - 1].1 as int;
    if n > 1 {
        law_area_is_within_the_rectangle(points, (n - 1) as nat);
        let up_before = points[n - 2].0 as int;
        let right_before = points[n - 2].1 as int;
        assert(up_before <= up && right_before <= right);
        let added = (right - right_before) * (up + up_before);
        assert(added >= 0) by (nonlinear_arith)
            requires
                added == (right - right_before) * (up + up_before),
                right_before <= right,
                0 <= up_before <= up,
        ;
        assert(2 * (up_before * right_before) + added <= 2 * (up * right)) by (nonlinear_arith)
            requires
                added == (right - right_before) * (up + up_before),
                0 <= right_before <= right,
                0 <= up_before <= up,
        ;
    } else {
        assert(0 <= up * right) by (nonlinear_arith)
            requires
                up >= 0,
                right >= 0,
        ;
    }
}

/// Twice the area under a curve.
pub fn area_under(points: &[(usize, usize)]) -> (area: u128)
    requires
        points@.len() > 0,
        rising(points@),
        points@.last().0 + points@.last().1 <= usize::MAX,
    ensures
        area == doubled_area(points@, points@.len()),
{
    let count: usize = points.len();
    let mut area: u128 = 0;
    let mut i: usize = 1;
    while i < count
        invariant
            1 <= i <= count == points@.len(),
            rising(points@),
            points@.last().0 + points@.last().1 <= usize::MAX,
            area == doubled_area(points@, i as nat),
        decreases count - i,
    {
        let (up_before, right_before): (usize, usize) = points[i - 1];
        let (up, right): (usize, usize) = points[i];
        proof {
            law_area_is_within_the_rectangle(points@, (i + 1) as nat);
            assert(points@[i as int].0 <= points@[count - 1].0 && points@[i as int].1 <= points@[count - 1].1);
            assert(points@[i - 1].0 <= points@[i as int].0 && points@[i - 1].1 <= points@[i as int].1);
            assert(4 * (up * right) <= (up + right) * (up + right)) by (nonlinear_arith);
            assert((up + right) * (up + right) <= 0x1_0000_0000_0000_0000 * 0x1_0000_0000_0000_0000) by (
                nonlinear_arith)
                requires
                    0 <= up + right <= 0xffff_ffff_ffff_ffff,
            ;
            let added = (right - right_before) * (up + up_before);
            assert(added >= 0) by (nonlinear_arith)
                requires
                    added == (right - right_before) * (up + up_before),
                    right_before <= right,
            ;
        }
        let width: u128 = (right - right_before) as u128;
        let height: u128 = up as u128 + up_before as u128;
        area = area + width * height;
        i = i + 1;
    }
    area
}

/// Lists of the distinct values of some probabilities agree.
proof fn lemma_same_thresholds(probabilities: Seq<F32>, first: Seq<F32>, second: Seq<F32>, i: int)
    requires
        distinct_values(probabilities, first),
        distinct_values(probabilities, second),
        0 <= i < first.len(),
    ensures
        i < second.len(),
        first[i].same(second[i]),
    decreases i,
{
    if i > 0 {
        lemma_same_thresholds(probabilities, first, second, i - 1);
    }
    let row = choose|row: int| 0 <= row < probabilities.len() && probabilities[row] == first[i];
    assert(probabilities.contains(first[i]));
    assert(stands_among(second, probabilities[row]));
    let q = choose|q: int| 0 <= q < second.len() && (#[trigger] second[q]).same(probabilities[row]);
    if q < i {
        assert(first[i].less(first[i - 1]));
        if q < i - 1 {
            assert(second[i - 1].less(second[q]));
        }
        assert(false);
    }
    let other = choose|row: int| 0 <= row < probabilities.len() && probabilities[row] == second[i];
    assert(probabilities.contains(second[i]));
    assert(stands_among(first, probabilities[other]));
    let p = choose|p: int| 0 <= p < first.len() && (#[trigger] first[p]).same(probabilities[other]);
    if p < i {
        assert(second[i].less(second[i - 1]));
        if p < i - 1 {
            assert(first[i - 1].less(first[p]));
        }
        assert(false);
    }
    assert(q > i ==> second[q].less(second[i]));
    assert(p > i ==> first[p].less(first[i]));
}

/// Probabilities and targets have one ROC curve.
pub proof fn law_curve_is_unique(
    probabilities: Seq<F32>,
    targets: Seq<F32>,
    first: Seq<(usize, usize)>,
    second: Seq<(usize, usize)>,
)
    requires
        is_curve_of(probabilities, targets, first),
        is_curve_of(probabilities, targets, second),
    ensures
        first == second,
{
    let a = choose|thresholds: Seq<F32>| #[trigger]
        distinct_values(probabilities, thresholds) && counted_at(probabilities, targets, thresholds, first);
    let b = choose|thresholds: Seq<F32>| #[trigger]
        distinct_values(probabilities, thresholds) && counted_at(probabilities, targets, thresholds, second);
    if a.len() > 0 {
        lemma_same_thresholds(probabilities, a, b, a.len() - 1);
    }
    if b.len() > 0 {
        lemma_same_thresholds(probabilities, b, a, b.len() - 1);
    }
    assert forall|k: int| 0 <= k < first.len() implies first[k] == second[k] by {
        if k > 0 {
            lemma_same_thresholds(probabilities, a, b, k - 1);
            let x = a[k - 1];
            let y = b[k - 1];
            lemma_same_counts(probabilities, targets, x, y, true);
            lemma_same_counts(probabilities, targets, x, y, false);
            assert(first[k - 1 + 1].0 == at_or_above(probabilities, targets, x, true));
            assert(second[k - 1 + 1].0 == at_or_above(probabilities, targets, y, true));
        }
    }
    assert(first =~= second);
}

proof fn lemma_same_counts(probabilities: Seq<F32>, targets: Seq<F32>, a: F32, b: F32, class: bool)
    requires
        a.same(b),
    ensures
        at_or_above(probabilities, targets, a, class) == at_or_above(probabilities, targets, b, class),
{
    let rows = all_rows(targets.len());
    let from_a = |row: usize| a.at_most(probabilities[row as int]) && positive(targets[row as int]) == class;
    let from_b = |row: usize| b.at_most(probabilities[row as int]) && positive(targets[row as int]) == class;
    lemma_count_where_agreeing(rows, from_a, from_b);
}

/// Where all probabilities are equal, the area is half the rectangle, whatever
/// the order of the rows.
pub proof fn law_ties_give_half(probabilities: Seq<F32>, targets: Seq<F32>, points: Seq<(usize, usize)>)
    requires
        probabilities.len() == targets.len(),
        probabilities.len() > 0,
        is_curve_of(probabilities, targets, points),
        forall|i: int, j: int|
            0 <= i < probabilities.len() && 0 <= j < probabilities.len() ==> (#[trigger] probabilities[i]).same(
                #[trigger] probabilities[j],
            ),
    ensures
        doubled_area(points, points.len()) == points.last().0 * points.last().1,
{
    let thresholds = choose|thresholds: Seq<F32>| #[trigger]
        distinct_values(probabilities, thresholds) && counted_at(probabilities, targets, thresholds, points);
    if thresholds.len() >= 2 {
        let a = choose|a: int| 0 <= a < probabilities.len() && probabilities[a] == thresholds[0];
        let b = choose|b: int| 0 <= b < probabilities.len() && probabilities[b] == thresholds[1];
        assert(thresholds[1].less(thresholds[0]));
        assert(probabilities[a].same(probabilities[b]));
    }
    assert(stands_among(thresholds, probabilities[0]));
    assert(points.len() == 2);
    reveal_with_fuel(doubled_area, 3);
    assert(points[1].1 * points[1].0 == points[1].0 * points[1].1) by (nonlinear_arith);
}

/// Whether every row of a class has a larger probability than every row of the
/// other one.
pub open spec fn separated(probabilities: Seq<F32>, targets: Seq<F32>, above: bool) -> bool {
    forall|i: int, j: int|
        0 <= i < targets.len() && 0 <= j < targets.len() && positive(targets[i]) == above && positive(targets[j])
            != above ==> (#[trigger] probabilities[j]).less(#[trigger] probabilities[i])
}

/// The place of a row's probability among the thresholds: the row is at or above
/// the threshold there and those behind it, and below the ones before.
pub proof fn lemma_place(probabilities: Seq<F32>, thresholds: Seq<F32>, row: int) -> (place: int)
    requires
        distinct_values(probabilities, thresholds),
        0 <= row < probabilities.len(),
    ensures
        0 <= place < thresholds.len(),
        forall|i: int|
            0 <= i < thresholds.len() ==> (#[trigger] thresholds[i]).at_most(probabilities[row]) == (place <= i),
{
    assert(stands_among(thresholds, probabilities[row]));
    let place = choose|i: int| 0 <= i < thresholds.len() && (#[trigger] thresholds[i]).same(probabilities[row]);
    assert forall|i: int| 0 <= i < thresholds.len() implies (#[trigger] thresholds[i]).at_most(probabilities[row]) == (
    place <= i) by {
        if i < place {
            assert(thresholds[place].less(thresholds[i]));
        } else if i > place {
            assert(thresholds[i].less(thresholds[place]));
        }
    }
    place
}

/// Whether a point counts more rows of a class than the one before it.
pub open spec fn counts_more(
    probabilities: Seq<F32>,
    targets: Seq<F32>,
    thresholds: Seq<F32>,
    k: int,
    class: bool,
) -> bool {
    at_or_above(probabilities, targets, thresholds[k], class) > if k == 0 {
        0
    } else {
        at_or_above(probabilities, targets, thresholds[k - 1], class)
    }
}

/// A point that counts more rows of a class than the one before it has a row of
/// that class at its own threshold.
proof fn lemma_new_row(
    probabilities: Seq<F32>,
    targets: Seq<F32>,
    thresholds: Seq<F32>,
    k: int,
    class: bool,
) -> (row: int)
    requires
        probabilities.len() == targets.len() <= usize::MAX,
        distinct_values(probabilities, thresholds),
        0 <= k < thresholds.len(),
        counts_more(probabilities, targets, thresholds, k, class),
    ensures
        0 <= row < targets.len(),
        positive(targets[row]) == class,
        thresholds[k].at_most(probabilities[row]),
        k > 0 ==> !thresholds[k - 1].at_most(probabilities[row]),
{
    let rows = all_rows(targets.len());
    let now = |row: usize|
        thresholds[k].at_most(probabilities[row as int]) && positive(targets[row as int]) == class;
    if k == 0 {
        let nothing = |row: usize| false;
        lemma_count_where_uniform(rows, nothing, false);
        let at = lemma_count_where_more(rows, nothing, now);
        assert(rows[at] == at as usize);
        at
    } else {
        let before = |row: usize|
            thresholds[k - 1].at_most(probabilities[row as int]) && positive(targets[row as int]) == class;
        assert(thresholds[k].less(thresholds[k - 1]));
        let at = lemma_count_where_more(rows, before, now);
        assert(rows[at] == at as usize);
        at
    }
}

/// Where one class stands above the other, a point that counts a further row of
/// the lower class stands behind one that counts all rows of the upper class.
proof fn lemma_upper_class_first(
    probabilities: Seq<F32>,
    targets: Seq<F32>,
    thresholds: Seq<F32>,
    above: bool,
    k: int,
)
    requires
        probabilities.len() == targets.len() <= usize::MAX,
        distinct_values(probabilities, thresholds),
        separated(probabilities, targets, above),
        0 <= k < thresholds.len(),
        counts_more(probabilities, targets, thresholds, k, !above),
        class_count(targets, above) > 0,
    ensures
        k > 0,
        at_or_above(probabilities, targets, thresholds[k - 1], above) == class_count(targets, above),
{
    let rows = all_rows(targets.len());
    let low = lemma_new_row(probabilities, targets, thresholds, k, !above);
    let of_class = |row: usize| positive(targets[row as int]) == above;
    let counted = |row: usize|
        thresholds[k - 1].at_most(probabilities[row as int]) && positive(targets[row as int]) == above;
    assert forall|i: int| 0 <= i < rows.len() implies (of_class(#[trigger] rows[i]) ==> k > 0) && counted(rows[i])
        == of_class(rows[i]) by {
        let high = rows[i] as int;
        if of_class(rows[i]) {
            lemma_higher_row(probabilities, targets, thresholds, above, k, low, high);
        }
    }
    let nothing = |row: usize| false;
    lemma_count_where_uniform(rows, nothing, false);
    let some = lemma_count_where_more(rows, nothing, of_class);
    assert(of_class(rows[some]));
    lemma_count_where_agreeing(rows, counted, of_class);
}

/// A row above one at a threshold stands at or above the threshold before.
proof fn lemma_higher_row(
    probabilities: Seq<F32>,
    targets: Seq<F32>,
    thresholds: Seq<F32>,
    above: bool,
    k: int,
    low: int,
    high: int,
)
    requires
        probabilities.len() == targets.len(),
        distinct_values(probabilities, thresholds),
        separated(probabilities, targets, above),
        0 <= k < thresholds.len(),
        0 <= low < targets.len(),
        0 <= high < targets.len(),
        positive(targets[low]) != above,
        positive(targets[high]) == above,
        thresholds[k].at_most(probabilities[low]),
    ensures
        k > 0,
        thresholds[k - 1].at_most(probabilities[high]),
{
    let place = lemma_place(probabilities, thresholds, high);
    assert(probabilities[low].less(probabilities[high]));
    assert(thresholds[place].at_most(probabilities[high]));
    if place >= k {
        assert(stands_among(thresholds, probabilities[high]));
        let own = choose|i: int| 0 <= i < thresholds.len() && (#[trigger] thresholds[i]).same(probabilities[high]);
        assert(thresholds[own].at_most(probabilities[high]));
        assert(place <= own);
        assert(own > k ==> thresholds[own].less(thresholds[k]));
        assert(false);
    }
    assert(thresholds[k - 1].at_most(probabilities[high]));
}

/// Where all positive rows have larger probabilities than all negative ones, the
/// area is the whole rectangle; where they have smaller ones, it is nothing.
pub proof fn law_perfect_and_worst_orders(
    probabilities: Seq<F32>,
    targets: Seq<F32>,
    points: Seq<(usize, usize)>,
    above: bool,
)
    requires
        probabilities.len() == targets.len() <= usize::MAX,
        no_nan(probabilities),
        is_curve_of(probabilities, targets, points),
        separated(probabilities, targets, above),
        class_count(targets, true) > 0,
        class_count(targets, false) > 0,
    ensures
        doubled_area(points, points.len()) == if above {
            2 * (class_count(targets, true) * points.last().1)
        } else {
            0
        },
{
    let thresholds = choose|thresholds: Seq<F32>| #[trigger]
        distinct_values(probabilities, thresholds) && counted_at(probabilities, targets, thresholds, points);
    lemma_area_of_separated(probabilities, targets, thresholds, points, above, points.len());
}

proof fn lemma_area_of_separated(
    probabilities: Seq<F32>,
    targets: Seq<F32>,
    thresholds: Seq<F32>,
    points: Seq<(usize, usize)>,
    above: bool,
    n: nat,
)
    requires
        probabilities.len() == targets.len() <= usize::MAX,
        no_nan(probabilities),
        distinct_values(probabilities, thresholds),
        counted_at(probabilities, targets, thresholds, points),
        separated(probabilities, targets, above),
        class_count(targets, true) > 0,
        class_count(targets, false) > 0,
        0 < n <= points.len(),
    ensures
        doubled_area(points, n) == if above {
            2 * (class_count(targets, true) * points[n - 1].1)
        } else {
            0
        },
    decreases n,
{
    let all = class_count(targets, true) as int;
    if n > 1 {
        lemma_area_of_separated(probabilities, targets, thresholds, points, above, (n - 1) as nat);
        let k = n - 2;
        let up = points[n - 1].0 as int;
        let right = points[n - 1].1 as int;
        let up_before = points[n - 2].0 as int;
        let right_before = points[n - 2].1 as int;
        assert(up == at_or_above(probabilities, targets, thresholds[k], true));
        assert(right == at_or_above(probabilities, targets, thresholds[k], false));
        if k > 0 {
            assert(points[k - 1 + 1] == points[n - 2]);
            assert(up_before == at_or_above(probabilities, targets, thresholds[k - 1], true));
            assert(right_before == at_or_above(probabilities, targets, thresholds[k - 1], false));
        }
        lemma_counts_grow(probabilities, targets, thresholds, k, true);
        lemma_counts_grow(probabilities, targets, thresholds, k, false);
        if above {
            if right > right_before {
                assert(counts_more(probabilities, targets, thresholds, k, false));
                lemma_upper_class_first(probabilities, targets, thresholds, true, k);
                assert(up_before == all && up == all);
            }
            assert(2 * (all * right_before) + (right - right_before) * (up + up_before) == 2 * (all * right)) by (
                nonlinear_arith)
                requires
                    right == right_before || (up == all && up_before == all),
            ;
        } else {
            if right > right_before && up > 0 {
                assert(counts_more(probabilities, targets, thresholds, k, false));
                lemma_no_upper_yet(probabilities, targets, thresholds, k);
            }
            assert((right - right_before) * (up + up_before) == 0) by (nonlinear_arith)
                requires
                    right == right_before || (up == 0 && up_before == 0),
            ;
        }
    } else {
        assert(all * 0 == 0) by (nonlinear_arith);
    }
}

/// Counts only grow from threshold to threshold, and never past all rows.
proof fn lemma_counts_grow(probabilities: Seq<F32>, targets: Seq<F32>, thresholds: Seq<F32>, k: int, class: bool)
    requires
        probabilities.len() == targets.len() <= usize::MAX,
        no_nan(probabilities),
        distinct_values(probabilities, thresholds),
        0 <= k < thresholds.len(),
    ensures
        at_or_above(probabilities, targets, thresholds[k], class) <= class_count(targets, class),
        k > 0 ==> at_or_above(probabilities, targets, thresholds[k - 1], class) <= at_or_above(
            probabilities,
            targets,
            thresholds[k],
            class,
        ),
{
    let rows = all_rows(targets.len());
    let of_class = |row: usize| positive(targets[row as int]) == class;
    let here = |row: usize|
        thresholds[k].at_most(probabilities[row as int]) && positive(targets[row as int]) == class;
    lemma_count_where_at_most(rows, here, of_class);
    if k > 0 {
        let before = |row: usize|
            thresholds[k - 1].at_most(probabilities[row as int]) && positive(targets[row as int]) == class;
        assert(thresholds[k].less(thresholds[k - 1]));
        lemma_count_where_at_most(rows, before, here);
    }
}

proof fn lemma_count_where_at_most(s: Seq<usize>, p: spec_fn(usize) -> bool, q: spec_fn(usize) -> bool)
    requires
        forall|i: int| 0 <= i < s.len() && p(#[trigger] s[i]) ==> q(s[i]),
    ensures
        count_where(s, p) <= count_where(s, q),
    decreases s.len(),
{
    if s.len() > 0 {
        let rest = s.drop_last();
        assert(p(s[s.len() - 1]) ==> q(s[s.len() - 1]));
        assert forall|i: int| 0 <= i < rest.len() && p(#[trigger] rest[i]) implies q(rest[i]) by {
            assert(rest[i] == s[i]);
        }
        lemma_count_where_at_most(rest, p, q);
    }
}

/// Where the negative rows stand above the positive ones, a point that counts a
/// further negative row counts no positive one.
proof fn lemma_no_upper_yet(probabilities: Seq<F32>, targets: Seq<F32>, thresholds: Seq<F32>, k: int)
    requires
        probabilities.len() == targets.len() <= usize::MAX,
        distinct_values(probabilities, thresholds),
        separated(probabilities, targets, false),
        0 <= k < thresholds.len(),
        counts_more(probabilities, targets, thresholds, k, false),
    ensures
        at_or_above(probabilities, targets, thresholds[k], true) == 0,
{
    let rows = all_rows(targets.len());
    let nothing = |row: usize| false;
    lemma_count_where_uniform(rows, nothing, false);
    let here = |row: usize|
        thresholds[k].at_most(probabilities[row as int]) && positive(targets[row as int]) == true;
    if at_or_above(probabilities, targets, thresholds[k], true) > 0 {
        let at = lemma_count_where_more(rows, nothing, here);
        assert(rows[at] == at as usize);
        let high = lemma_new_row(probabilities, targets, thresholds, k, false);
        lemma_higher_row(probabilities, targets, thresholds, false, k, at, high);
    }
}

} // verus!
