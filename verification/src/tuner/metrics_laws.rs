//! What the counts and ranks of the metrics mean for the rows that are counted.

use crate::float::F32;
use crate::seqs::lemma_ascending_where;
use crate::tuner::metrics::{
    classified_right, doubled_rank, era_groups, in_era, positive, right_count, rows_of_era, run_start, runs_end, Metric,
};
use vstd::prelude::*;

verus! {

/// A row with target 1 is right exactly when its probability reaches the
/// threshold, and a row with target 0 exactly when it does not.
pub proof fn law_threshold_decides_the_class(probability: F32, target: F32, threshold: F32)
    requires
        target.bits == 0 || target.bits == 0x8000_0000 || target.bits == 0x3f80_0000,
    ensures
        target.bits == 0x3f80_0000 ==> (classified_right(probability, target, threshold) <==> threshold.at_most(
            probability,
        )),
        target.bits != 0x3f80_0000 ==> (classified_right(probability, target, threshold) <==> !threshold.at_most(
            probability,
        )),
{
}

/// For targets of 0 and 1 the count is the number of rows for which the
/// probability reaches the threshold if and only if the target is 1.
pub proof fn law_right_rows_are_counted(probabilities: Seq<F32>, targets: Seq<F32>, threshold: F32, n: nat)
    requires
        probabilities.len() == targets.len(),
        n <= targets.len(),
        forall|i: int|
            0 <= i < targets.len() ==> (#[trigger] targets[i]).bits == 0 || targets[i].bits == 0x8000_0000
                || targets[i].bits == 0x3f80_0000,
    ensures
        right_count(probabilities, targets, threshold, n) == Seq::new(n, |i: int| i).filter(
            |i: int| threshold.at_most(probabilities[i]) == (targets[i].bits == 0x3f80_0000),
        ).len(),
    decreases n,
{
    let keep = |i: int| threshold.at_most(probabilities[i]) == (targets[i].bits == 0x3f80_0000);
    let rows = Seq::new(n, |i: int| i);
    reveal(Seq::filter);
    if n > 0 {
        let shorter = Seq::new((n - 1) as nat, |i: int| i);
        law_right_rows_are_counted(probabilities, targets, threshold, (n - 1) as nat);
        assert(rows.drop_last() =~= shorter);
        assert(rows.last() == n - 1);
        law_threshold_decides_the_class(probabilities[n - 1], targets[n - 1], threshold);
        assert(keep(n - 1) == classified_right(probabilities[n - 1], targets[n - 1], threshold));
    }
}

/// A target that lies at least one half from both classes, or is no number, is
/// never right: 0.5 itself, 1.5 and above, -0.5 and below.
pub proof fn law_odd_targets_are_never_right(probability: F32, target: F32, threshold: F32)
    requires
        target.nan() || target.bits == 0x3f00_0000 || 0x3fc0_0000 <= target.bits < 0x8000_0000 || 0xbf00_0000
            <= target.bits,
    ensures
        !classified_right(probability, target, threshold),
{
}

/// The positive class is that of the targets above one half.
pub proof fn law_positive_targets(target: F32)
    ensures
        positive(target) <==> 0x3f00_0000 < target.bits <= 0x7f80_0000,
{
}

/// Every metric asks for at least one row, and for one prediction per row; the
/// log loss of several classes asks for one per class and row.
pub proof fn law_metric_shapes(metric: Metric, predictions: nat, targets: nat)
    ensures
        !metric.fits(predictions, 0),
        !(metric is MultiClassLogLoss) && targets > 0 ==> (metric.fits(predictions, targets) <==> predictions == targets),
        metric matches Metric::MultiClassLogLoss { n_classes } ==> (targets > 0 ==> (metric.fits(predictions, targets)
            <==> predictions == n_classes * targets)),
{
    if let Metric::MultiClassLogLoss { n_classes } = metric {
        assert(n_classes as nat * targets == targets * n_classes as nat) by (nonlinear_arith);
    }
}

/// The rank of a place is the mean of the ranks of the run of ties around it:
/// the run starts at the front or where another run ends, holds the place, and
/// all its places have the same rank, which doubled is the sum of the first and
/// the last rank of the run, counted from 1.
pub proof fn law_ties_share_their_mean_rank(run_ends: Seq<usize>, k: int)
    requires
        runs_end(run_ends),
        0 <= k < run_ends.len(),
    ensures
        exists|start: int|
            {
                &&& 0 <= start <= k < #[trigger] run_ends[start]
                &&& doubled_rank(run_ends, k) == (start + 1) + run_ends[start]
                &&& forall|j: int|
                    start <= j < run_ends[start] ==> #[trigger] doubled_rank(run_ends, j) == (start + 1)
                        + run_ends[start]
                &&& start == 0 || exists|before: int| 0 <= before < start && #[trigger] run_ends[before] == start
            },
{
    let start = lemma_run(run_ends, 0, k);
    assert forall|j: int| start <= j < run_ends[start] implies #[trigger] doubled_rank(run_ends, j) == (start + 1)
        + run_ends[start] by {
        lemma_same_run(run_ends, 0, k, j);
    }
    assert(run_ends[start] > k);
}

/// Where there are no ties, the places rank in their order.
pub proof fn law_untied_places_rank_in_order(run_ends: Seq<usize>, k: int)
    requires
        runs_end(run_ends),
        0 <= k < run_ends.len(),
        forall|i: int| 0 <= i < run_ends.len() ==> #[trigger] run_ends[i] == i + 1,
    ensures
        doubled_rank(run_ends, k) == 2 * (k + 1),
{
    let start = lemma_run(run_ends, 0, k);
    assert(run_ends[start] == start + 1);
}

/// The run that holds a place, from the start of a run on.
proof fn lemma_run(run_ends: Seq<usize>, from: int, k: int) -> (start: int)
    requires
        runs_end(run_ends),
        0 <= from <= k < run_ends.len(),
    ensures
        start == run_start(run_ends, from, k),
        from <= start <= k < run_ends[start],
        start == from || exists|before: int| from <= before < start && #[trigger] run_ends[before] == start,
    decreases run_ends.len() - from,
{
    if k >= run_ends[from] {
        let start = lemma_run(run_ends, run_ends[from] as int, k);
        assert(run_ends[from] <= start);
        start
    } else {
        from
    }
}

/// All places of a run lie in it.
proof fn lemma_same_run(run_ends: Seq<usize>, from: int, k: int, j: int)
    requires
        runs_end(run_ends),
        0 <= from <= k < run_ends.len(),
        run_start(run_ends, from, k) <= j < run_ends[run_start(run_ends, from, k)],
    ensures
        run_start(run_ends, from, j) == run_start(run_ends, from, k),
    decreases run_ends.len() - from,
{
    if k >= run_ends[from] {
        lemma_run(run_ends, run_ends[from] as int, k);
        lemma_same_run(run_ends, run_ends[from] as int, k, j);
    }
}

/// The groups that ranks are correlated in: each has at least two rows, in
/// ascending order, and they are all the rows of one era.
pub proof fn law_groups_hold_whole_eras(eras: Seq<u16>, g: int)
    requires
        eras.len() <= usize::MAX,
        0 <= g < era_groups(eras, eras.len()).len(),
    ensures
        ({
            let group = era_groups(eras, eras.len())[g];
            &&& group.len() >= 2
            &&& forall|i: int, j: int| 0 <= i < j < group.len() ==> #[trigger] group[i] < #[trigger] group[j]
            &&& forall|i: int| 0 <= i < group.len() ==> #[trigger] group[i] < eras.len()
            &&& forall|row: usize|
                row < eras.len() ==> (#[trigger] group.contains(row) <==> eras[row as int] == eras[group[0] as int])
        }),
{
    lemma_group_is_an_era(eras, eras.len(), g);
    let group = era_groups(eras, eras.len())[g];
    let era = choose|era: u16| group == #[trigger] rows_of_era(eras, era);
    lemma_ascending_where(eras.len(), in_era(eras, era));
    assert forall|i: int| 0 <= i < group.len() implies #[trigger] group[i] < eras.len() && eras[group[i] as int]
        == era by {
        assert(group.contains(group[i]));
        assert(in_era(eras, era)(group[i] as int));
    }
    assert forall|row: usize| row < eras.len() implies (#[trigger] group.contains(row) <==> eras[row as int]
        == eras[group[0] as int]) by {
        assert(in_era(eras, era)(row as int) == (eras[row as int] == era));
    }
}

/// Every era with at least two rows has its group: two rows of one era are in
/// some group together, and no row is in two groups.
pub proof fn law_every_larger_era_has_one_group(eras: Seq<u16>, a: int, b: int)
    requires
        eras.len() <= usize::MAX,
        0 <= a < b < eras.len(),
        eras[a] == eras[b],
    ensures
        exists|g: int|
            0 <= g < era_groups(eras, eras.len()).len() && (#[trigger] era_groups(eras, eras.len())[g]).contains(
                a as usize,
            ) && era_groups(eras, eras.len())[g].contains(b as usize),
        forall|g: int, h: int|
            0 <= g < h < era_groups(eras, eras.len()).len() ==> !((#[trigger] era_groups(eras, eras.len())[g]).contains(
                a as usize,
            ) && (#[trigger] era_groups(eras, eras.len())[h]).contains(a as usize)),
{
    let era = eras[a];
    let rows = rows_of_era(eras, era);
    lemma_ascending_where(eras.len(), in_era(eras, era));
    assert(in_era(eras, era)(a) && in_era(eras, era)(b));
    assert(rows.contains(a as usize) && rows.contains(b as usize));
    lemma_era_has_a_group(eras, eras.len(), a);
    let groups = era_groups(eras, eras.len());
    assert(groups.contains(rows));
    let g = choose|g: int| 0 <= g < groups.len() && groups[g] == rows;
    assert(groups[g].contains(a as usize) && groups[g].contains(b as usize));
    assert forall|g: int, h: int| 0 <= g < h < groups.len() implies !((#[trigger] groups[g]).contains(a as usize) && (
    #[trigger] groups[h]).contains(a as usize)) by {
        if groups[g].contains(a as usize) && groups[h].contains(a as usize) {
            lemma_group_is_an_era(eras, eras.len(), g);
            lemma_group_is_an_era(eras, eras.len(), h);
            let first = choose|era: u16| groups[g] == #[trigger] rows_of_era(eras, era);
            let second = choose|era: u16| groups[h] == #[trigger] rows_of_era(eras, era);
            lemma_ascending_where(eras.len(), in_era(eras, first));
            lemma_ascending_where(eras.len(), in_era(eras, second));
            assert(in_era(eras, first)(a) && in_era(eras, second)(a));
            assert(first == second);
            lemma_groups_differ(eras, eras.len(), g, h);
        }
    }
}

proof fn lemma_group_is_an_era(eras: Seq<u16>, n: nat, g: int)
    requires
        n <= eras.len(),
        0 <= g < era_groups(eras, n).len(),
    ensures
        exists|era: u16|
            era_groups(eras, n)[g] == #[trigger] rows_of_era(eras, era) && eras.take(n as int).contains(era),
        era_groups(eras, n)[g].len() >= 2,
    decreases n,
{
    if n > 0 {
        let before = era_groups(eras, (n - 1) as nat);
        if g < before.len() {
            lemma_group_is_an_era(eras, (n - 1) as nat, g);
            let era = choose|era: u16|
                before[g] == #[trigger] rows_of_era(eras, era) && eras.take(n - 1).contains(era);
            let earlier = eras.take(n - 1);
            let j = choose|j: int| 0 <= j < earlier.len() && earlier[j] == era;
            assert(eras.take(n as int)[j] == era);
        } else {
            let era = eras[n - 1];
            assert(eras.take(n as int)[n - 1] == era);
            assert(era_groups(eras, n)[g] == rows_of_era(eras, era));
        }
    }
}

proof fn lemma_era_has_a_group(eras: Seq<u16>, n: nat, a: int)
    requires
        0 <= a < n <= eras.len(),
        rows_of_era(eras, eras[a]).len() >= 2,
    ensures
        era_groups(eras, n).contains(rows_of_era(eras, eras[a])),
    decreases n,
{
    let era = eras[a];
    let rows = rows_of_era(eras, era);
    let before = era_groups(eras, (n - 1) as nat);
    if eras.take(n - 1).contains(era) {
        let earlier = eras.take(n - 1);
        let j = choose|j: int| 0 <= j < earlier.len() && earlier[j] == era;
        lemma_era_has_a_group(eras, (n - 1) as nat, j);
        let g = choose|g: int| 0 <= g < before.len() && before[g] == rows;
        assert(era_groups(eras, n)[g] == rows);
    } else {
        if a < n - 1 {
            assert(eras.take(n - 1)[a] == era);
        }
        assert(era_groups(eras, n)[before.len() as int] == rows);
    }
}

proof fn lemma_groups_differ(eras: Seq<u16>, n: nat, g: int, h: int)
    requires
        n <= eras.len() <= usize::MAX,
        0 <= g < h < era_groups(eras, n).len(),
    ensures
        era_groups(eras, n)[g] != era_groups(eras, n)[h],
    decreases n,
{
    if n > 0 {
        let before = era_groups(eras, (n - 1) as nat);
        if h < before.len() {
            lemma_groups_differ(eras, (n - 1) as nat, g, h);
        } else {
            lemma_group_is_an_era(eras, (n - 1) as nat, g);
            let first = choose|era: u16|
                before[g] == #[trigger] rows_of_era(eras, era) && eras.take(n - 1).contains(era);
            let second = eras[n - 1];
            lemma_ascending_where(eras.len(), in_era(eras, first));
            lemma_ascending_where(eras.len(), in_era(eras, second));
            let row = (n - 1) as usize;
            assert(in_era(eras, second)(row as int));
            assert(rows_of_era(eras, second).contains(row));
            assert(in_era(eras, first)(row as int) == (eras[n - 1] == first));
        }
    }
}

/// The metric of a loss: two classes are scored by their log loss, several by
/// theirs, and everything else by squared errors.
pub proof fn law_metric_of_a_loss(name: Seq<char>)
    ensures
        Metric::for_loss(name) == Metric::BinaryLogLoss <==> name == "binary_log_loss"@,
        Metric::for_loss(name) == (Metric::MultiClassLogLoss { n_classes: 2 }) <==> name == "multi_class_log_loss"@,
        name != "binary_log_loss"@ && name != "multi_class_log_loss"@ ==> Metric::for_loss(name) == Metric::Mse,
{
    reveal_strlit("binary_log_loss");
    reveal_strlit("multi_class_log_loss");
    assert("binary_log_loss"@.len() == 15);
    assert("multi_class_log_loss"@.len() == 20);
}

/// What the metrics are called.
pub proof fn law_metric_names(metric: Metric)
    ensures
        metric.text() == match metric {
            Metric::Mse => "mse"@,
            Metric::Rmse => "rmse"@,
            Metric::Mae => "mae"@,
            Metric::BinaryLogLoss => "binary_log_loss"@,
            Metric::MultiClassLogLoss { .. } => "multi_class_log_loss"@,
            Metric::Accuracy { .. } => "accuracy"@,
            Metric::RocAuc => "roc_auc"@,
        },
{
}

} // verus!
