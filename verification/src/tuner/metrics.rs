//! What is counted and ranked when predictions are compared with targets.

use crate::float::F32;
use crate::fractions::{HALF, MINUS_HALF, ONE_AND_A_HALF};
use crate::seqs::ascending_where;
use crate::sorting::{in_order, no_nan, positions, stable_order};
use crate::text::same_text;
use crate::tuner::metrics_laws::law_right_rows_are_counted;
use vstd::prelude::*;

verus! {

/// A metric.
#[derive(Debug, Clone, Copy, PartialEq, Eq, Structural)]
pub enum Metric {
    /// Mean of the squared errors.
    Mse,
    /// Root of the mean of the squared errors.
    Rmse,
    /// Mean of the absolute errors.
    Mae,
    /// Log loss of two classes.
    BinaryLogLoss,
    /// Log loss of several classes.
    MultiClassLogLoss {
        /// Number of classes.
        n_classes: usize,
    },
    /// Share of the rows that are classified right.
    Accuracy {
        /// Probability from which a row counts as positive.
        threshold: F32,
    },
    /// Area under the ROC curve.
    RocAuc,
}

impl Default for Metric {
    fn default() -> (metric: Metric)
        ensures
            metric == Metric::Mse,
    {
        Metric::Mse
    }
}

impl Metric {
    /// The name of the metric.
    pub open spec fn text(self) -> Seq<char> {
        match self {
            Metric::Mse => "mse"@,
            Metric::Rmse => "rmse"@,
            Metric::Mae => "mae"@,
            Metric::BinaryLogLoss => "binary_log_loss"@,
            Metric::MultiClassLogLoss { .. } => "multi_class_log_loss"@,
            Metric::Accuracy { .. } => "accuracy"@,
            Metric::RocAuc => "roc_auc"@,
        }
    }

    /// The metric that suits a loss, by the name of the loss.
    pub open spec fn for_loss(name: Seq<char>) -> Metric {
        if name == "binary_log_loss"@ {
            Metric::BinaryLogLoss
        } else if name == "multi_class_log_loss"@ {
            Metric::MultiClassLogLoss { n_classes: 2 }
        } else {
            Metric::Mse
        }
    }

    /// Whether there are as many predictions as the metric needs.
    pub open spec fn fits(self, predictions: nat, targets: nat) -> bool {
        &&& targets > 0
        &&& predictions == match self {
            Metric::MultiClassLogLoss { n_classes } => targets * n_classes as nat,
            _ => targets,
        }
    }

    /// Mean of the squared errors.
    pub fn mse() -> (metric: Metric)
        ensures
            metric == Metric::Mse,
    {
        Metric::Mse
    }

    /// Root of the mean of the squared errors.
    pub fn rmse() -> (metric: Metric)
        ensures
            metric == Metric::Rmse,
    {
        Metric::Rmse
    }

    /// Mean of the absolute errors.
    pub fn mae() -> (metric: Metric)
        ensures
            metric == Metric::Mae,
    {
        Metric::Mae
    }

    /// Log loss of two classes.
    pub fn binary_log_loss() -> (metric: Metric)
        ensures
            metric == Metric::BinaryLogLoss,
    {
        Metric::BinaryLogLoss
    }

    /// Log loss of several classes.
    pub fn multi_class_log_loss(n_classes: usize) -> (metric: Metric)
        ensures
            metric == (Metric::MultiClassLogLoss { n_classes }),
    {
        Metric::MultiClassLogLoss { n_classes }
    }

    /// Share of the rows that are classified right, positive from one half on.
    pub fn accuracy() -> (metric: Metric)
        ensures
            metric == (Metric::Accuracy { threshold: F32 { bits: HALF } }),
    {
        Metric::Accuracy { threshold: F32 { bits: HALF } }
    }

    /// Share of the rows that are classified right, positive from a threshold on.
    pub fn accuracy_with_threshold(threshold: F32) -> (metric: Metric)
        ensures
            metric == (Metric::Accuracy { threshold }),
    {
        Metric::Accuracy { threshold }
    }

    /// Area under the ROC curve.
    pub fn roc_auc() -> (metric: Metric)
        ensures
            metric == Metric::RocAuc,
    {
        Metric::RocAuc
    }

    /// The metric that suits a loss, by the name of the loss.
    pub fn from_loss_type(name: &str) -> (metric: Metric)
        ensures
            metric == Metric::for_loss(name@),
    {
        if same_text(name, "binary_log_loss") {
            Metric::BinaryLogLoss
        } else if same_text(name, "multi_class_log_loss") {
            Metric::MultiClassLogLoss { n_classes: 2 }
        } else {
            Metric::Mse
        }
    }

    /// Whether a smaller value is better: of all errors and losses.
    pub fn lower_is_better(&self) -> (lower: bool)
        ensures
            lower == !(*self is Accuracy || *self is RocAuc),
    {
        match self {
            Metric::Mse => true,
            Metric::Rmse => true,
            Metric::Mae => true,
            Metric::BinaryLogLoss => true,
            Metric::MultiClassLogLoss { .. } => true,
            Metric::Accuracy { .. } => false,
            Metric::RocAuc => false,
        }
    }

    /// The name of the metric.
    pub fn name(&self) -> (name: &'static str)
        ensures
            name@ == self.text(),
    {
        match self {
            Metric::Mse => "mse",
            Metric::Rmse => "rmse",
            Metric::Mae => "mae",
            Metric::BinaryLogLoss => "binary_log_loss",
            Metric::MultiClassLogLoss { .. } => "multi_class_log_loss",
            Metric::Accuracy { .. } => "accuracy",
            Metric::RocAuc => "roc_auc",
        }
    }

    /// Whether the metric can be computed from so many predictions and targets.
    pub fn accepts(&self, predictions: usize, targets: usize) -> (accepted: bool)
        requires
            *self matches Metric::MultiClassLogLoss { n_classes } ==> targets * n_classes <= usize::MAX,
        ensures
            accepted == self.fits(predictions as nat, targets as nat),
    {
        if targets == 0 {
            return false;
        }
        match self {
            Metric::MultiClassLogLoss { n_classes } => predictions == targets * *n_classes,
            _ => predictions == targets,
        }
    }
}

/// Whether a target stands for the positive class.
pub open spec fn positive(target: F32) -> bool {
    (F32 { bits: HALF }).less(target)
}

/// Whether a row is classified right: its class, 1 or 0, lies less than one half
/// from the target.
pub open spec fn classified_right(probability: F32, target: F32, threshold: F32) -> bool {
    if threshold.at_most(probability) {
        (F32 { bits: HALF }).less(target) && target.less(F32 { bits: ONE_AND_A_HALF })
    } else {
        (F32 { bits: MINUS_HALF }).less(target) && target.less(F32 { bits: HALF })
    }
}

/// How many of the first `n` rows are classified right.
pub open spec fn right_count(probabilities: Seq<F32>, targets: Seq<F32>, threshold: F32, n: nat) -> nat
    decreases n,
{
    if n == 0 {
        0
    } else {
        right_count(probabilities, targets, threshold, (n - 1) as nat) + if classified_right(
            probabilities[n - 1],
            targets[n - 1],
            threshold,
        ) {
            1nat
        } else {
            0nat
        }
    }
}

/// How many rows are classified right.
pub fn count_correct(probabilities: &[F32], targets: &[F32], threshold: F32) -> (count: usize)
    requires
        probabilities@.len() == targets@.len(),
    ensures
        count == right_count(probabilities@, targets@, threshold, targets@.len()),
        count <= targets@.len(),
        (forall|i: int|
            0 <= i < targets@.len() ==> (#[trigger] targets@[i]).bits == 0 || targets@[i].bits == 0x8000_0000
                || targets@[i].bits == 0x3f80_0000) ==> count == Seq::new(targets@.len(), |i: int| i).filter(
            |i: int| threshold.at_most(probabilities@[i]) == (targets@[i].bits == 0x3f80_0000),
        ).len(),
{
    let rows: usize = targets.len();
    let mut count: usize = 0;
    let mut i: usize = 0;
    while i < rows
        invariant
            i <= rows == targets@.len() == probabilities@.len(),
            count <= i,
            count == right_count(probabilities@, targets@, threshold, i as nat),
        decreases rows - i,
    {
        let half = F32 { bits: HALF };
        let target: F32 = targets[i];
        let right: bool = if threshold.le(probabilities[i]) {
            half.lt(target) && target.lt(F32 { bits: ONE_AND_A_HALF })
        } else {
            let minus_half = F32 { bits: MINUS_HALF };
            minus_half.lt(target) && target.lt(half)
        };
        if right {
            count = count + 1;
        }
        i = i + 1;
    }
    proof {
        if forall|i: int|
            0 <= i < targets@.len() ==> (#[trigger] targets@[i]).bits == 0 || targets@[i].bits == 0x8000_0000
                || targets@[i].bits == 0x3f80_0000 {
            law_right_rows_are_counted(probabilities@, targets@, threshold, targets@.len());
        }
    }
    count
}

/// The class of each row, if every target is the number of one of at least two
/// classes and there is a prediction for each class of each row.
pub fn class_indices(predictions: usize, targets: &[F32], n_classes: usize) -> (classes: Option<Vec<usize>>)
    requires
        targets@.len() * n_classes <= usize::MAX,
    ensures
        match classes {
            Some(found) => {
                &&& n_classes >= 2
                &&& predictions == targets@.len() * n_classes
                &&& found@ == targets@.map_values(|target: F32| target.index())
                &&& forall|i: int| 0 <= i < found@.len() ==> #[trigger] found@[i] < n_classes
            },
            None => {
                ||| n_classes < 2
                ||| predictions != targets@.len() * n_classes
                ||| exists|i: int| 0 <= i < targets@.len() && (#[trigger] targets@[i]).index() >= n_classes
            },
        },
{
    let rows: usize = targets.len();
    if n_classes < 2 || predictions != rows * n_classes {
        return None;
    }
    let mut found: Vec<usize> = Vec::new();
    let mut i: usize = 0;
    while i < rows
        invariant
            i <= rows == targets@.len(),
            found@ == targets@.take(i as int).map_values(|target: F32| target.index()),
            forall|j: int| 0 <= j < found@.len() ==> #[trigger] found@[j] < n_classes,
        decreases rows - i,
    {
        let class: usize = targets[i].to_index();
        if class >= n_classes {
            return None;
        }
        found.push(class);
        i = i + 1;
        assert(found@ =~= targets@.take(i as int).map_values(|target: F32| target.index()));
    }
    assert(targets@.take(rows as int) =~= targets@);
    Some(found)
}

/// The positions of some values from the smallest to the largest; equal ones
/// keep their order.
pub fn ascending_order(values: &[F32]) -> (order: Vec<usize>)
    ensures
        positions(order@, 0, values@.len() as int),
        no_nan(values@) ==> in_order(values@, false, order@),
{
    stable_order(values, false)
}

/// The start of the run of ties that holds position `k`, from a start on.
pub open spec fn run_start(run_ends: Seq<usize>, start: int, k: int) -> int
    decreases run_ends.len() - start,
{
    if 0 <= start < run_ends.len() && start < run_ends[start] <= run_ends.len() && k >= run_ends[start] {
        run_start(run_ends, run_ends[start] as int, k)
    } else {
        start
    }
}

/// Whether every run of ties ends behind its start and within the list.
pub open spec fn runs_end(run_ends: Seq<usize>) -> bool {
    forall|i: int| 0 <= i < run_ends.len() ==> i < #[trigger] run_ends[i] <= run_ends.len()
}

/// Twice the rank of position `k`: the ranks of its run, counted from 1, have
/// this over two as their mean.
pub open spec fn doubled_rank(run_ends: Seq<usize>, k: int) -> int {
    let start = run_start(run_ends, 0, k);
    start + run_ends[start] + 1
}

/// Twice the ranks of some values, equal values sharing the mean of their ranks.
/// `order` puts the values in order; `run_ends` says for each place in the order
/// where the values that count as equal to the one there end.
pub fn average_ranks(order: &[usize], run_ends: &[usize]) -> (ranks: Vec<usize>)
    requires
        positions(order@, 0, order@.len() as int),
        run_ends@.len() == order@.len(),
        runs_end(run_ends@),
        2 * order@.len() < usize::MAX,
    ensures
        ranks@.len() == order@.len(),
        forall|k: int| 0 <= k < order@.len() ==> ranks@[#[trigger] order@[k] as int] == doubled_rank(run_ends@, k),
{
    let count: usize = order.len();
    let mut ranks: Vec<usize> = Vec::new();
    let mut f: usize = 0;
    while f < count
        invariant
            f <= count,
            ranks@.len() == f,
        decreases count - f,
    {
        ranks.push(0);
        f = f + 1;
    }
    let mut start: usize = 0;
    while start < count
        invariant
            start <= count == order@.len() == run_ends@.len(),
            ranks@.len() == count,
            positions(order@, 0, order@.len() as int),
            runs_end(run_ends@),
            2 * count < usize::MAX,
            forall|k: int| 0 <= k < start ==> ranks@[#[trigger] order@[k] as int] == doubled_rank(run_ends@, k),
            forall|k: int| start <= k ==> #[trigger] run_start(run_ends@, 0, k) == run_start(run_ends@, start as int, k),
        decreases count - start,
    {
        let end: usize = run_ends[start];
        let rank: usize = start + end + 1;
        let mut k: usize = start;
        while k < end
            invariant
                start <= k <= end <= count == order@.len() == run_ends@.len(),
                start < count,
                end == run_ends@[start as int],
                rank == start + end + 1,
                ranks@.len() == count,
                positions(order@, 0, order@.len() as int),
                forall|j: int| start <= j ==> #[trigger] run_start(run_ends@, 0, j) == run_start(run_ends@, start as int, j),
                forall|j: int| 0 <= j < k ==> ranks@[#[trigger] order@[j] as int] == doubled_rank(run_ends@, j),
            decreases end - k,
        {
            proof {
                assert(run_start(run_ends@, 0, k as int) == start);
                assert forall|j: int| 0 <= j < k implies order@[j] != order@[k as int] by {}
            }
            ranks.set(order[k], rank);
            k = k + 1;
        }
        proof {
            assert forall|j: int| end <= j implies #[trigger] run_start(run_ends@, 0, j) == run_start(run_ends@, end as int, j) by {
                assert(run_start(run_ends@, 0, j) == run_start(run_ends@, start as int, j));
            }
        }
        start = end;
    }
    ranks
}

/// The sum of the doubled ranks of the first `n` places.
pub open spec fn rank_sum(run_ends: Seq<usize>, n: nat) -> int
    decreases n,
{
    if n == 0 {
        0
    } else {
        rank_sum(run_ends, (n - 1) as nat) + doubled_rank(run_ends, n - 1)
    }
}

/// Ties do not change the sum of the ranks: doubled, it is `n` times `n + 1`.
pub proof fn law_ranks_keep_their_sum(run_ends: Seq<usize>)
    requires
        runs_end(run_ends),
    ensures
        rank_sum(run_ends, run_ends.len()) == run_ends.len() * (run_ends.len() + 1),
{
    lemma_rank_sum(run_ends, 0);
}

/// From the start of a run on.
proof fn lemma_rank_sum(run_ends: Seq<usize>, start: int)
    requires
        runs_end(run_ends),
        0 <= start <= run_ends.len(),
        rank_sum(run_ends, start as nat) == start * (start + 1),
        forall|k: int| start <= k ==> #[trigger] run_start(run_ends, 0, k) == run_start(run_ends, start, k),
    ensures
        rank_sum(run_ends, run_ends.len()) == run_ends.len() * (run_ends.len() + 1),
    decreases run_ends.len() - start,
{
    if start < run_ends.len() {
        let end = run_ends[start] as int;
        lemma_run_sum(run_ends, start, end);
        assert(start * (start + 1) + (end - start) * (start + end + 1) == end * (end + 1)) by (nonlinear_arith);
        assert forall|k: int| end <= k implies #[trigger] run_start(run_ends, 0, k) == run_start(run_ends, end, k) by {
            assert(run_start(run_ends, 0, k) == run_start(run_ends, start, k));
        }
        lemma_rank_sum(run_ends, end);
    }
}

/// Over part of a run.
proof fn lemma_run_sum(run_ends: Seq<usize>, start: int, k: int)
    requires
        runs_end(run_ends),
        0 <= start < run_ends.len(),
        start <= k <= run_ends[start],
        forall|j: int| start <= j ==> #[trigger] run_start(run_ends, 0, j) == run_start(run_ends, start, j),
    ensures
        rank_sum(run_ends, k as nat) == rank_sum(run_ends, start as nat) + (k - start) * (start + run_ends[start] + 1),
    decreases k - start,
{
    if k > start {
        lemma_run_sum(run_ends, start, k - 1);
        assert(run_start(run_ends, 0, k - 1) == start);
        let rank = start + run_ends[start] + 1;
        assert((k - 1 - start) * rank + rank == (k - start) * rank) by (nonlinear_arith);
    } else {
        assert((k - start) * (start + run_ends[start] + 1) == 0) by (nonlinear_arith)
            requires
                k == start,
        ;
    }
}

/// The rows whose ranks are correlated.
#[derive(Debug)]
pub enum RankGroups {
    /// There is nothing to correlate.
    NoRows,
    /// All rows together.
    AllRows,
    /// The rows of each era with at least two; the correlations are averaged.
    PerEra {
        /// The rows of each era.
        groups: Vec<Vec<usize>>,
    },
}

/// Whether a row belongs to an era.
pub open spec fn in_era(eras: Seq<u16>, era: u16) -> spec_fn(int) -> bool {
    |i: int| eras[i] == era
}

/// The rows of an era.
pub open spec fn rows_of_era(eras: Seq<u16>, era: u16) -> Seq<usize> {
    ascending_where(eras.len(), in_era(eras, era))
}

/// The rows of each era that occurs among the first `n` rows and has at least
/// two, in the order in which the eras come up.
pub open spec fn era_groups(eras: Seq<u16>, n: nat) -> Seq<Seq<usize>>
    decreases n,
{
    if n == 0 {
        Seq::empty()
    } else {
        let before = era_groups(eras, (n - 1) as nat);
        let era = eras[n - 1];
        if !eras.take(n - 1).contains(era) && rows_of_era(eras, era).len() >= 2 {
            before.push(rows_of_era(eras, era))
        } else {
            before
        }
    }
}

/// The rows of an era.
fn collect_era(eras: &[u16], era: u16) -> (rows: Vec<usize>)
    ensures
        rows@ == rows_of_era(eras@, era),
{
    let ghost of_era = in_era(eras@, era);
    let count: usize = eras.len();
    let mut rows: Vec<usize> = Vec::new();
    let mut i: usize = 0;
    while i < count
        invariant
            i <= count == eras@.len(),
            of_era == in_era(eras@, era),
            rows@ == ascending_where(i as nat, of_era),
        decreases count - i,
    {
        assert(of_era(i as int) == (eras@[i as int] == era));
        if eras[i] == era {
            rows.push(i);
        }
        i = i + 1;
    }
    rows
}

/// Which rows are correlated with each other, given how many predictions and
/// targets there are and, where rows belong to eras, the era of each row.
pub fn rank_groups(predictions: usize, targets: usize, eras: Option<&[u16]>) -> (found: RankGroups)
    ensures
        match found {
            RankGroups::NoRows => {
                ||| predictions != targets
                ||| predictions < 2
                ||| eras matches Some(list) && list@.len() != predictions
            },
            RankGroups::AllRows => 2 <= predictions == targets && eras is None,
            RankGroups::PerEra { groups } => {
                &&& 2 <= predictions == targets
                &&& eras matches Some(list) && list@.len() == predictions && groups@.map_values(
                    |rows: Vec<usize>| rows@,
                ) == era_groups(list@, list@.len())
            },
        },
{
    if predictions != targets || predictions < 2 {
        return RankGroups::NoRows;
    }
    match eras {
        None => RankGroups::AllRows,
        Some(list) => {
            let count: usize = list.len();
            if count != predictions {
                return RankGroups::NoRows;
            }
            let mut seen: Vec<bool> = Vec::new();
            let mut fill: usize = 0;
            while fill < 65536
                invariant
                    fill <= 65536,
                    seen@.len() == fill,
                    forall|e: int| 0 <= e < fill ==> !(#[trigger] seen@[e]),
                decreases 65536 - fill,
            {
                seen.push(false);
                fill = fill + 1;
            }
            let mut groups: Vec<Vec<usize>> = Vec::new();
            let mut i: usize = 0;
            assert(groups@.map_values(|rows: Vec<usize>| rows@) =~= era_groups(list@, 0));
            assert(forall|e: int| 0 <= e < 65536 ==> (#[trigger] seen@[e]) == list@.take(0).contains(e as u16));
            while i < count
                invariant
                    i <= count == list@.len(),
                    seen@.len() == 65536,
                    forall|e: int|
                        0 <= e < 65536 ==> (#[trigger] seen@[e]) == list@.take(i as int).contains(e as u16),
                    groups@.map_values(|rows: Vec<usize>| rows@) == era_groups(list@, i as nat),
                decreases count - i,
            {
                let era: u16 = list[i];
                let ghost before = groups@.map_values(|rows: Vec<usize>| rows@);
                assert(seen@[era as int] == list@.take(i as int).contains(era));
                if !seen[era as usize] {
                    seen.set(era as usize, true);
                    let rows = collect_era(list, era);
                    if rows.len() >= 2 {
                        let ghost added = rows@;
                        groups.push(rows);
                        assert(groups@.map_values(|rows: Vec<usize>| rows@) =~= before.push(added));
                    }
                }
                proof {
                    let longer = list@.take(i + 1);
                    assert(longer =~= list@.take(i as int).push(era));
                    assert forall|e: int| 0 <= e < 65536 implies (#[trigger] seen@[e]) == longer.contains(e as u16) by {
                        if list@.take(i as int).contains(e as u16) {
                            let j = choose|j: int| 0 <= j < i && list@.take(i as int)[j] == e as u16;
                            assert(longer[j] == e as u16);
                        }
                        if e == era {
                            assert(longer[i as int] == e as u16);
                        }
                        if longer.contains(e as u16) && e != era {
                            let j = choose|j: int| 0 <= j < longer.len() && longer[j] == e as u16;
                            assert(list@.take(i as int)[j] == e as u16);
                        }
                    }
                }
                i = i + 1;
            }
            RankGroups::PerEra { groups }
        },
    }
}

} // verus!
