//! Trials and how they compare.

use crate::float::{F32, F64, F32_MAX, F32_ZERO, F64_ZERO};
use crate::seqs::ascending_where;
use crate::sorting::{in_order, no_nan, positions, stable_order};
use crate::tuner::config::OptimizationMetric;
use crate::tuner::values::ParamMap;
use vstd::prelude::*;

verus! {

/// Failed moves to another zone before a search gives up.
pub const MAX_ZONE_SWITCH_FAILS: usize = 3;

/// Probability from which a row counts as positive: 0.5.
pub const BINARY_CLASSIFICATION_THRESHOLD: u32 = 0x3f00_0000;

/// What came out of a candidate.
#[derive(Debug)]
pub struct TrialResult {
    /// Number of the trial.
    pub trial_id: usize,
    /// Iteration in which it ran.
    pub iteration: usize,
    /// The values of the parameters.
    pub params: ParamMap<F32>,
    /// Loss on the validation rows.
    pub val_loss: F32,
    /// Loss on the training rows.
    pub train_loss: F32,
    /// Number of trees.
    pub num_trees: usize,
    /// Training time in milliseconds.
    pub train_time_ms: u64,
    /// F1 score of a classification.
    pub f1_score: Option<F32>,
    /// Area under the ROC curve of a binary classification.
    pub roc_auc: Option<F64>,
    /// Rank correlation of a regression.
    pub rank_ic: Option<F64>,
}

/// The metrics of a model.
#[derive(Debug, Clone, Copy, PartialEq, Eq, Structural)]
pub struct EvalMetrics {
    /// Loss on the validation rows.
    pub val_metric: F32,
    /// Loss on the training rows.
    pub train_metric: F32,
    /// Number of trees.
    pub num_trees: usize,
    /// F1 score of a classification.
    pub f1_score: Option<F32>,
    /// Area under the ROC curve of a binary classification.
    pub roc_auc: Option<F64>,
    /// Rank correlation of a regression.
    pub rank_ic: Option<F64>,
}

/// The means of the metrics of some folds, each over the folds that have it.
#[derive(Debug, Clone, Copy, PartialEq, Eq, Structural)]
pub struct FoldMeans {
    /// Mean loss on the validation rows.
    pub val_metric: F32,
    /// Mean loss on the training rows.
    pub train_metric: F32,
    /// Mean F1 score.
    pub f1_score: F32,
    /// Mean area under the ROC curve.
    pub roc_auc: F64,
    /// Mean rank correlation.
    pub rank_ic: F64,
}

/// The number of trees of all folds.
pub open spec fn tree_sum(results: Seq<EvalMetrics>) -> nat
    decreases results.len(),
{
    if results.len() == 0 {
        0
    } else {
        tree_sum(results.drop_last()) + results.last().num_trees as nat
    }
}

proof fn lemma_tree_sum_grows(results: Seq<EvalMetrics>, n: int)
    requires
        0 <= n <= results.len(),
    ensures
        tree_sum(results.take(n)) <= tree_sum(results),
    decreases results.len() - n,
{
    if n < results.len() {
        lemma_tree_sum_grows(results, n + 1);
        assert(results.take(n + 1).drop_last() =~= results.take(n));
    } else {
        assert(results.take(n) =~= results);
    }
}

/// Whether some fold has a metric.
pub open spec fn any_fold(results: Seq<EvalMetrics>, has: spec_fn(EvalMetrics) -> bool) -> bool {
    exists|i: int| 0 <= i < results.len() && has(#[trigger] results[i])
}

/// The metrics of some folds taken together.
pub open spec fn aggregated(results: Seq<EvalMetrics>, means: FoldMeans) -> EvalMetrics {
    if results.len() == 0 {
        EvalMetrics {
            val_metric: F32 { bits: F32_MAX },
            train_metric: F32 { bits: F32_MAX },
            num_trees: 0,
            f1_score: None,
            roc_auc: None,
            rank_ic: None,
        }
    } else {
        EvalMetrics {
            val_metric: means.val_metric,
            train_metric: means.train_metric,
            num_trees: (tree_sum(results) / results.len()) as usize,
            f1_score: if any_fold(results, |fold: EvalMetrics| fold.f1_score is Some) {
                Some(means.f1_score)
            } else {
                None
            },
            roc_auc: if any_fold(results, |fold: EvalMetrics| fold.roc_auc is Some) {
                Some(means.roc_auc)
            } else {
                None
            },
            rank_ic: if any_fold(results, |fold: EvalMetrics| fold.rank_ic is Some) {
                Some(means.rank_ic)
            } else {
                None
            },
        }
    }
}

/// Takes the metrics of some folds together: the mean of each metric over the
/// folds that have it, and the mean number of trees, rounded down. Without any
/// fold the losses are as bad as they can be.
pub fn aggregate_fold_results(results: &[EvalMetrics], means: FoldMeans) -> (metrics: EvalMetrics)
    requires
        tree_sum(results@) <= usize::MAX,
    ensures
        metrics == aggregated(results@, means),
{
    let count: usize = results.len();
    if count == 0 {
        return EvalMetrics {
            val_metric: F32 { bits: F32_MAX },
            train_metric: F32 { bits: F32_MAX },
            num_trees: 0,
            f1_score: None,
            roc_auc: None,
            rank_ic: None,
        };
    }
    let ghost has_f1 = |fold: EvalMetrics| fold.f1_score is Some;
    let ghost has_auc = |fold: EvalMetrics| fold.roc_auc is Some;
    let ghost has_ic = |fold: EvalMetrics| fold.rank_ic is Some;
    let mut trees: usize = 0;
    let mut f1: bool = false;
    let mut auc: bool = false;
    let mut ic: bool = false;
    let mut i: usize = 0;
    while i < count
        invariant
            i <= count == results@.len(),
            tree_sum(results@) <= usize::MAX,
            trees == tree_sum(results@.take(i as int)),
            has_f1 == (|fold: EvalMetrics| fold.f1_score is Some),
            has_auc == (|fold: EvalMetrics| fold.roc_auc is Some),
            has_ic == (|fold: EvalMetrics| fold.rank_ic is Some),
            f1 == exists|j: int| 0 <= j < i && has_f1(#[trigger] results@[j]),
            auc == exists|j: int| 0 <= j < i && has_auc(#[trigger] results@[j]),
            ic == exists|j: int| 0 <= j < i && has_ic(#[trigger] results@[j]),
        decreases count - i,
    {
        proof {
            lemma_tree_sum_grows(results@, i + 1);
            assert(results@.take(i + 1).drop_last() =~= results@.take(i as int));
            assert(has_f1(results@[i as int]) == (results@[i as int].f1_score is Some));
            assert(has_auc(results@[i as int]) == (results@[i as int].roc_auc is Some));
            assert(has_ic(results@[i as int]) == (results@[i as int].rank_ic is Some));
        }
        let fold: EvalMetrics = results[i];
        trees = trees + fold.num_trees;
        f1 = f1 || fold.f1_score.is_some();
        auc = auc || fold.roc_auc.is_some();
        ic = ic || fold.rank_ic.is_some();
        i = i + 1;
    }
    assert(results@.take(count as int) =~= results@);
    EvalMetrics {
        val_metric: means.val_metric,
        train_metric: means.train_metric,
        num_trees: trees / count,
        f1_score: if f1 {
            Some(means.f1_score)
        } else {
            None
        },
        roc_auc: if auc {
            Some(means.roc_auc)
        } else {
            None
        },
        rank_ic: if ic {
            Some(means.rank_ic)
        } else {
            None
        },
    }
}

/// The values of a trial: those that were tuned, and the learning rate of the
/// settings it started from where that was not.
pub open spec fn full_params(params: Map<Seq<char>, F32>, base_rate: F32) -> Map<Seq<char>, F32> {
    if params.dom().contains("learning_rate"@) {
        params
    } else {
        params.insert("learning_rate"@, base_rate)
    }
}

/// Records a trial.
pub fn finish_trial(trial_id: usize, iteration: usize, params: ParamMap<F32>, metrics: EvalMetrics, train_time_ms: u64, base_rate: F32) -> (trial: TrialResult)
    requires
        params.wf(),
    ensures
        trial.trial_id == trial_id,
        trial.iteration == iteration,
        trial.params.wf(),
        trial.params@ == full_params(params@, base_rate),
        trial.val_loss == metrics.val_metric,
        trial.train_loss == metrics.train_metric,
        trial.num_trees == metrics.num_trees,
        trial.train_time_ms == train_time_ms,
        trial.f1_score == metrics.f1_score,
        trial.roc_auc == metrics.roc_auc,
        trial.rank_ic == metrics.rank_ic,
{
    let mut full = params;
    if !full.contains_key("learning_rate") {
        full.insert("learning_rate".to_owned(), base_rate);
    }
    TrialResult {
        trial_id,
        iteration,
        params: full,
        val_loss: metrics.val_metric,
        train_loss: metrics.train_metric,
        num_trees: metrics.num_trees,
        train_time_ms,
        f1_score: metrics.f1_score,
        roc_auc: metrics.roc_auc,
        rank_ic: metrics.rank_ic,
    }
}

/// The value by which trials compare, in the precision that the metric has.
#[derive(Debug, Clone, Copy, PartialEq, Eq, Structural)]
pub enum MetricValue {
    /// Single precision.
    Single(F32),
    /// Double precision.
    Double(F64),
}

/// The value of a metric; 0 where a trial does not have it.
pub open spec fn value_of(trial: TrialResult, metric: OptimizationMetric) -> MetricValue {
    match metric {
        OptimizationMetric::ValidationLoss => MetricValue::Single(trial.val_loss),
        OptimizationMetric::F1Score => MetricValue::Single(
            match trial.f1_score {
                Some(value) => value,
                None => F32 { bits: F32_ZERO },
            },
        ),
        OptimizationMetric::RocAuc => MetricValue::Double(
            match trial.roc_auc {
                Some(value) => value,
                None => F64 { bits: F64_ZERO },
            },
        ),
        OptimizationMetric::RankIc => MetricValue::Double(
            match trial.rank_ic {
                Some(value) => value,
                None => F64 { bits: F64_ZERO },
            },
        ),
    }
}

/// The value of a metric.
pub fn get_metric_value(trial: &TrialResult, metric: OptimizationMetric) -> (value: MetricValue)
    ensures
        value == value_of(*trial, metric),
{
    match metric {
        OptimizationMetric::ValidationLoss => MetricValue::Single(trial.val_loss),
        OptimizationMetric::F1Score => match trial.f1_score {
            Some(value) => MetricValue::Single(value),
            None => MetricValue::Single(F32 { bits: F32_ZERO }),
        },
        OptimizationMetric::RocAuc => match trial.roc_auc {
            Some(value) => MetricValue::Double(value),
            None => MetricValue::Double(F64 { bits: F64_ZERO }),
        },
        OptimizationMetric::RankIc => match trial.rank_ic {
            Some(value) => MetricValue::Double(value),
            None => MetricValue::Double(F64 { bits: F64_ZERO }),
        },
    }
}

/// Whether a value of a metric is better than another of the same metric.
pub open spec fn beats(metric: OptimizationMetric, a: MetricValue, b: MetricValue) -> bool {
    match (a, b) {
        (MetricValue::Single(x), MetricValue::Single(y)) => if metric == OptimizationMetric::ValidationLoss {
            x.less(y)
        } else {
            y.less(x)
        },
        (MetricValue::Double(x), MetricValue::Double(y)) => y.less(x),
        _ => false,
    }
}

/// Whether a trial is better than another.
fn is_better(metric: OptimizationMetric, a: &TrialResult, b: &TrialResult) -> (better: bool)
    ensures
        better == beats(metric, value_of(*a, metric), value_of(*b, metric)),
{
    match (get_metric_value(a, metric), get_metric_value(b, metric)) {
        (MetricValue::Single(x), MetricValue::Single(y)) => match metric {
            OptimizationMetric::ValidationLoss => x.lt(y),
            _ => y.lt(x),
        },
        (MetricValue::Double(x), MetricValue::Double(y)) => y.lt(x),
        _ => false,
    }
}

/// The position of the best of the first `n` trials; the first one where several
/// are as good.
pub open spec fn best_of(trials: Seq<TrialResult>, metric: OptimizationMetric, n: nat) -> int
    decreases n,
{
    if n <= 1 {
        0
    } else {
        let best = best_of(trials, metric, (n - 1) as nat);
        if beats(metric, value_of(trials[n - 1], metric), value_of(trials[best], metric)) {
            n - 1
        } else {
            best
        }
    }
}

/// All trials of a search.
#[derive(Debug)]
pub struct SearchHistory {
    trials: Vec<TrialResult>,
    metric: OptimizationMetric,
    best: usize,
}

impl SearchHistory {
    /// The trials in the order in which they came in.
    pub closed spec fn all(self) -> Seq<TrialResult> {
        self.trials@
    }

    /// What decides which trial is best.
    pub closed spec fn decider(self) -> OptimizationMetric {
        self.metric
    }

    /// Whether the best trial is kept track of.
    pub closed spec fn wf(self) -> bool {
        self.best == best_of(self.trials@, self.metric, self.trials@.len()) && (self.trials@.len() > 0 ==> self.best
            < self.trials@.len())
    }

    /// No trials yet, to be compared by their validation loss.
    pub fn new() -> (history: SearchHistory)
        ensures
            history.wf(),
            history.all() == Seq::<TrialResult>::empty(),
            history.decider() == OptimizationMetric::ValidationLoss,
    {
        SearchHistory::with_metric(OptimizationMetric::ValidationLoss)
    }

    /// No trials yet, to be compared by a metric.
    pub fn with_metric(metric: OptimizationMetric) -> (history: SearchHistory)
        ensures
            history.wf(),
            history.all() == Seq::<TrialResult>::empty(),
            history.decider() == metric,
    {
        SearchHistory { trials: Vec::new(), metric, best: 0 }
    }

    /// Adds a trial.
    pub fn add(&mut self, trial: TrialResult)
        requires
            old(self).wf(),
        ensures
            final(self).wf(),
            final(self).all() == old(self).all().push(trial),
            final(self).decider() == old(self).decider(),
    {
        let count: usize = self.trials.len();
        let better: bool = count > 0 && is_better(self.metric, &trial, &self.trials[self.best]);
        let ghost before = self.trials@;
        self.trials.push(trial);
        proof {
            lemma_best_of_prefix(before, self.trials@, self.metric, before.len());
        }
        if better {
            self.best = count;
        }
    }

    /// The best trial: the first one that no other beats.
    pub fn best(&self) -> (best: Option<&TrialResult>)
        requires
            self.wf(),
        ensures
            match best {
                Some(trial) => self.all().len() > 0 && *trial == self.all()[best_of(
                    self.all(),
                    self.decider(),
                    self.all().len(),
                )],
                None => self.all().len() == 0,
            },
            best matches Some(trial) ==> match self.decider() {
                OptimizationMetric::ValidationLoss => (forall|i: int|
                    0 <= i < self.all().len() ==> !(#[trigger] self.all()[i]).val_loss.nan()) ==> forall|i: int|
                    0 <= i < self.all().len() ==> trial.val_loss.at_most((#[trigger] self.all()[i]).val_loss),
                OptimizationMetric::F1Score => (forall|i: int|
                    0 <= i < self.all().len() ==> (#[trigger] self.all()[i]).f1_score is Some
                        && !self.all()[i].f1_score->0.nan()) ==> forall|i: int|
                    0 <= i < self.all().len() ==> (#[trigger] self.all()[i]).f1_score->0.at_most(trial.f1_score->0),
                OptimizationMetric::RocAuc => (forall|i: int|
                    0 <= i < self.all().len() ==> (#[trigger] self.all()[i]).roc_auc is Some
                        && !self.all()[i].roc_auc->0.nan()) ==> forall|i: int|
                    0 <= i < self.all().len() ==> (#[trigger] self.all()[i]).roc_auc->0.at_most(trial.roc_auc->0),
                OptimizationMetric::RankIc => (forall|i: int|
                    0 <= i < self.all().len() ==> (#[trigger] self.all()[i]).rank_ic is Some
                        && !self.all()[i].rank_ic->0.nan()) ==> forall|i: int|
                    0 <= i < self.all().len() ==> (#[trigger] self.all()[i]).rank_ic->0.at_most(trial.rank_ic->0),
            },
    {
        if self.trials.len() == 0 {
            None
        } else {
            proof {
                let trials = self.trials@;
                let metric = self.metric;
                if forall|j: int| 0 <= j < trials.len() ==> comparable(#[trigger] trials[j], metric) {
                    lemma_best(trials, metric, trials.len());
                    assert(comparable(trials[self.best as int], metric));
                    assert forall|i: int| 0 <= i < trials.len() implies !beats(
                        metric,
                        value_of(#[trigger] trials[i], metric),
                        value_of(trials[self.best as int], metric),
                    ) && comparable(trials[i], metric) by {}
                }
            }
            Some(&self.trials[self.best])
        }
    }

    /// The trials.
    pub fn trials(&self) -> (trials: &[TrialResult])
        ensures
            trials@ == self.all(),
    {
        self.trials.as_slice()
    }

    /// The positions of the trials of an iteration.
    pub fn trials_for_iteration(&self, iteration: usize) -> (found: Vec<usize>)
        ensures
            found@ == ascending_where(self.all().len(), |i: int| self.all()[i].iteration == iteration),
    {
        let ghost of_iteration = |i: int| self.all()[i].iteration == iteration;
        let count: usize = self.trials.len();
        let mut found: Vec<usize> = Vec::new();
        let mut i: usize = 0;
        while i < count
            invariant
                i <= count == self.trials@.len(),
                of_iteration == (|i: int| self.all()[i].iteration == iteration),
                found@ == ascending_where(i as nat, of_iteration),
            decreases count - i,
        {
            assert(of_iteration(i as int) == (self.trials@[i as int].iteration == iteration));
            if self.trials[i].iteration == iteration {
                found.push(i);
            }
            i = i + 1;
        }
        found
    }

    /// How many trials there are.
    pub fn len(&self) -> (count: usize)
        ensures
            count == self.all().len(),
    {
        self.trials.len()
    }

    /// Whether there is no trial.
    pub fn is_empty(&self) -> (empty: bool)
        ensures
            empty == (self.all().len() == 0),
    {
        self.trials.len() == 0
    }

    /// What decides which trial is best.
    pub fn optimization_metric(&self) -> (metric: OptimizationMetric)
        ensures
            metric == self.decider(),
    {
        self.metric
    }

    /// The positions of the `n` best trials, best first; equal ones in the order
    /// in which they came in. `values` holds the metric of each trial in single
    /// precision.
    pub fn top_n(&self, values: &[F32], n: usize) -> (top: Vec<usize>)
        requires
            values@.len() == self.all().len(),
        ensures
            exists|order: Seq<usize>|
                {
                    &&& #[trigger] positions(order, 0, values@.len() as int)
                    &&& no_nan(values@) ==> in_order(
                        values@,
                        self.decider() != OptimizationMetric::ValidationLoss,
                        order,
                    )
                    &&& top@ == order.take(
                        if n < order.len() {
                            n as int
                        } else {
                            order.len() as int
                        },
                    )
                },
    {
        let mut top: Vec<usize> = stable_order(values, self.metric.higher_is_better());
        let ghost order = top@;
        if n < top.len() {
            top.truncate(n);
        }
        assert(positions(order, 0, values@.len() as int));
        assert(top@ =~= order.take(
            if n < order.len() {
                n as int
            } else {
                order.len() as int
            },
        ));
        top
    }
}

/// The best of some trials does not depend on what comes after them.
proof fn lemma_best_of_prefix(short: Seq<TrialResult>, long: Seq<TrialResult>, metric: OptimizationMetric, n: nat)
    requires
        n <= short.len() <= long.len(),
        forall|i: int| 0 <= i < short.len() ==> short[i] == #[trigger] long[i],
    ensures
        best_of(short, metric, n) == best_of(long, metric, n),
        n > 0 ==> 0 <= best_of(short, metric, n) < n,
    decreases n,
{
    if n > 1 {
        lemma_best_of_prefix(short, long, metric, (n - 1) as nat);
        assert(short[n - 1] == long[n - 1]);
        let best = best_of(short, metric, (n - 1) as nat);
        assert(short[best] == long[best]);
    }
}

/// Whether the value of a trial is a number.
pub open spec fn comparable(trial: TrialResult, metric: OptimizationMetric) -> bool {
    match value_of(trial, metric) {
        MetricValue::Single(x) => !x.nan(),
        MetricValue::Double(x) => !x.nan(),
    }
}

/// No trial beats the best one, and it beats all that came before it, if every
/// trial has a number to compare by.
pub proof fn law_nothing_beats_the_best(trials: Seq<TrialResult>, metric: OptimizationMetric, i: int)
    requires
        forall|j: int| 0 <= j < trials.len() ==> comparable(#[trigger] trials[j], metric),
        0 <= i < trials.len(),
    ensures
        0 <= best_of(trials, metric, trials.len()) < trials.len(),
        !beats(metric, value_of(trials[i], metric), value_of(trials[best_of(trials, metric, trials.len())], metric)),
        i < best_of(trials, metric, trials.len()) ==> beats(
            metric,
            value_of(trials[best_of(trials, metric, trials.len())], metric),
            value_of(trials[i], metric),
        ),
{
    lemma_best(trials, metric, trials.len());
}

proof fn lemma_best(trials: Seq<TrialResult>, metric: OptimizationMetric, n: nat)
    requires
        forall|j: int| 0 <= j < trials.len() ==> comparable(#[trigger] trials[j], metric),
        0 < n <= trials.len(),
    ensures
        0 <= best_of(trials, metric, n) < n,
        forall|i: int|
            0 <= i < n ==> !beats(
                metric,
                value_of(#[trigger] trials[i], metric),
                value_of(trials[best_of(trials, metric, n)], metric),
            ),
        forall|i: int|
            0 <= i < best_of(trials, metric, n) ==> beats(
                metric,
                value_of(trials[best_of(trials, metric, n)], metric),
                value_of(#[trigger] trials[i], metric),
            ),
    decreases n,
{
    if n > 1 {
        lemma_best(trials, metric, (n - 1) as nat);
        let before = best_of(trials, metric, (n - 1) as nat);
        assert(comparable(trials[n - 1], metric));
        assert(comparable(trials[before], metric));
        assert forall|i: int| 0 <= i < n implies !beats(
            metric,
            value_of(#[trigger] trials[i], metric),
            value_of(trials[best_of(trials, metric, n)], metric),
        ) by {
            assert(comparable(trials[i], metric));
            if i < n - 1 {
                assert(!beats(metric, value_of(trials[i], metric), value_of(trials[before], metric)));
            }
        }
        assert forall|i: int| 0 <= i < best_of(trials, metric, n) implies beats(
            metric,
            value_of(trials[best_of(trials, metric, n)], metric),
            value_of(#[trigger] trials[i], metric),
        ) by {
            assert(comparable(trials[i], metric));
            if i < before {
                assert(beats(metric, value_of(trials[before], metric), value_of(trials[i], metric)));
            } else if i < n - 1 {
                assert(!beats(metric, value_of(trials[i], metric), value_of(trials[before], metric)));
            }
        }
    }
}

/// What the best trial is: by the validation loss, no trial has a smaller loss,
/// and by any other metric none has a larger value of it, a missing value
/// counting as 0. Of several that are as good it is the first.
pub proof fn law_best_trial_has_the_best_value(trials: Seq<TrialResult>, metric: OptimizationMetric, i: int)
    requires
        0 <= i < trials.len(),
        forall|j: int|
            0 <= j < trials.len() ==> match metric {
                OptimizationMetric::ValidationLoss => !(#[trigger] trials[j]).val_loss.nan(),
                OptimizationMetric::F1Score => trials[j].f1_score is Some ==> !trials[j].f1_score->0.nan(),
                OptimizationMetric::RocAuc => trials[j].roc_auc is Some ==> !trials[j].roc_auc->0.nan(),
                OptimizationMetric::RankIc => trials[j].rank_ic is Some ==> !trials[j].rank_ic->0.nan(),
            },
    ensures
        0 <= best_of(trials, metric, trials.len()) < trials.len(),
        ({
            let k = best_of(trials, metric, trials.len());
            let best = trials[k];
            let trial = trials[i];
            let zero = F32 { bits: 0 };
            let double_zero = F64 { bits: 0 };
            match metric {
                OptimizationMetric::ValidationLoss => {
                    &&& best.val_loss.rank() <= trial.val_loss.rank()
                    &&& i < k ==> best.val_loss.rank() < trial.val_loss.rank()
                },
                OptimizationMetric::F1Score => {
                    let most = if best.f1_score is Some { best.f1_score->0 } else { zero };
                    let other = if trial.f1_score is Some { trial.f1_score->0 } else { zero };
                    &&& other.rank() <= most.rank()
                    &&& i < k ==> other.rank() < most.rank()
                },
                OptimizationMetric::RocAuc => {
                    let most = if best.roc_auc is Some { best.roc_auc->0 } else { double_zero };
                    let other = if trial.roc_auc is Some { trial.roc_auc->0 } else { double_zero };
                    &&& other.rank() <= most.rank()
                    &&& i < k ==> other.rank() < most.rank()
                },
                OptimizationMetric::RankIc => {
                    let most = if best.rank_ic is Some { best.rank_ic->0 } else { double_zero };
                    let other = if trial.rank_ic is Some { trial.rank_ic->0 } else { double_zero };
                    &&& other.rank() <= most.rank()
                    &&& i < k ==> other.rank() < most.rank()
                },
            }
        }),
{
    assert forall|j: int| 0 <= j < trials.len() implies comparable(#[trigger] trials[j], metric) by {}
    lemma_best(trials, metric, trials.len());
    let k = best_of(trials, metric, trials.len());
    assert(comparable(trials[k], metric));
    assert(comparable(trials[i], metric));
    assert(!beats(metric, value_of(trials[i], metric), value_of(trials[k], metric)));
}

/// The best of a longer list is the best of the shorter one, or the trial that
/// was added, and then that one is strictly better: it has a smaller validation
/// loss, or a larger value of any other metric.
pub proof fn law_new_best_is_strictly_better(trials: Seq<TrialResult>, metric: OptimizationMetric, added: TrialResult)
    requires
        trials.len() > 0,
    ensures
        ({
            let before = trials[best_of(trials, metric, trials.len())];
            let longer = trials.push(added);
            let after = best_of(longer, metric, longer.len());
            let better = match metric {
                OptimizationMetric::ValidationLoss => added.val_loss.less(before.val_loss),
                OptimizationMetric::F1Score => {
                    let most = if before.f1_score is Some { before.f1_score->0 } else { F32 { bits: 0 } };
                    most.less(if added.f1_score is Some { added.f1_score->0 } else { F32 { bits: 0 } })
                },
                OptimizationMetric::RocAuc => {
                    let most = if before.roc_auc is Some { before.roc_auc->0 } else { F64 { bits: 0 } };
                    most.less(if added.roc_auc is Some { added.roc_auc->0 } else { F64 { bits: 0 } })
                },
                OptimizationMetric::RankIc => {
                    let most = if before.rank_ic is Some { before.rank_ic->0 } else { F64 { bits: 0 } };
                    most.less(if added.rank_ic is Some { added.rank_ic->0 } else { F64 { bits: 0 } })
                },
            };
            after == if better {
                trials.len() as int
            } else {
                best_of(trials, metric, trials.len())
            }
        }),
{
    let longer = trials.push(added);
    lemma_best_of_prefix(trials, longer, metric, trials.len());
}

/// A metric of the folds is there when some fold has it, and is then the mean
/// that was handed in; the number of trees is the mean over the folds, rounded
/// down; and without folds the losses are as large as numbers get.
pub proof fn law_folds_are_averaged(results: Seq<EvalMetrics>, means: FoldMeans)
    requires
        tree_sum(results) <= usize::MAX,
    ensures
        ({
            let metrics = aggregated(results, means);
            if results.len() == 0 {
                &&& metrics.val_metric.bits == 0x7f7f_ffff
                &&& metrics.train_metric.bits == 0x7f7f_ffff
                &&& metrics.num_trees == 0
                &&& metrics.f1_score is None && metrics.roc_auc is None && metrics.rank_ic is None
            } else {
                &&& metrics.val_metric == means.val_metric
                &&& metrics.train_metric == means.train_metric
                &&& metrics.num_trees * results.len() <= tree_sum(results) < (metrics.num_trees + 1) * results.len()
                &&& metrics.f1_score == Some(means.f1_score) || metrics.f1_score is None
                &&& metrics.roc_auc == Some(means.roc_auc) || metrics.roc_auc is None
                &&& metrics.rank_ic == Some(means.rank_ic) || metrics.rank_ic is None
                &&& metrics.f1_score is None <==> forall|i: int|
                    0 <= i < results.len() ==> (#[trigger] results[i]).f1_score is None
                &&& metrics.roc_auc is None <==> forall|i: int|
                    0 <= i < results.len() ==> (#[trigger] results[i]).roc_auc is None
                &&& metrics.rank_ic is None <==> forall|i: int|
                    0 <= i < results.len() ==> (#[trigger] results[i]).rank_ic is None
            }
        }),
{
    if results.len() > 0 {
        let has_f1 = |fold: EvalMetrics| fold.f1_score is Some;
        let has_auc = |fold: EvalMetrics| fold.roc_auc is Some;
        let has_ic = |fold: EvalMetrics| fold.rank_ic is Some;
        assert(forall|i: int| 0 <= i < results.len() ==> has_f1(#[trigger] results[i]) == (results[i].f1_score is Some));
        assert(forall|i: int| 0 <= i < results.len() ==> has_auc(#[trigger] results[i]) == (results[i].roc_auc is Some));
        assert(forall|i: int| 0 <= i < results.len() ==> has_ic(#[trigger] results[i]) == (results[i].rank_ic is Some));
        let total = tree_sum(results) as int;
        let count = results.len() as int;
        assert((total / count) * count <= total < (total / count + 1) * count) by (nonlinear_arith)
            requires
                count > 0,
        ;
        assert(0 <= total / count <= total) by (nonlinear_arith)
            requires
                count > 0,
                total >= 0,
        ;
    }
}

/// The number of trees of the folds counts each fold once: one fold more adds
/// the trees of that fold.
pub proof fn law_every_fold_counts(results: Seq<EvalMetrics>, added: EvalMetrics)
    ensures
        tree_sum(Seq::<EvalMetrics>::empty()) == 0,
        tree_sum(results.push(added)) == tree_sum(results) + added.num_trees,
{
    assert(results.push(added).drop_last() =~= results);
}

/// The values of a trial are the tuned ones; only the learning rate is filled
/// in, and only where it was not tuned.
pub proof fn law_only_the_learning_rate_is_filled_in(
    params: Map<Seq<char>, F32>,
    base_rate: F32,
    name: Seq<char>,
)
    ensures
        full_params(params, base_rate).dom().contains(name) <==> params.dom().contains(name) || name
            == "learning_rate"@,
        params.dom().contains(name) ==> full_params(params, base_rate)[name] == params[name],
        !params.dom().contains("learning_rate"@) ==> full_params(params, base_rate)["learning_rate"@] == base_rate,
{
}

} // verus!
