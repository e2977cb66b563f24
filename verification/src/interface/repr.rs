//! How settings and results show themselves in scripts. Fractions come in as
//! text.

use crate::backend::{BackendType, GpuMode};
use crate::interface::names::{backend_name, backend_text, gpu_mode_name, gpu_mode_text, SaveFormat};
use crate::interface::settings::GbdtSettings;
use crate::text::{decimal, push_decimal};
use crate::tree::split::MonotonicConstraint;
use crate::tuner::bounds::{texts, BoundsView, ParamBounds};
use crate::tuner::config::{EvalStrategy, GridStrategy, OptimizationMetric, TaskType, TuningMode};
use crate::tuner::space::ParameterSpace;
use vstd::prelude::*;
use vstd::string::StringExecFns;

verus! {

/// Some texts with a separator between them.
pub open spec fn separated(parts: Seq<Seq<char>>, separator: Seq<char>) -> Seq<char>
    decreases parts.len(),
{
    if parts.len() == 0 {
        Seq::empty()
    } else if parts.len() == 1 {
        parts[0]
    } else {
        separated(parts.drop_last(), separator) + separator + parts.last()
    }
}

/// Appends some texts with a comma between them.
fn push_list(out: &mut String, parts: &[&str])
    ensures
        final(out)@ == old(out)@ + separated(parts@.map_values(|part: &str| part@), ", "@),
{
    let ghost before = out@;
    let ghost views = parts@.map_values(|part: &str| part@);
    let count: usize = parts.len();
    let mut i: usize = 0;
    assert(out@ =~= before + separated(views.take(0), ", "@));
    while i < count
        invariant
            i <= count == parts@.len(),
            views == parts@.map_values(|part: &str| part@),
            out@ == before + separated(views.take(i as int), ", "@),
        decreases count - i,
    {
        assert(views.take(i + 1).drop_last() =~= views.take(i as int));
        if i > 0 {
            out.append(", ");
        }
        out.append(parts[i]);
        assert(out@ =~= before + separated(views.take(i + 1), ", "@));
        i = i + 1;
    }
    assert(views.take(count as int) =~= views);
}

/// The direction in which a feature acts.
pub fn constraint_repr(constraint: MonotonicConstraint) -> (text: &'static str)
    ensures
        text@ == match constraint {
            MonotonicConstraint::Increasing => "MonotonicConstraint.increasing()"@,
            MonotonicConstraint::Decreasing => "MonotonicConstraint.decreasing()"@,
            MonotonicConstraint::Unconstrained => "MonotonicConstraint.none()"@,
        },
{
    match constraint {
        MonotonicConstraint::Increasing => "MonotonicConstraint.increasing()",
        MonotonicConstraint::Decreasing => "MonotonicConstraint.decreasing()",
        MonotonicConstraint::Unconstrained => "MonotonicConstraint.none()",
    }
}

/// Whether encoding sees the rows that validate a trial.
pub fn tuning_mode_repr(mode: TuningMode) -> (text: &'static str)
    ensures
        text@ == match mode {
            TuningMode::Optimistic => "TuningMode.optimistic()"@,
            TuningMode::Realistic => "TuningMode.realistic()"@,
        },
{
    match mode {
        TuningMode::Optimistic => "TuningMode.optimistic()",
        TuningMode::Realistic => "TuningMode.realistic()",
    }
}

/// What decides which trial is best.
pub fn metric_repr(metric: OptimizationMetric) -> (text: &'static str)
    ensures
        text@ == match metric {
            OptimizationMetric::ValidationLoss => "OptimizationMetric.val_loss()"@,
            OptimizationMetric::F1Score => "OptimizationMetric.f1_score()"@,
            OptimizationMetric::RocAuc => "OptimizationMetric.roc_auc()"@,
            OptimizationMetric::RankIc => "OptimizationMetric.rank_ic()"@,
        },
{
    match metric {
        OptimizationMetric::ValidationLoss => "OptimizationMetric.val_loss()",
        OptimizationMetric::F1Score => "OptimizationMetric.f1_score()",
        OptimizationMetric::RocAuc => "OptimizationMetric.roc_auc()",
        OptimizationMetric::RankIc => "OptimizationMetric.rank_ic()",
    }
}

/// What is predicted.
pub fn task_repr(task: TaskType) -> (text: &'static str)
    ensures
        text@ == match task {
            TaskType::Regression => "TaskType.regression()"@,
            TaskType::BinaryClassification => "TaskType.binary_classification()"@,
            TaskType::MultiClassClassification => "TaskType.multi_class_classification()"@,
        },
{
    match task {
        TaskType::Regression => "TaskType.regression()",
        TaskType::BinaryClassification => "TaskType.binary_classification()",
        TaskType::MultiClassClassification => "TaskType.multi_class_classification()",
    }
}

/// A format in which a model is saved.
pub fn format_repr(format: SaveFormat) -> (text: &'static str)
    ensures
        text@ == match format {
            SaveFormat::Rkyv => "ModelFormat.rkyv()"@,
            SaveFormat::Bincode => "ModelFormat.bincode()"@,
        },
{
    match format {
        SaveFormat::Rkyv => "ModelFormat.rkyv()",
        SaveFormat::Bincode => "ModelFormat.bincode()",
    }
}

/// Some text, a number in decimal, some more text.
fn around(before: &str, n: usize, after: &str) -> (text: String)
    ensures
        text@ == before@ + decimal(n as nat) + after@,
{
    let mut text: String = before.to_owned();
    push_decimal(&mut text, n as u64);
    text.append(after);
    text
}

/// How candidates are placed, in a script.
pub open spec fn grid_text(strategy: GridStrategy) -> Seq<char> {
    match strategy {
        GridStrategy::Cartesian { points_per_dim } => "GridStrategy.cartesian("@ + decimal(points_per_dim as nat)
            + ")"@,
        GridStrategy::LatinHypercube { n_samples } => "GridStrategy.lhs("@ + decimal(n_samples as nat) + ")"@,
        GridStrategy::Random { n_samples } => "GridStrategy.random("@ + decimal(n_samples as nat) + ")"@,
    }
}

/// How candidates are placed.
pub fn grid_strategy_repr(strategy: GridStrategy) -> (text: String)
    ensures
        text@ == grid_text(strategy),
{
    match strategy {
        GridStrategy::Cartesian { points_per_dim } => around("GridStrategy.cartesian(", points_per_dim, ")"),
        GridStrategy::LatinHypercube { n_samples } => around("GridStrategy.lhs(", n_samples, ")"),
        GridStrategy::Random { n_samples } => around("GridStrategy.random(", n_samples, ")"),
    }
}

/// The call that sets the folds, unless there is one only.
pub open spec fn folds_text(folds: usize) -> Seq<char> {
    if folds == 1 {
        Seq::empty()
    } else {
        ".with_folds("@ + decimal(folds as nat) + ")"@
    }
}

/// How a candidate is evaluated. `share` and `quantile` are the fractions of the
/// strategy as text; the second is not read without intervals.
pub fn eval_strategy_repr(strategy: EvalStrategy, share: &str, quantile: &str) -> (text: String)
    ensures
        text@ == match strategy {
            EvalStrategy::Holdout { folds, .. } => "EvalStrategy.holdout("@ + share@ + ")"@ + folds_text(folds),
            EvalStrategy::Conformal { folds, .. } => "EvalStrategy.conformal("@ + share@ + ", "@ + quantile@ + ")"@
                + folds_text(folds),
        },
{
    let mut text: String = match strategy {
        EvalStrategy::Holdout { .. } => "EvalStrategy.holdout(".to_owned(),
        EvalStrategy::Conformal { .. } => "EvalStrategy.conformal(".to_owned(),
    };
    text.append(share);
    let folds: usize = match strategy {
        EvalStrategy::Holdout { folds, .. } => folds,
        EvalStrategy::Conformal { folds, .. } => {
            text.append(", ");
            text.append(quantile);
            folds
        },
    };
    text.append(")");
    let ghost open = text@;
    if folds != 1 {
        let tail: String = around(".with_folds(", folds, ")");
        text.append(tail.as_str());
    }
    assert(text@ =~= open + folds_text(folds));
    text
}

/// Bounds in a script. `min` and `max` are the ends of continuous bounds as text.
pub open spec fn bounds_text(bounds: BoundsView, min: Seq<char>, max: Seq<char>) -> Seq<char> {
    match bounds {
        BoundsView::Continuous { log_scale, .. } => (if log_scale {
            "ParamBounds.log_continuous("@
        } else {
            "ParamBounds.continuous("@
        }) + min + ", "@ + max + ")"@,
        BoundsView::Discrete { min: low, max: high, step } => if step == 1 {
            "ParamBounds.discrete("@ + decimal(low as nat) + ", "@ + decimal(high as nat) + ")"@
        } else {
            "ParamBounds.discrete_step("@ + decimal(low as nat) + ", "@ + decimal(high as nat) + ", "@ + decimal(
                step as nat,
            ) + ")"@
        },
        BoundsView::Categorical { values } => "ParamBounds.categorical(["@ + separated(values, ", "@) + "])"@,
    }
}

/// The bounds of a parameter.
pub fn bounds_repr(bounds: &ParamBounds, min: &str, max: &str) -> (text: String)
    ensures
        text@ == bounds_text(bounds@, min@, max@),
{
    match bounds {
        ParamBounds::Continuous { log_scale, .. } => {
            let mut text: String = if *log_scale {
                "ParamBounds.log_continuous(".to_owned()
            } else {
                "ParamBounds.continuous(".to_owned()
            };
            text.append(min);
            text.append(", ");
            text.append(max);
            text.append(")");
            text
        },
        ParamBounds::Discrete { min: low, max: high, step } => {
            let mut text: String = if *step == 1 {
                "ParamBounds.discrete(".to_owned()
            } else {
                "ParamBounds.discrete_step(".to_owned()
            };
            push_decimal(&mut text, *low as u64);
            text.append(", ");
            push_decimal(&mut text, *high as u64);
            if *step != 1 {
                text.append(", ");
                push_decimal(&mut text, *step as u64);
            }
            text.append(")");
            text
        },
        ParamBounds::Categorical { values } => {
            let count: usize = values.len();
            let mut names: Vec<&str> = Vec::new();
            let mut i: usize = 0;
            while i < count
                invariant
                    i <= count == values@.len(),
                    names@.map_values(|name: &str| name@) == texts(values@).take(i as int),
                decreases count - i,
            {
                let ghost before = names@;
                let name: &str = values[i].as_str();
                names.push(name);
                proof {
                    let seen = before.map_values(|name: &str| name@);
                    assert(names@.map_values(|name: &str| name@) =~= seen.push(name@));
                    assert(texts(values@).take(i + 1) =~= texts(values@).take(i as int).push(name@));
                }
                i = i + 1;
            }
            assert(names@.map_values(|name: &str| name@) =~= texts(values@));
            let mut text: String = "ParamBounds.categorical([".to_owned();
            push_list(&mut text, names.as_slice());
            text.append("])");
            text
        },
    }
}

/// The parameters to tune, by name.
pub fn space_repr(space: &ParameterSpace) -> (text: String)
    ensures
        text@ == "ParameterSpace(["@ + separated(Seq::new(space@.len(), |i: int| space@[i].name.name()), ", "@)
            + "])"@,
{
    let names: Vec<&'static str> = space.param_names();
    assert(names@.map_values(|name: &str| name@) =~= Seq::new(space@.len(), |i: int| space@[i].name.name()));
    let mut text: String = "ParameterSpace([".to_owned();
    push_list(&mut text, names.as_slice());
    text.append("])");
    text
}

/// How candidates are placed, with the name of the number that says how many.
pub open spec fn grid_fields(strategy: GridStrategy) -> Seq<char> {
    match strategy {
        GridStrategy::Cartesian { points_per_dim } => "Cartesian { points_per_dim: "@ + decimal(points_per_dim as nat)
            + " }"@,
        GridStrategy::LatinHypercube { n_samples } => "LatinHypercube { n_samples: "@ + decimal(n_samples as nat)
            + " }"@,
        GridStrategy::Random { n_samples } => "Random { n_samples: "@ + decimal(n_samples as nat) + " }"@,
    }
}

/// The settings of a search.
pub fn tuner_config_repr(iterations: usize, rounds: usize, strategy: GridStrategy) -> (text: String)
    ensures
        text@ == "TunerConfig(iterations="@ + decimal(iterations as nat) + ", rounds="@ + decimal(rounds as nat)
            + ", grid="@ + grid_fields(strategy) + ")"@,
{
    let mut text: String = around("TunerConfig(iterations=", iterations, ", rounds=");
    push_decimal(&mut text, rounds as u64);
    text.append(", grid=");
    let fields: String = match strategy {
        GridStrategy::Cartesian { points_per_dim } => around("Cartesian { points_per_dim: ", points_per_dim, " }"),
        GridStrategy::LatinHypercube { n_samples } => around("LatinHypercube { n_samples: ", n_samples, " }"),
        GridStrategy::Random { n_samples } => around("Random { n_samples: ", n_samples, " }"),
    };
    text.append(fields.as_str());
    text.append(")");
    text
}

/// A tuner, with the iterations and rounds of its settings where it has some.
pub fn tuner_repr(settings: Option<(usize, usize)>) -> (text: String)
    ensures
        text@ == match settings {
            Some((iterations, rounds)) => "AutoTuner(iterations="@ + decimal(iterations as nat) + ", rounds="@ + decimal(
                rounds as nat,
            ) + ")"@,
            None => "AutoTuner(default config)"@,
        },
{
    match settings {
        Some((iterations, rounds)) => {
            let mut text: String = around("AutoTuner(iterations=", iterations, ", rounds=");
            push_decimal(&mut text, rounds as u64);
            text.append(")");
            text
        },
        None => "AutoTuner(default config)".to_owned(),
    }
}

/// A trial, with its error and, where it has them, its scores as text.
pub fn trial_repr(
    trial_id: usize,
    iteration: usize,
    num_trees: usize,
    error: &str,
    f1: Option<&str>,
    roc_auc: Option<&str>,
) -> (text: String)
    ensures
        text@ == "TrialResult(trial_id="@ + decimal(trial_id as nat) + ", iteration="@ + decimal(iteration as nat)
            + ", val_metric="@ + error@ + ", num_trees="@ + decimal(num_trees as nat) + (match f1 {
            Some(score) => ", f1="@ + score@,
            None => Seq::empty(),
        }) + (match roc_auc {
            Some(score) => ", roc_auc="@ + score@,
            None => Seq::empty(),
        }) + ")"@,
{
    let mut text: String = around("TrialResult(trial_id=", trial_id, ", iteration=");
    push_decimal(&mut text, iteration as u64);
    text.append(", val_metric=");
    text.append(error);
    text.append(", num_trees=");
    push_decimal(&mut text, num_trees as u64);
    let ghost start = text@;
    let ghost f1_part = match f1 {
        Some(score) => ", f1="@ + score@,
        None => Seq::<char>::empty(),
    };
    let ghost auc_part = match roc_auc {
        Some(score) => ", roc_auc="@ + score@,
        None => Seq::<char>::empty(),
    };
    match f1 {
        Some(score) => {
            text.append(", f1=");
            text.append(score);
        },
        None => {},
    }
    assert(text@ =~= start + f1_part);
    match roc_auc {
        Some(score) => {
            text.append(", roc_auc=");
            text.append(score);
        },
        None => {},
    }
    assert(text@ =~= start + f1_part + auc_part);
    text.append(")");
    text
}

/// A history, with the best trial and its error as text where there is one.
pub fn history_repr(len: usize, best: Option<(usize, &str)>) -> (text: String)
    ensures
        text@ == "SearchHistory(len="@ + decimal(len as nat) + (match best {
            Some((trial_id, error)) => ", best_trial_id="@ + decimal(trial_id as nat) + ", best_val="@ + error@,
            None => Seq::empty(),
        }) + ")"@,
{
    let mut text: String = around("SearchHistory(len=", len, "");
    let ghost start = "SearchHistory(len="@ + decimal(len as nat);
    proof {
        reveal_strlit("");
        assert(text@ =~= start);
    }
    let ghost tail = match best {
        Some((trial_id, error)) => ", best_trial_id="@ + decimal(trial_id as nat) + ", best_val="@ + error@,
        None => Seq::<char>::empty(),
    };
    match best {
        Some((trial_id, error)) => {
            text.append(", best_trial_id=");
            push_decimal(&mut text, trial_id as u64);
            text.append(", best_val=");
            text.append(error);
        },
        None => {},
    }
    assert(text@ =~= start + tail);
    text.append(")");
    text
}

/// The settings of gradient boosting, with the learning rate as text.
pub fn settings_repr(settings: &GbdtSettings, learning_rate: &str) -> (text: String)
    ensures
        text@ == "GBDTConfig(num_rounds="@ + decimal(settings.num_rounds as nat) + ", learning_rate="@ + learning_rate@
            + ", max_depth="@ + decimal(settings.max_depth as nat) + ", max_leaves="@ + decimal(
            settings.max_leaves as nat,
        ) + ", backend='"@ + backend_text(settings.backend_type) + "', gpu_mode='"@ + gpu_mode_text(settings.gpu_mode)
            + "')"@,
{
    let backend: BackendType = settings.backend_type;
    let mode: GpuMode = settings.gpu_mode;
    let mut text: String = around("GBDTConfig(num_rounds=", settings.num_rounds, ", learning_rate=");
    text.append(learning_rate);
    text.append(", max_depth=");
    push_decimal(&mut text, settings.max_depth as u64);
    text.append(", max_leaves=");
    push_decimal(&mut text, settings.max_leaves as u64);
    text.append(", backend='");
    text.append(backend_name(backend));
    text.append("', gpu_mode='");
    text.append(gpu_mode_name(mode));
    text.append("')");
    text
}

/// A split of rows into three parts.
pub fn holdout_repr(train: usize, val: usize, calib: usize) -> (text: String)
    ensures
        text@ == "HoldoutSplit(train="@ + decimal(train as nat) + ", val="@ + decimal(val as nat) + ", calib="@ + decimal(
            calib as nat,
        ) + ")"@,
{
    let mut text: String = around("HoldoutSplit(train=", train, ", val=");
    push_decimal(&mut text, val as u64);
    text.append(", calib=");
    push_decimal(&mut text, calib as u64);
    text.append(")");
    text
}

/// The smallest of some sizes; 0 where there are none.
pub open spec fn smallest_size(sizes: Seq<usize>) -> usize
    decreases sizes.len(),
{
    if sizes.len() == 0 {
        0
    } else if sizes.len() == 1 {
        sizes[0]
    } else {
        let before = smallest_size(sizes.drop_last());
        if sizes.last() < before {
            sizes.last()
        } else {
            before
        }
    }
}

/// The largest of some sizes; 0 where there are none.
pub open spec fn largest_size(sizes: Seq<usize>) -> usize
    decreases sizes.len(),
{
    if sizes.len() == 0 {
        0
    } else {
        let before = largest_size(sizes.drop_last());
        if sizes.last() > before {
            sizes.last()
        } else {
            before
        }
    }
}

/// A split of rows into folds, with the sizes of the smallest and the largest.
pub fn folds_repr(sizes: &[usize]) -> (text: String)
    ensures
        text@ == "KFoldSplit(k="@ + decimal(sizes@.len()) + ", fold_sizes="@ + decimal(smallest_size(sizes@) as nat)
            + ".."@ + decimal(largest_size(sizes@) as nat) + ")"@,
{
    let count: usize = sizes.len();
    let mut least: usize = 0;
    let mut most: usize = 0;
    let mut i: usize = 0;
    while i < count
        invariant
            i <= count == sizes@.len(),
            least == smallest_size(sizes@.take(i as int)),
            most == largest_size(sizes@.take(i as int)),
        decreases count - i,
    {
        assert(sizes@.take(i + 1).drop_last() =~= sizes@.take(i as int));
        if i == 0 || sizes[i] < least {
            least = sizes[i];
        }
        if sizes[i] > most {
            most = sizes[i];
        }
        i = i + 1;
    }
    assert(sizes@.take(count as int) =~= sizes@);
    let mut text: String = around("KFoldSplit(k=", count, ", fold_sizes=");
    push_decimal(&mut text, least as u64);
    text.append("..");
    push_decimal(&mut text, most as u64);
    text.append(")");
    text
}

} // verus!
