//! The steps of tuning a linear model followed by trees.

use crate::defaults::{
    DEFAULT_TUNER_VAL_RATIO, SHRINKAGE_PROBE_DEPTH, SHRINKAGE_PROBE_LR, SHRINKAGE_PROBE_MIN_SAMPLES_LEAF,
    SHRINKAGE_PROBE_ROUNDS,
};
use crate::float::{F32, F32_ONE, F32_ZERO};
use crate::fractions::HALF;
use crate::seqs::ascending_where;
use crate::text::{decimal, push_decimal, with_number};
use crate::tuner::bounds::ParamBounds;
use crate::tuner::config::{
    preset_settings, ConfigError, EvalStrategy, OptimizationMetric, TaskType, TunerConfig, TunerPreset,
};
use crate::tuner::ltt::{LttTunerConfig, LttTunerPreset, TreeTrial};
use crate::tuner::params::TunableParam;
use crate::tuner::space::{at, preset_params, span, without, ParamView, ParameterSpace, SpacePreset};
use crate::tuner::trial::TrialResult;
use vstd::prelude::*;
use vstd::string::StringExecFns;

verus! {

/// Why tuning cannot go on.
#[derive(Debug)]
pub enum LttError {
    /// A setting is wrong.
    Config {
        /// What is wrong with it.
        error: ConfigError,
    },
    /// The data cannot be used.
    Data {
        /// What is wrong with it.
        text: String,
    },
    /// No row is left to train on.
    EmptyTraining {
        /// Share of the rows that are held out.
        val_ratio: F32,
        /// Number of rows.
        num_rows: usize,
    },
    /// No row is held out.
    EmptyValidation {
        /// Share of the rows that are held out.
        val_ratio: F32,
        /// Number of rows.
        num_rows: usize,
    },
    /// No linear model explains anything.
    NoLinearModel,
}

/// Fewest rows that are worth tuning on.
pub const MIN_ROWS: usize = 10;

/// The message for a feature matrix of the wrong size.
pub open spec fn size_mismatch(features: nat, num_features: nat, targets: nat) -> Seq<char> {
    "Feature matrix size mismatch: expected "@ + decimal(targets * num_features) + " ("@ + decimal(targets) + "×"@ + decimal(
        num_features,
    ) + "), got "@ + decimal(features)
}

/// What is wrong with data of some size.
pub open spec fn data_problem(features: nat, num_features: nat, targets: nat) -> Option<Seq<char>> {
    if num_features == 0 {
        Some("num_features must be greater than 0"@)
    } else if targets == 0 {
        Some("targets cannot be empty"@)
    } else if features == 0 {
        Some("features cannot be empty"@)
    } else if features != targets * num_features {
        Some(size_mismatch(features, num_features, targets))
    } else if targets < MIN_ROWS {
        Some("Insufficient data for tuning: need at least 10 rows, got "@ + decimal(targets))
    } else {
        None
    }
}

/// Tunes a linear model followed by trees.
#[derive(Debug)]
pub struct LttTuner {
    config: LttTunerConfig,
}

impl LttTuner {
    /// What is tried.
    pub closed spec fn settings(self) -> LttTunerConfig {
        self.config
    }

    /// A tuner.
    pub fn new(config: LttTunerConfig) -> (tuner: LttTuner)
        ensures
            tuner.settings() == config,
    {
        LttTuner { config }
    }

    /// A tuner that tries the default.
    pub fn with_defaults() -> (tuner: LttTuner)
        ensures
            tuner.settings().is_preset(LttTunerPreset::Standard),
            tuner.settings().output_dir is None,
    {
        LttTuner::new(LttTunerConfig::default())
    }

    /// What is tried.
    pub fn config(&self) -> (config: &LttTunerConfig)
        ensures
            *config == self.settings(),
    {
        &self.config
    }

    /// How many trials there are: combinations for the linear model, for the
    /// trees, and dampings where they are tried.
    pub fn estimated_trials(&self) -> (count: usize)
        requires
            trial_count(self.settings()) <= usize::MAX,
        ensures
            count == trial_count(self.settings()),
    {
        let config = &self.config;
        let lambdas: usize = config.lambda_values.len();
        let ratios: usize = config.l1_ratio_values.len();
        let depths: usize = config.max_depth_values.len();
        let rates: usize = config.learning_rate_values.len();
        let rounds: usize = config.num_rounds_values.len();
        proof {
            assert(lambdas * ratios >= 0) by (nonlinear_arith);
            assert(depths * rates >= 0) by (nonlinear_arith);
            let pairs = depths * rates;
            assert(pairs * rounds >= 0) by (nonlinear_arith)
                requires
                    pairs >= 0,
            ;
            if rounds > 0 {
                assert(pairs <= pairs * rounds) by (nonlinear_arith)
                    requires
                        pairs >= 0,
                        rounds >= 1,
                ;
            }
        }
        let linear: usize = lambdas * ratios;
        let tree: usize = if rounds == 0 {
            assert(depths * rates * rounds == 0) by (nonlinear_arith)
                requires
                    rounds == 0,
            ;
            0
        } else {
            depths * rates * rounds
        };
        let joint: usize = if config.enable_joint_refinement {
            config.extrapolation_damping_values.len()
        } else {
            0
        };
        linear + tree + joint
    }

    /// Whether tuning can start on data of some size.
    pub fn validate_inputs(&self, features: usize, num_features: usize, targets: usize) -> (checked: Result<(), LttError>)
        requires
            targets * num_features <= usize::MAX,
        ensures
            match checked {
                Ok(_) => {
                    &&& self.settings().problem() is None
                    &&& data_problem(features as nat, num_features as nat, targets as nat) is None
                },
                Err(LttError::Config { error }) => self.settings().problem() == Some(error@),
                Err(LttError::Data { text }) => {
                    &&& self.settings().problem() is None
                    &&& data_problem(features as nat, num_features as nat, targets as nat) == Some(text@)
                },
                Err(_) => false,
            },
    {
        match self.config.validate() {
            Err(error) => {
                return Err(LttError::Config { error });
            },
            Ok(_) => {},
        }
        if num_features == 0 {
            return Err(LttError::Data { text: "num_features must be greater than 0".to_owned() });
        }
        if targets == 0 {
            return Err(LttError::Data { text: "targets cannot be empty".to_owned() });
        }
        if features == 0 {
            return Err(LttError::Data { text: "features cannot be empty".to_owned() });
        }
        let expected: usize = targets * num_features;
        if features != expected {
            let mut text: String = with_number("Feature matrix size mismatch: expected ", expected as u64);
            text.append(" (");
            push_decimal(&mut text, targets as u64);
            text.append("×");
            push_decimal(&mut text, num_features as u64);
            text.append("), got ");
            push_decimal(&mut text, features as u64);
            return Err(LttError::Data { text });
        }
        if targets < MIN_ROWS {
            return Err(
                LttError::Data {
                    text: with_number("Insufficient data for tuning: need at least 10 rows, got ", targets as u64),
                },
            );
        }
        Ok(())
    }

    /// How many rows train, given how many are held out.
    pub fn split_rows(&self, num_rows: usize, val_size: usize) -> (train: Result<usize, LttError>)
        requires
            val_size <= num_rows,
        ensures
            match train {
                Ok(rows) => rows == num_rows - val_size && rows > 0 && val_size > 0,
                Err(LttError::EmptyTraining { val_ratio, num_rows: rows }) => {
                    &&& val_size == num_rows
                    &&& val_ratio == self.settings().val_ratio && rows == num_rows
                },
                Err(LttError::EmptyValidation { val_ratio, num_rows: rows }) => {
                    &&& val_size == 0 && num_rows > 0
                    &&& val_ratio == self.settings().val_ratio && rows == num_rows
                },
                Err(_) => false,
            },
    {
        let train_size: usize = num_rows - val_size;
        if train_size == 0 {
            return Err(LttError::EmptyTraining { val_ratio: self.config.val_ratio, num_rows });
        }
        if val_size == 0 {
            return Err(LttError::EmptyValidation { val_ratio: self.config.val_ratio, num_rows });
        }
        Ok(train_size)
    }
}

/// How many trials there are.
pub open spec fn trial_count(config: LttTunerConfig) -> int {
    config.lambda_values@.len() * config.l1_ratio_values@.len() + config.max_depth_values@.len()
        * config.learning_rate_values@.len() * config.num_rounds_values@.len() + if config.enable_joint_refinement {
        config.extrapolation_damping_values@.len() as int
    } else {
        0
    }
}

/// The features of some rows, row by row.
pub open spec fn picked_features(features: Seq<F32>, num_features: int, rows: Seq<usize>) -> Seq<F32> {
    Seq::new(
        (rows.len() * num_features) as nat,
        |k: int| features[rows[k / num_features] * num_features + k % num_features],
    )
}

/// The features and targets of some rows.
pub fn extract_split(features: &[F32], targets: &[F32], num_features: usize, rows: &[usize]) -> (split: (
    Vec<F32>,
    Vec<F32>,
))
    requires
        num_features > 0,
        features@.len() == targets@.len() * num_features,
        forall|i: int| 0 <= i < rows@.len() ==> #[trigger] rows@[i] < targets@.len(),
    ensures
        (split.0)@ == picked_features(features@, num_features as int, rows@),
        (split.1)@ == Seq::new(rows@.len(), |i: int| targets@[rows@[i] as int]),
{
    let count: usize = rows.len();
    let total: usize = features.len();
    let ghost width = num_features as int;
    let mut split_features: Vec<F32> = Vec::new();
    let mut split_targets: Vec<F32> = Vec::new();
    let mut i: usize = 0;
    while i < count
        invariant
            i <= count == rows@.len(),
            width == num_features,
            num_features > 0,
            total == features@.len(),
            features@.len() == targets@.len() * num_features,
            forall|j: int| 0 <= j < rows@.len() ==> #[trigger] rows@[j] < targets@.len(),
            split_features@.len() == i * width,
            forall|k: int|
                0 <= k < split_features@.len() ==> #[trigger] split_features@[k] == features@[rows@[k / width] * width + k
                    % width],
            split_targets@ == Seq::new(i as nat, |j: int| targets@[rows@[j] as int]),
        decreases count - i,
    {
        let row: usize = rows[i];
        proof {
            assert((row + 1) * width <= targets@.len() * width) by (nonlinear_arith)
                requires
                    row + 1 <= targets@.len(),
                    width > 0,
            ;
            assert((row + 1) * width == row * width + width) by (nonlinear_arith);
            assert(row * width >= 0) by (nonlinear_arith)
                requires
                    width > 0,
            ;
        }
        let base: usize = row * num_features;
        let mut f: usize = 0;
        while f < num_features
            invariant
                i < count == rows@.len(),
                f <= num_features,
                width == num_features,
                num_features > 0,
                row == rows@[i as int],
                base == row * width,
                base + width <= total,
                total == features@.len(),
                split_features@.len() == i * width + f,
                forall|k: int|
                    0 <= k < split_features@.len() ==> #[trigger] split_features@[k] == features@[rows@[k / width] * width
                        + k % width],
            decreases num_features - f,
        {
            proof {
                assert(width * i == i * width) by (nonlinear_arith);
                vstd::arithmetic::div_mod::lemma_fundamental_div_mod_converse(
                    i * width + f,
                    width,
                    i as int,
                    f as int,
                );
            }
            split_features.push(features[base + f]);
            f = f + 1;
        }
        split_targets.push(targets[row]);
        proof {
            assert((i + 1) * width == i * width + width) by (nonlinear_arith);
            assert(split_targets@ =~= Seq::new((i + 1) as nat, |j: int| targets@[rows@[j] as int]));
        }
        i = i + 1;
    }
    assert(split_features@ =~= picked_features(features@, width, rows@));
    (split_features, split_targets)
}

/// The features that trees use: those that the linear model does not.
pub fn tree_features(num_features: usize, linear: &[usize]) -> (rest: Vec<usize>)
    ensures
        rest@ == ascending_where(num_features as nat, |f: int| !linear@.contains(f as usize)),
{
    let ghost unused = |f: int| !linear@.contains(f as usize);
    let mut rest: Vec<usize> = Vec::new();
    let mut f: usize = 0;
    while f < num_features
        invariant
            f <= num_features,
            unused == (|f: int| !linear@.contains(f as usize)),
            rest@ == ascending_where(f as nat, unused),
        decreases num_features - f,
    {
        let count: usize = linear.len();
        let mut used: bool = false;
        let mut i: usize = 0;
        while i < count
            invariant
                i <= count == linear@.len(),
                used == linear@.take(i as int).contains(f),
            decreases count - i,
        {
            assert(linear@.take(i + 1) =~= linear@.take(i as int).push(linear@[i as int]));
            proof {
                let before = linear@.take(i as int);
                let after = linear@.take(i + 1);
                if before.contains(f) {
                    let k = choose|k: int| 0 <= k < before.len() && before[k] == f;
                    assert(after[k] == f);
                }
                if linear@[i as int] == f {
                    assert(after[i as int] == f);
                }
                if after.contains(f) && linear@[i as int] != f {
                    let k = choose|k: int| 0 <= k < after.len() && after[k] == f;
                    assert(before[k] == f);
                }
            }
            if linear[i] == f {
                used = true;
            }
            i = i + 1;
        }
        assert(linear@.take(count as int) =~= linear@);
        assert(unused(f as int) == !used);
        if !used {
            rest.push(f);
        }
        f = f + 1;
    }
    rest
}

/// A feature of some rows.
pub fn feature_column(features: &[F32], num_rows: usize, num_features: usize, feature: usize) -> (column: Vec<F32>)
    requires
        feature < num_features,
        features@.len() == num_rows * num_features,
    ensures
        column@ == Seq::new(num_rows as nat, |row: int| features@[row * num_features + feature]),
{
    let total: usize = features.len();
    let ghost width = num_features as int;
    let mut column: Vec<F32> = Vec::new();
    let mut row: usize = 0;
    while row < num_rows
        invariant
            row <= num_rows,
            width == num_features,
            feature < num_features,
            total == features@.len(),
            features@.len() == num_rows * width,
            column@ == Seq::new(row as nat, |r: int| features@[r * num_features + feature]),
        decreases num_rows - row,
    {
        proof {
            assert((row + 1) * width <= num_rows * width) by (nonlinear_arith)
                requires
                    row + 1 <= num_rows,
                    width > 0,
            ;
            assert((row + 1) * width == row * width + width) by (nonlinear_arith);
            assert(row * width >= 0) by (nonlinear_arith)
                requires
                    width > 0,
            ;
        }
        column.push(features[row * num_features + feature]);
        row = row + 1;
        assert(column@ =~= Seq::new(row as nat, |r: int| features@[r * num_features + feature]));
    }
    column
}

/// A feature of the training rows and then of the validation rows, from which the
/// bins of both are made.
pub fn combined_column(
    train_features: &[F32],
    num_train: usize,
    val_features: &[F32],
    num_val: usize,
    num_features: usize,
    feature: usize,
) -> (column: Vec<F32>)
    requires
        feature < num_features,
        train_features@.len() == num_train * num_features,
        val_features@.len() == num_val * num_features,
    ensures
        column@ == Seq::new(num_train as nat, |row: int| train_features@[row * num_features + feature]) + Seq::new(
            num_val as nat,
            |row: int| val_features@[row * num_features + feature],
        ),
{
    let mut column: Vec<F32> = feature_column(train_features, num_train, num_features, feature);
    let mut rest: Vec<F32> = feature_column(val_features, num_val, num_features, feature);
    column.append(&mut rest);
    column
}

/// How much the search for the trees spends, by its iterations.
pub open spec fn search_preset(iterations: usize) -> TunerPreset {
    if iterations == 1 {
        TunerPreset::SmokeTest
    } else if iterations == 2 {
        TunerPreset::Quick
    } else if iterations == 3 || iterations == 4 {
        TunerPreset::Balanced
    } else {
        TunerPreset::Thorough
    }
}

/// The space of the search for the trees: that of regression, and column
/// sampling.
pub open spec fn tree_space() -> Seq<ParamView> {
    without(preset_params(SpacePreset::Regression), TunableParam::Colsample).push(
        at(TunableParam::Colsample, span(HALF, F32_ONE), F32_ONE),
    )
}

impl LttTuner {
    /// The settings of the search for the trees. `log_dir` is where its results
    /// are written.
    pub fn tree_search(&self, log_dir: Option<&str>) -> (config: TunerConfig)
        ensures
            config.space@ == tree_space(),
            match log_dir {
                Some(dir) => config.output_dir matches Some(path) && path@ == dir@,
                None => config.output_dir is None,
            },
            exists|base: TunerConfig|
                {
                    let settings = preset_settings(search_preset(self.settings().tree_tuner_iterations));
                    &&& #[trigger] base.is_default()
                    &&& config == (TunerConfig {
                        space: config.space,
                        n_iterations: self.settings().tree_tuner_iterations,
                        num_rounds: settings.num_rounds,
                        early_stopping_rounds: settings.early_stopping_rounds,
                        improvement_threshold: settings.improvement_threshold,
                        seed: self.settings().seed,
                        verbose: false,
                        output_dir: config.output_dir,
                        ..base
                    })
                },
    {
        let space = ParameterSpace::with_preset(SpacePreset::Regression).with_param(
            TunableParam::Colsample,
            ParamBounds::continuous(F32 { bits: HALF }, F32 { bits: F32_ONE }),
            F32 { bits: F32_ONE },
        );
        let iterations: usize = self.config.tree_tuner_iterations;
        let preset: TunerPreset = if iterations == 1 {
            TunerPreset::SmokeTest
        } else if iterations == 2 {
            TunerPreset::Quick
        } else if iterations == 3 || iterations == 4 {
            TunerPreset::Balanced
        } else {
            TunerPreset::Thorough
        };
        let config = TunerConfig::new().with_preset(preset).with_space(space).with_eval_strategy(
            EvalStrategy::Holdout { validation_ratio: F32 { bits: DEFAULT_TUNER_VAL_RATIO }, folds: 1 },
        ).with_optimization_metric(OptimizationMetric::ValidationLoss).with_task_type(
            TaskType::Regression,
        ).with_iterations(iterations).with_parallel(true).with_seed(self.config.seed).with_verbose(false);
        match log_dir {
            Some(dir) => config.with_output_dir(dir),
            None => config,
        }
    }
}

/// The trees that probe a weight of the linear model. They are trained on squared
/// errors; what is not set here is as usual.
#[derive(Debug, Clone, Copy, PartialEq, Eq, Structural)]
pub struct ProbeTrees {
    /// Boosting rounds.
    pub num_rounds: usize,
    /// Factor on leaf predictions.
    pub learning_rate: Option<F32>,
    /// Largest depth.
    pub max_depth: usize,
    /// Fewest rows in a leaf.
    pub min_samples_leaf: Option<usize>,
    /// Seed.
    pub seed: u64,
}

impl LttTuner {
    /// The trees that probe a weight.
    pub fn probe_trees(&self) -> (trees: ProbeTrees)
        ensures
            trees == (ProbeTrees {
                num_rounds: SHRINKAGE_PROBE_ROUNDS,
                learning_rate: Some(F32 { bits: SHRINKAGE_PROBE_LR }),
                max_depth: SHRINKAGE_PROBE_DEPTH,
                min_samples_leaf: Some(SHRINKAGE_PROBE_MIN_SAMPLES_LEAF),
                seed: self.settings().seed,
            }),
    {
        ProbeTrees {
            num_rounds: SHRINKAGE_PROBE_ROUNDS,
            learning_rate: Some(F32 { bits: SHRINKAGE_PROBE_LR }),
            max_depth: SHRINKAGE_PROBE_DEPTH,
            min_samples_leaf: Some(SHRINKAGE_PROBE_MIN_SAMPLES_LEAF),
            seed: self.config.seed,
        }
    }

    /// The trees that are tried where those that probe a weight cannot be
    /// trained: a single cut.
    pub fn smallest_probe(&self) -> (trees: ProbeTrees)
        ensures
            trees == (ProbeTrees {
                num_rounds: 1,
                learning_rate: None,
                max_depth: 1,
                min_samples_leaf: None,
                seed: self.settings().seed,
            }),
    {
        ProbeTrees { num_rounds: 1, learning_rate: None, max_depth: 1, min_samples_leaf: None, seed: self.config.seed }
    }
}

/// A number as a whole number of 32 bits: without what is behind the point, and
/// the largest one where it is larger than that.
pub open spec fn whole_u32(x: F32) -> u32 {
    if x.index() > u32::MAX {
        u32::MAX
    } else {
        x.index() as u32
    }
}

/// Records a trial of the search for the trees. `residual_rmse` is the root of
/// its loss.
pub fn tree_trial(trial: &TrialResult, residual_rmse: F32) -> (recorded: TreeTrial)
    requires
        trial.params@.dom().contains("max_depth"@),
        trial.params@.dom().contains("learning_rate"@),
    ensures
        recorded == (TreeTrial {
            max_depth: whole_u32(trial.params@["max_depth"@]),
            learning_rate: trial.params@["learning_rate"@],
            num_trees: trial.num_trees as u32,
            residual_rmse,
        }),
{
    let depth: F32 = match trial.params.get("max_depth") {
        Some(value) => *value,
        None => F32 { bits: F32_ZERO },
    };
    let learning_rate: F32 = match trial.params.get("learning_rate") {
        Some(value) => *value,
        None => F32 { bits: F32_ZERO },
    };
    let whole: usize = depth.to_index();
    let max_depth: u32 = if whole > 0xffff_ffff {
        0xffff_ffff
    } else {
        whole as u32
    };
    TreeTrial {
        max_depth,
        learning_rate,
        num_trees: #[verifier::truncate] (trial.num_trees as u32),
        residual_rmse,
    }
}

} // verus!
