//! How a search is run.

use crate::defaults::{
    DEFAULT_IMPROVEMENT_THRESHOLD, DEFAULT_INITIAL_SPREAD, DEFAULT_MIN_F1_SCORE, DEFAULT_N_ITERATIONS, DEFAULT_QUANTILE,
    DEFAULT_SEED, DEFAULT_TUNER_EARLY_STOP, DEFAULT_TUNER_ROUNDS, DEFAULT_TUNER_VAL_RATIO, DEFAULT_ZOOM_FACTOR,
    QUICK_IMPROVEMENT_THRESHOLD, QUICK_N_ITERATIONS, QUICK_TUNER_EARLY_STOP, QUICK_TUNER_ROUNDS,
    SMOKE_TEST_N_ITERATIONS, THOROUGH_IMPROVEMENT_THRESHOLD, THOROUGH_N_ITERATIONS, THOROUGH_TUNER_EARLY_STOP,
    THOROUGH_TUNER_ROUNDS,
};
use crate::float::{F32, F32_ONE, F32_ZERO};
use crate::text::{decimal, with_number};
use crate::tuner::space::{preset_params, ParameterSpace, SpacePreset};
use vstd::arithmetic::power::pow;
use vstd::prelude::*;

verus! {

/// What is wrong with a setting.
#[derive(Debug)]
pub enum ConfigError {
    /// Something that a fixed text says.
    Rule {
        /// The text.
        text: String,
    },
    /// A number outside its range. The message is the rule, `, got ` and the
    /// number.
    OutOfRange {
        /// The rule that the number breaks.
        rule: &'static str,
        /// The number.
        got: F32,
    },
}

/// A broken rule, and the number that breaks it where the message names one.
pub struct Problem {
    /// The rule.
    pub rule: Seq<char>,
    /// The number.
    pub got: Option<F32>,
}

/// A rule that a fixed text states.
pub open spec fn broken(rule: Seq<char>) -> Option<Problem> {
    Some(Problem { rule, got: None })
}

/// A rule that a number breaks.
pub open spec fn broken_by(rule: Seq<char>, got: F32) -> Option<Problem> {
    Some(Problem { rule, got: Some(got) })
}

impl View for ConfigError {
    type V = Problem;

    open spec fn view(&self) -> Problem {
        match self {
            ConfigError::Rule { text } => Problem { rule: text@, got: None },
            ConfigError::OutOfRange { rule, got } => Problem { rule: rule@, got: Some(*got) },
        }
    }
}

/// Whether a check has the outcome that it should have.
pub open spec fn reports(checked: Result<(), ConfigError>, problem: Option<Problem>) -> bool {
    match checked {
        Ok(_) => problem is None,
        Err(error) => problem == Some(error@),
    }
}

/// The error of a fixed text.
pub fn rule_error(rule: &str) -> (error: ConfigError)
    ensures
        Some(error@) == broken(rule@),
{
    ConfigError::Rule { text: rule.to_owned() }
}

/// Whether a number is 0 or less, or 1 or more.
pub open spec fn outside_unit(x: F32) -> bool {
    x.at_most(F32 { bits: F32_ZERO }) || (F32 { bits: F32_ONE }).at_most(x)
}

/// Whether a number is 0 or less, or 1 or more.
pub fn is_outside_unit(x: F32) -> (outside: bool)
    ensures
        outside == outside_unit(x),
{
    let zero = F32 { bits: F32_ZERO };
    let one = F32 { bits: F32_ONE };
    x.le(zero) || one.le(x)
}

/// A format in which a model is saved.
#[derive(Debug, Clone, Copy, PartialEq, Eq, Structural)]
pub enum ModelFormat {
    /// Zero-copy.
    Rkyv,
}

impl ModelFormat {
    /// The extension of its files.
    pub fn extension(&self) -> (extension: &'static str)
        ensures
            extension@ == "rkyv"@,
    {
        match self {
            ModelFormat::Rkyv => "rkyv",
        }
    }

    /// The name of the file of the best model.
    pub fn filename(&self) -> (name: &'static str)
        ensures
            name@ == "best_model.rkyv"@,
    {
        match self {
            ModelFormat::Rkyv => "best_model.rkyv",
        }
    }
}

/// How a candidate is evaluated.
#[derive(Debug, Clone, Copy, PartialEq, Eq, Structural)]
pub enum EvalStrategy {
    /// By its loss on rows that were held out.
    Holdout {
        /// Share of the rows that are held out.
        validation_ratio: F32,
        /// Number of folds; 1 for a single split.
        folds: usize,
    },
    /// By the width of its prediction intervals.
    Conformal {
        /// Share of the rows that calibrate the intervals.
        calibration_ratio: F32,
        /// Coverage of the intervals.
        quantile: F32,
        /// Number of folds; 1 for a single split.
        folds: usize,
    },
}

impl Default for EvalStrategy {
    fn default() -> (strategy: EvalStrategy)
        ensures
            strategy == (EvalStrategy::Holdout { validation_ratio: F32 { bits: DEFAULT_TUNER_VAL_RATIO }, folds: 1 }),
    {
        EvalStrategy::Holdout { validation_ratio: F32 { bits: DEFAULT_TUNER_VAL_RATIO }, folds: 1 }
    }
}

impl EvalStrategy {
    /// The number of folds.
    pub open spec fn fold_count(self) -> usize {
        match self {
            EvalStrategy::Holdout { folds, .. } => folds,
            EvalStrategy::Conformal { folds, .. } => folds,
        }
    }

    /// The strategy with another number of folds.
    pub open spec fn in_folds(self, n: usize) -> EvalStrategy {
        match self {
            EvalStrategy::Holdout { validation_ratio, .. } => EvalStrategy::Holdout { validation_ratio, folds: n },
            EvalStrategy::Conformal { calibration_ratio, quantile, .. } => EvalStrategy::Conformal {
                calibration_ratio,
                quantile,
                folds: n,
            },
        }
    }

    /// The first thing that is wrong with the strategy.
    pub open spec fn problem(self) -> Option<Problem> {
        match self {
            EvalStrategy::Holdout { validation_ratio, folds } => if outside_unit(validation_ratio) {
                broken_by("validation_ratio must be in (0, 1)"@, validation_ratio)
            } else if folds == 0 {
                broken("folds must be >= 1"@)
            } else {
                None
            },
            EvalStrategy::Conformal { calibration_ratio, quantile, folds } => if outside_unit(calibration_ratio) {
                broken_by("calibration_ratio must be in (0, 1)"@, calibration_ratio)
            } else if outside_unit(quantile) {
                broken_by("quantile must be in (0, 1)"@, quantile)
            } else if folds == 0 {
                broken("folds must be >= 1"@)
            } else {
                None
            },
        }
    }

    /// A single split.
    pub fn holdout(validation_ratio: F32) -> (strategy: EvalStrategy)
        ensures
            strategy == (EvalStrategy::Holdout { validation_ratio, folds: 1 }),
    {
        EvalStrategy::Holdout { validation_ratio, folds: 1 }
    }

    /// Prediction intervals on a single split.
    pub fn conformal(calibration_ratio: F32, quantile: F32) -> (strategy: EvalStrategy)
        ensures
            strategy == (EvalStrategy::Conformal { calibration_ratio, quantile, folds: 1 }),
    {
        EvalStrategy::Conformal { calibration_ratio, quantile, folds: 1 }
    }

    /// Prediction intervals that cover nine of ten, on a single split.
    pub fn conformal_90(calibration_ratio: F32) -> (strategy: EvalStrategy)
        ensures
            strategy == (EvalStrategy::Conformal {
                calibration_ratio,
                quantile: F32 { bits: DEFAULT_QUANTILE },
                folds: 1,
            }),
    {
        EvalStrategy::conformal(calibration_ratio, F32 { bits: DEFAULT_QUANTILE })
    }

    /// The strategy with another number of folds.
    pub fn with_folds(self, folds: usize) -> (strategy: EvalStrategy)
        ensures
            strategy == self.in_folds(folds),
    {
        match self {
            EvalStrategy::Holdout { validation_ratio, .. } => EvalStrategy::Holdout { validation_ratio, folds },
            EvalStrategy::Conformal { calibration_ratio, quantile, .. } => EvalStrategy::Conformal {
                calibration_ratio,
                quantile,
                folds,
            },
        }
    }

    /// The number of folds.
    pub fn folds(&self) -> (count: usize)
        ensures
            count == self.fold_count(),
    {
        match self {
            EvalStrategy::Holdout { folds, .. } => *folds,
            EvalStrategy::Conformal { folds, .. } => *folds,
        }
    }

    /// A strategy that suits the number of rows: five folds for fewer than a
    /// thousand, three for up to five thousand, a single split for more.
    pub fn auto(num_samples: usize) -> (strategy: EvalStrategy)
        ensures
            strategy == (EvalStrategy::Holdout {
                validation_ratio: F32 { bits: DEFAULT_TUNER_VAL_RATIO },
                folds: if num_samples < 1000 {
                    5
                } else if num_samples <= 5000 {
                    3
                } else {
                    1
                },
            }),
    {
        let fifth = F32 { bits: DEFAULT_TUNER_VAL_RATIO };
        if num_samples < 1000 {
            EvalStrategy::holdout(fifth).with_folds(5)
        } else if num_samples <= 5000 {
            EvalStrategy::holdout(fifth).with_folds(3)
        } else {
            EvalStrategy::holdout(fifth)
        }
    }

    /// Whether the strategy can be used.
    pub fn validate(&self) -> (checked: Result<(), ConfigError>)
        ensures
            reports(checked, self.problem()),
    {
        match self {
            EvalStrategy::Holdout { validation_ratio, folds } => {
                if is_outside_unit(*validation_ratio) {
                    return Err(
                        ConfigError::OutOfRange {
                            rule: "validation_ratio must be in (0, 1)",
                            got: *validation_ratio,
                        },
                    );
                }
                if *folds == 0 {
                    return Err(rule_error("folds must be >= 1"));
                }
            },
            EvalStrategy::Conformal { calibration_ratio, quantile, folds } => {
                if is_outside_unit(*calibration_ratio) {
                    return Err(
                        ConfigError::OutOfRange {
                            rule: "calibration_ratio must be in (0, 1)",
                            got: *calibration_ratio,
                        },
                    );
                }
                if is_outside_unit(*quantile) {
                    return Err(ConfigError::OutOfRange { rule: "quantile must be in (0, 1)", got: *quantile });
                }
                if *folds == 0 {
                    return Err(rule_error("folds must be >= 1"));
                }
            },
        }
        Ok(())
    }
}

/// How candidates are placed.
#[derive(Debug, Clone, Copy, PartialEq, Eq, Structural)]
pub enum GridStrategy {
    /// Every combination of some values per parameter.
    Cartesian {
        /// Number of values per parameter.
        points_per_dim: usize,
    },
    /// One sample in each stratum of each parameter.
    LatinHypercube {
        /// Number of samples.
        n_samples: usize,
    },
    /// Independent samples.
    Random {
        /// Number of samples.
        n_samples: usize,
    },
}

impl Default for GridStrategy {
    fn default() -> (strategy: GridStrategy)
        ensures
            strategy == (GridStrategy::Cartesian { points_per_dim: 3 }),
    {
        GridStrategy::Cartesian { points_per_dim: 3 }
    }
}

/// `base` to the power of `exponent`.
fn power(base: usize, exponent: usize) -> (result: usize)
    requires
        pow(base as int, exponent as nat) <= usize::MAX,
    ensures
        result == pow(base as int, exponent as nat),
{
    let mut result: usize = 1;
    let mut i: usize = 0;
    proof {
        vstd::arithmetic::power::lemma_pow0(base as int);
    }
    while i < exponent
        invariant
            i <= exponent,
            result == pow(base as int, i as nat),
            pow(base as int, exponent as nat) <= usize::MAX,
        decreases exponent - i,
    {
        proof {
            reveal(pow);
            assert(pow(base as int, (i + 1) as nat) == base * pow(base as int, i as nat));
            assert(base * result == result * base) by (nonlinear_arith);
            if base == 0 {
                assert(result * base == 0) by (nonlinear_arith)
                    requires
                        base == 0,
                ;
            } else {
                vstd::arithmetic::power::lemma_pow_increases(base as nat, (i + 1) as nat, exponent as nat);
            }
        }
        result = result * base;
        i = i + 1;
    }
    result
}

impl GridStrategy {
    /// How many candidates there are, before equal ones are dropped.
    pub open spec fn candidates(self, num_params: nat) -> int {
        match self {
            GridStrategy::Cartesian { points_per_dim } => pow(points_per_dim as int, num_params),
            GridStrategy::LatinHypercube { n_samples } => n_samples as int,
            GridStrategy::Random { n_samples } => n_samples as int,
        }
    }

    /// What is wrong with the strategy.
    pub open spec fn problem(self) -> Option<Seq<char>> {
        match self {
            GridStrategy::Cartesian { points_per_dim } => if points_per_dim < 2 {
                Some("points_per_dim must be >= 2, got "@ + decimal(points_per_dim as nat))
            } else {
                None
            },
            GridStrategy::LatinHypercube { n_samples } => if n_samples < 1 {
                Some("n_samples must be >= 1, got "@ + decimal(n_samples as nat))
            } else {
                None
            },
            GridStrategy::Random { n_samples } => if n_samples < 1 {
                Some("n_samples must be >= 1, got "@ + decimal(n_samples as nat))
            } else {
                None
            },
        }
    }

    /// Every combination of some values per parameter.
    pub fn cartesian(points_per_dim: usize) -> (strategy: GridStrategy)
        ensures
            strategy == (GridStrategy::Cartesian { points_per_dim }),
    {
        GridStrategy::Cartesian { points_per_dim }
    }

    /// One sample in each stratum of each parameter.
    pub fn lhs(n_samples: usize) -> (strategy: GridStrategy)
        ensures
            strategy == (GridStrategy::LatinHypercube { n_samples }),
    {
        GridStrategy::LatinHypercube { n_samples }
    }

    /// Independent samples.
    pub fn random(n_samples: usize) -> (strategy: GridStrategy)
        ensures
            strategy == (GridStrategy::Random { n_samples }),
    {
        GridStrategy::Random { n_samples }
    }

    /// How many candidates there are, before equal ones are dropped.
    pub fn num_candidates(&self, num_params: usize) -> (count: usize)
        requires
            self.candidates(num_params as nat) <= usize::MAX,
        ensures
            count == self.candidates(num_params as nat),
    {
        match self {
            GridStrategy::Cartesian { points_per_dim } => power(*points_per_dim, num_params),
            GridStrategy::LatinHypercube { n_samples } => *n_samples,
            GridStrategy::Random { n_samples } => *n_samples,
        }
    }

    /// Whether the strategy can be used.
    pub fn validate(&self) -> (checked: Result<(), String>)
        ensures
            match checked {
                Ok(_) => self.problem() is None,
                Err(message) => self.problem() == Some(message@),
            },
    {
        match self {
            GridStrategy::Cartesian { points_per_dim } => {
                if *points_per_dim < 2 {
                    return Err(with_number("points_per_dim must be >= 2, got ", *points_per_dim as u64));
                }
            },
            GridStrategy::LatinHypercube { n_samples } | GridStrategy::Random { n_samples } => {
                if *n_samples < 1 {
                    return Err(with_number("n_samples must be >= 1, got ", *n_samples as u64));
                }
            },
        }
        Ok(())
    }
}

/// Whether target encoding sees the rows that validate a trial.
#[derive(Debug, Clone, Copy, PartialEq, Eq, Structural)]
pub enum TuningMode {
    /// Rows are encoded once, all together: fast, with optimistic metrics.
    Optimistic,
    /// Rows are encoded for each split: slower, with honest metrics.
    Realistic,
}

impl Default for TuningMode {
    fn default() -> (mode: TuningMode)
        ensures
            mode == TuningMode::Optimistic,
    {
        TuningMode::Optimistic
    }
}

impl TuningMode {
    /// Rows are encoded once.
    pub fn optimistic() -> (mode: TuningMode)
        ensures
            mode == TuningMode::Optimistic,
    {
        TuningMode::Optimistic
    }

    /// Rows are encoded for each split.
    pub fn realistic() -> (mode: TuningMode)
        ensures
            mode == TuningMode::Realistic,
    {
        TuningMode::Realistic
    }

    /// Whether rows are encoded once.
    pub fn is_optimistic(&self) -> (optimistic: bool)
        ensures
            optimistic == (*self == TuningMode::Optimistic),
    {
        match self {
            TuningMode::Optimistic => true,
            TuningMode::Realistic => false,
        }
    }

    /// Whether rows are encoded for each split.
    pub fn is_realistic(&self) -> (realistic: bool)
        ensures
            realistic == (*self == TuningMode::Realistic),
    {
        match self {
            TuningMode::Optimistic => false,
            TuningMode::Realistic => true,
        }
    }
}

/// The metric that decides which trial is best.
#[derive(Debug, Clone, Copy, PartialEq, Eq, Structural)]
pub enum OptimizationMetric {
    /// Loss on the validation rows.
    ValidationLoss,
    /// F1 score.
    F1Score,
    /// Area under the ROC curve.
    RocAuc,
    /// Rank correlation.
    RankIc,
}

impl Default for OptimizationMetric {
    fn default() -> (metric: OptimizationMetric)
        ensures
            metric == OptimizationMetric::ValidationLoss,
    {
        OptimizationMetric::ValidationLoss
    }
}

impl OptimizationMetric {
    /// The name of the metric.
    pub open spec fn text(self) -> Seq<char> {
        match self {
            OptimizationMetric::ValidationLoss => "validation_loss"@,
            OptimizationMetric::F1Score => "f1_score"@,
            OptimizationMetric::RocAuc => "roc_auc"@,
            OptimizationMetric::RankIc => "rank_ic"@,
        }
    }

    /// Whether a larger value is better: of all but the loss.
    pub fn higher_is_better(&self) -> (higher: bool)
        ensures
            higher == (*self != OptimizationMetric::ValidationLoss),
    {
        match self {
            OptimizationMetric::ValidationLoss => false,
            OptimizationMetric::F1Score => true,
            OptimizationMetric::RocAuc => true,
            OptimizationMetric::RankIc => true,
        }
    }

    /// The name of the metric.
    pub fn name(&self) -> (name: &'static str)
        ensures
            name@ == self.text(),
    {
        match self {
            OptimizationMetric::ValidationLoss => "validation_loss",
            OptimizationMetric::F1Score => "f1_score",
            OptimizationMetric::RocAuc => "roc_auc",
            OptimizationMetric::RankIc => "rank_ic",
        }
    }
}

/// What is predicted.
#[derive(Debug, Clone, Copy, PartialEq, Eq, Structural)]
pub enum TaskType {
    /// A number.
    Regression,
    /// One of two classes.
    BinaryClassification,
    /// One of several classes.
    MultiClassClassification,
}

impl Default for TaskType {
    fn default() -> (task: TaskType)
        ensures
            task == TaskType::BinaryClassification,
    {
        TaskType::BinaryClassification
    }
}

impl TaskType {
    /// Whether a class is predicted.
    pub fn is_classification(&self) -> (is: bool)
        ensures
            is == (*self != TaskType::Regression),
    {
        match self {
            TaskType::Regression => false,
            TaskType::BinaryClassification => true,
            TaskType::MultiClassClassification => true,
        }
    }

    /// Whether one of two classes is predicted.
    pub fn is_binary(&self) -> (is: bool)
        ensures
            is == (*self == TaskType::BinaryClassification),
    {
        match self {
            TaskType::Regression => false,
            TaskType::BinaryClassification => true,
            TaskType::MultiClassClassification => false,
        }
    }

    /// Whether a number is predicted.
    pub fn is_regression(&self) -> (is: bool)
        ensures
            is == (*self == TaskType::Regression),
    {
        match self {
            TaskType::Regression => true,
            TaskType::BinaryClassification => false,
            TaskType::MultiClassClassification => false,
        }
    }
}

/// How much a search spends.
#[derive(Debug, Clone, Copy, PartialEq, Eq, Structural)]
pub enum TunerPreset {
    /// One iteration, to see that everything runs.
    SmokeTest,
    /// Two iterations.
    Quick,
    /// Five iterations.
    Balanced,
    /// Seven iterations.
    Thorough,
}

/// The settings of a search.
#[derive(Debug)]
pub struct TunerConfig {
    /// What is tuned.
    pub space: ParameterSpace,
    /// Most zoom iterations.
    pub n_iterations: usize,
    /// Share of the range that the first iteration looks at.
    pub initial_spread: F32,
    /// Share of the spread that the next iteration keeps.
    pub zoom_factor: F32,
    /// How candidates are placed.
    pub grid_strategy: GridStrategy,
    /// How a candidate is evaluated.
    pub eval_strategy: EvalStrategy,
    /// Whether encoding sees the rows that validate a trial.
    pub tuning_mode: TuningMode,
    /// Whether trials run side by side where the backend allows it.
    pub parallel_trials: bool,
    /// Most trials side by side; 0 leaves it open.
    pub n_parallel: usize,
    /// Boosting rounds of a trial.
    pub num_rounds: usize,
    /// Rounds without improvement before a trial stops; 0 for never.
    pub early_stopping_rounds: usize,
    /// Share of the rows that early stopping looks at.
    pub validation_ratio: F32,
    /// Relative improvement below which the search stops.
    pub improvement_threshold: F32,
    /// F1 score below which a classification search goes on.
    pub min_f1_score: F32,
    /// Seed of the samples.
    pub seed: u64,
    /// Whether progress is printed.
    pub verbose: bool,
    /// What decides which trial is best.
    pub optimization_metric: OptimizationMetric,
    /// What is predicted.
    pub task_type: TaskType,
    /// Where results are written.
    pub output_dir: Option<String>,
    /// Formats in which the best model is saved.
    pub save_model_formats: Vec<ModelFormat>,
}

/// What a preset sets.
pub struct PresetSettings {
    /// Most zoom iterations.
    pub n_iterations: usize,
    /// Boosting rounds of a trial.
    pub num_rounds: usize,
    /// Rounds without improvement before a trial stops.
    pub early_stopping_rounds: usize,
    /// Relative improvement below which the search stops.
    pub improvement_threshold: F32,
}

/// What a preset sets.
pub open spec fn preset_settings(preset: TunerPreset) -> PresetSettings {
    match preset {
        TunerPreset::SmokeTest => PresetSettings {
            n_iterations: SMOKE_TEST_N_ITERATIONS,
            num_rounds: QUICK_TUNER_ROUNDS,
            early_stopping_rounds: QUICK_TUNER_EARLY_STOP,
            improvement_threshold: F32 { bits: QUICK_IMPROVEMENT_THRESHOLD },
        },
        TunerPreset::Quick => PresetSettings {
            n_iterations: QUICK_N_ITERATIONS,
            num_rounds: QUICK_TUNER_ROUNDS,
            early_stopping_rounds: QUICK_TUNER_EARLY_STOP,
            improvement_threshold: F32 { bits: QUICK_IMPROVEMENT_THRESHOLD },
        },
        TunerPreset::Balanced => PresetSettings {
            n_iterations: DEFAULT_N_ITERATIONS,
            num_rounds: DEFAULT_TUNER_ROUNDS,
            early_stopping_rounds: DEFAULT_TUNER_EARLY_STOP,
            improvement_threshold: F32 { bits: DEFAULT_IMPROVEMENT_THRESHOLD },
        },
        TunerPreset::Thorough => PresetSettings {
            n_iterations: THOROUGH_N_ITERATIONS,
            num_rounds: THOROUGH_TUNER_ROUNDS,
            early_stopping_rounds: THOROUGH_TUNER_EARLY_STOP,
            improvement_threshold: F32 { bits: THOROUGH_IMPROVEMENT_THRESHOLD },
        },
    }
}

impl Default for TunerConfig {
    fn default() -> (config: TunerConfig)
        ensures
            config.is_default(),
    {
        TunerConfig {
            space: ParameterSpace::with_preset(SpacePreset::Regression),
            n_iterations: DEFAULT_N_ITERATIONS,
            initial_spread: F32 { bits: DEFAULT_INITIAL_SPREAD },
            zoom_factor: F32 { bits: DEFAULT_ZOOM_FACTOR },
            grid_strategy: GridStrategy::Cartesian { points_per_dim: 3 },
            eval_strategy: EvalStrategy::Holdout { validation_ratio: F32 { bits: DEFAULT_TUNER_VAL_RATIO }, folds: 1 },
            tuning_mode: TuningMode::Optimistic,
            parallel_trials: true,
            n_parallel: 0,
            num_rounds: DEFAULT_TUNER_ROUNDS,
            early_stopping_rounds: DEFAULT_TUNER_EARLY_STOP,
            validation_ratio: F32 { bits: DEFAULT_TUNER_VAL_RATIO },
            improvement_threshold: F32 { bits: DEFAULT_IMPROVEMENT_THRESHOLD },
            min_f1_score: F32 { bits: DEFAULT_MIN_F1_SCORE },
            seed: DEFAULT_SEED,
            verbose: true,
            optimization_metric: OptimizationMetric::ValidationLoss,
            task_type: TaskType::Regression,
            output_dir: None,
            save_model_formats: Vec::new(),
        }
    }
}

impl TunerConfig {
    /// Whether every setting is the default one.
    pub open spec fn is_default(self) -> bool {
        &&& self.space@ == preset_params(SpacePreset::Regression)
        &&& self.n_iterations == DEFAULT_N_ITERATIONS
        &&& self.initial_spread == (F32 { bits: DEFAULT_INITIAL_SPREAD })
        &&& self.zoom_factor == (F32 { bits: DEFAULT_ZOOM_FACTOR })
        &&& self.grid_strategy == (GridStrategy::Cartesian { points_per_dim: 3 })
        &&& self.eval_strategy == (EvalStrategy::Holdout {
            validation_ratio: F32 { bits: DEFAULT_TUNER_VAL_RATIO },
            folds: 1,
        })
        &&& self.tuning_mode == TuningMode::Optimistic
        &&& self.parallel_trials
        &&& self.n_parallel == 0
        &&& self.num_rounds == DEFAULT_TUNER_ROUNDS
        &&& self.early_stopping_rounds == DEFAULT_TUNER_EARLY_STOP
        &&& self.validation_ratio == (F32 { bits: DEFAULT_TUNER_VAL_RATIO })
        &&& self.improvement_threshold == (F32 { bits: DEFAULT_IMPROVEMENT_THRESHOLD })
        &&& self.min_f1_score == (F32 { bits: DEFAULT_MIN_F1_SCORE })
        &&& self.seed == DEFAULT_SEED
        &&& self.verbose
        &&& self.optimization_metric == OptimizationMetric::ValidationLoss
        &&& self.task_type == TaskType::Regression
        &&& self.output_dir is None
        &&& self.save_model_formats@.len() == 0
    }

    /// The first thing that is wrong with the settings.
    pub open spec fn problem(self) -> Option<Problem> {
        if self.n_iterations == 0 {
            broken("n_iterations must be > 0"@)
        } else if self.initial_spread.at_most(F32 { bits: F32_ZERO }) || (F32 { bits: F32_ONE }).less(self.initial_spread) {
            broken_by("initial_spread must be in (0, 1]"@, self.initial_spread)
        } else if outside_unit(self.zoom_factor) {
            broken_by("zoom_factor must be in (0, 1)"@, self.zoom_factor)
        } else if self.num_rounds == 0 {
            broken("num_rounds must be > 0"@)
        } else {
            match self.grid_strategy.problem() {
                Some(message) => broken(message),
                None => self.eval_strategy.problem(),
            }
        }
    }

    /// The default settings.
    pub fn new() -> (config: TunerConfig)
        ensures
            config.is_default(),
    {
        TunerConfig::default()
    }

    /// Sets what a preset sets.
    pub fn with_preset(self, preset: TunerPreset) -> (config: TunerConfig)
        ensures
            ({
                let settings = preset_settings(preset);
                config == (TunerConfig {
                    n_iterations: settings.n_iterations,
                    num_rounds: settings.num_rounds,
                    early_stopping_rounds: settings.early_stopping_rounds,
                    improvement_threshold: settings.improvement_threshold,
                    ..self
                })
            }),
    {
        match preset {
            TunerPreset::SmokeTest => TunerConfig {
                n_iterations: SMOKE_TEST_N_ITERATIONS,
                num_rounds: QUICK_TUNER_ROUNDS,
                early_stopping_rounds: QUICK_TUNER_EARLY_STOP,
                improvement_threshold: F32 { bits: QUICK_IMPROVEMENT_THRESHOLD },
                ..self
            },
            TunerPreset::Quick => TunerConfig {
                n_iterations: QUICK_N_ITERATIONS,
                num_rounds: QUICK_TUNER_ROUNDS,
                early_stopping_rounds: QUICK_TUNER_EARLY_STOP,
                improvement_threshold: F32 { bits: QUICK_IMPROVEMENT_THRESHOLD },
                ..self
            },
            TunerPreset::Balanced => TunerConfig {
                n_iterations: DEFAULT_N_ITERATIONS,
                num_rounds: DEFAULT_TUNER_ROUNDS,
                early_stopping_rounds: DEFAULT_TUNER_EARLY_STOP,
                improvement_threshold: F32 { bits: DEFAULT_IMPROVEMENT_THRESHOLD },
                ..self
            },
            TunerPreset::Thorough => TunerConfig {
                n_iterations: THOROUGH_N_ITERATIONS,
                num_rounds: THOROUGH_TUNER_ROUNDS,
                early_stopping_rounds: THOROUGH_TUNER_EARLY_STOP,
                improvement_threshold: F32 { bits: THOROUGH_IMPROVEMENT_THRESHOLD },
                ..self
            },
        }
    }

    /// Sets what is tuned.
    pub fn with_space(self, space: ParameterSpace) -> (config: TunerConfig)
        ensures
            config == (TunerConfig { space, ..self }),
    {
        TunerConfig { space, ..self }
    }

    /// Sets the most zoom iterations.
    pub fn with_iterations(self, n: usize) -> (config: TunerConfig)
        ensures
            config == (TunerConfig { n_iterations: n, ..self }),
    {
        TunerConfig { n_iterations: n, ..self }
    }

    /// Sets the share of the range that the first iteration looks at.
    pub fn with_initial_spread(self, spread: F32) -> (config: TunerConfig)
        ensures
            config == (TunerConfig { initial_spread: spread, ..self }),
    {
        TunerConfig { initial_spread: spread, ..self }
    }

    /// Sets the share of the spread that the next iteration keeps.
    pub fn with_zoom_factor(self, factor: F32) -> (config: TunerConfig)
        ensures
            config == (TunerConfig { zoom_factor: factor, ..self }),
    {
        TunerConfig { zoom_factor: factor, ..self }
    }

    /// Sets how candidates are placed.
    pub fn with_grid_strategy(self, strategy: GridStrategy) -> (config: TunerConfig)
        ensures
            config == (TunerConfig { grid_strategy: strategy, ..self }),
    {
        TunerConfig { grid_strategy: strategy, ..self }
    }

    /// Sets how a candidate is evaluated.
    pub fn with_eval_strategy(self, strategy: EvalStrategy) -> (config: TunerConfig)
        ensures
            config == (TunerConfig { eval_strategy: strategy, ..self }),
    {
        TunerConfig { eval_strategy: strategy, ..self }
    }

    /// Sets whether trials run side by side.
    pub fn with_parallel(self, enabled: bool) -> (config: TunerConfig)
        ensures
            config == (TunerConfig { parallel_trials: enabled, ..self }),
    {
        TunerConfig { parallel_trials: enabled, ..self }
    }

    /// Sets the most trials side by side.
    pub fn with_n_parallel(self, n: usize) -> (config: TunerConfig)
        ensures
            config == (TunerConfig { n_parallel: n, ..self }),
    {
        TunerConfig { n_parallel: n, ..self }
    }

    /// Sets the boosting rounds of a trial.
    pub fn with_num_rounds(self, rounds: usize) -> (config: TunerConfig)
        ensures
            config == (TunerConfig { num_rounds: rounds, ..self }),
    {
        TunerConfig { num_rounds: rounds, ..self }
    }

    /// Sets when a trial stops, and on which share of the rows that is decided.
    pub fn with_early_stopping(self, rounds: usize, validation_ratio: F32) -> (config: TunerConfig)
        ensures
            config == (TunerConfig { early_stopping_rounds: rounds, validation_ratio, ..self }),
    {
        TunerConfig { early_stopping_rounds: rounds, validation_ratio, ..self }
    }

    /// Lets every trial run to its end.
    pub fn without_early_stopping(self) -> (config: TunerConfig)
        ensures
            config == (TunerConfig { early_stopping_rounds: 0, ..self }),
    {
        TunerConfig { early_stopping_rounds: 0, ..self }
    }

    /// Sets the relative improvement below which the search stops.
    pub fn with_improvement_threshold(self, threshold: F32) -> (config: TunerConfig)
        ensures
            config == (TunerConfig { improvement_threshold: threshold, ..self }),
    {
        TunerConfig { improvement_threshold: threshold, ..self }
    }

    /// Sets the F1 score below which a classification search goes on.
    pub fn with_min_f1_score(self, min_f1: F32) -> (config: TunerConfig)
        ensures
            config == (TunerConfig { min_f1_score: min_f1, ..self }),
    {
        TunerConfig { min_f1_score: min_f1, ..self }
    }

    /// Sets whether encoding sees the rows that validate a trial.
    pub fn with_tuning_mode(self, mode: TuningMode) -> (config: TunerConfig)
        ensures
            config == (TunerConfig { tuning_mode: mode, ..self }),
    {
        TunerConfig { tuning_mode: mode, ..self }
    }

    /// Encodes rows once.
    pub fn optimistic(self) -> (config: TunerConfig)
        ensures
            config == (TunerConfig { tuning_mode: TuningMode::Optimistic, ..self }),
    {
        TunerConfig { tuning_mode: TuningMode::Optimistic, ..self }
    }

    /// Encodes rows for each split.
    pub fn realistic(self) -> (config: TunerConfig)
        ensures
            config == (TunerConfig { tuning_mode: TuningMode::Realistic, ..self }),
    {
        TunerConfig { tuning_mode: TuningMode::Realistic, ..self }
    }

    /// Sets the seed of the samples.
    pub fn with_seed(self, seed: u64) -> (config: TunerConfig)
        ensures
            config == (TunerConfig { seed, ..self }),
    {
        TunerConfig { seed, ..self }
    }

    /// Sets whether progress is printed.
    pub fn with_verbose(self, verbose: bool) -> (config: TunerConfig)
        ensures
            config == (TunerConfig { verbose, ..self }),
    {
        TunerConfig { verbose, ..self }
    }

    /// Sets what decides which trial is best.
    pub fn with_optimization_metric(self, metric: OptimizationMetric) -> (config: TunerConfig)
        ensures
            config == (TunerConfig { optimization_metric: metric, ..self }),
    {
        TunerConfig { optimization_metric: metric, ..self }
    }

    /// Sets what is predicted.
    pub fn with_task_type(self, task_type: TaskType) -> (config: TunerConfig)
        ensures
            config == (TunerConfig { task_type, ..self }),
    {
        TunerConfig { task_type, ..self }
    }

    /// Sets the formats in which the best model is saved.
    pub fn with_save_model_formats(self, formats: Vec<ModelFormat>) -> (config: TunerConfig)
        ensures
            config == (TunerConfig { save_model_formats: formats, ..self }),
    {
        TunerConfig { save_model_formats: formats, ..self }
    }

    /// Sets where results are written.
    pub fn with_output_dir(self, path: &str) -> (config: TunerConfig)
        ensures
            config.output_dir matches Some(dir) && dir@ == path@,
            config == (TunerConfig { output_dir: config.output_dir, ..self }),
    {
        TunerConfig { output_dir: Some(path.to_owned()), ..self }
    }

    /// Whether the search can be run.
    pub fn validate(&self) -> (checked: Result<(), ConfigError>)
        ensures
            reports(checked, self.problem()),
    {
        if self.n_iterations == 0 {
            return Err(rule_error("n_iterations must be > 0"));
        }
        let zero = F32 { bits: F32_ZERO };
        let one = F32 { bits: F32_ONE };
        if self.initial_spread.le(zero) || one.lt(self.initial_spread) {
            return Err(
                ConfigError::OutOfRange { rule: "initial_spread must be in (0, 1]", got: self.initial_spread },
            );
        }
        if is_outside_unit(self.zoom_factor) {
            return Err(ConfigError::OutOfRange { rule: "zoom_factor must be in (0, 1)", got: self.zoom_factor });
        }
        if self.num_rounds == 0 {
            return Err(rule_error("num_rounds must be > 0"));
        }
        match self.grid_strategy.validate() {
            Err(message) => Err(ConfigError::Rule { text: message }),
            Ok(_) => self.eval_strategy.validate(),
        }
    }

    /// How many trials all iterations take at most.
    pub fn estimated_trials(&self) -> (count: usize)
        requires
            self.grid_strategy.candidates(self.space@.len()) <= usize::MAX,
            self.grid_strategy.candidates(self.space@.len()) * self.n_iterations <= usize::MAX,
        ensures
            count == self.grid_strategy.candidates(self.space@.len()) * self.n_iterations,
    {
        let per_iteration: usize = self.grid_strategy.num_candidates(self.space.len());
        per_iteration * self.n_iterations
    }
}

/// A valid grid strategy places at least one candidate.
pub proof fn law_valid_grid_has_candidates(strategy: GridStrategy, num_params: nat)
    requires
        strategy.problem() is None,
    ensures
        strategy.candidates(num_params) >= 1,
{
    match strategy {
        GridStrategy::Cartesian { points_per_dim } => {
            vstd::arithmetic::power::lemma_pow_positive(points_per_dim as int, num_params);
        },
        _ => {},
    }
}

/// The default settings are valid, and a preset keeps valid settings valid.
pub proof fn law_presets_keep_settings_valid(config: TunerConfig, preset: TunerPreset)
    ensures
        config.is_default() ==> config.problem() is None,
        config.problem() is None ==> (TunerConfig {
            n_iterations: preset_settings(preset).n_iterations,
            num_rounds: preset_settings(preset).num_rounds,
            early_stopping_rounds: preset_settings(preset).early_stopping_rounds,
            improvement_threshold: preset_settings(preset).improvement_threshold,
            ..config
        }).problem() is None,
{
}

} // verus!
