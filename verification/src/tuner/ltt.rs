//! Tuning a linear model followed by trees, one after the other: the trees are
//! trained on what the linear model leaves.

use crate::defaults::{
    DEFAULT_COLSAMPLE_GRID, DEFAULT_EXTRAPOLATION_DAMPING, DEFAULT_EXTRAPOLATION_DAMPING_GRID, DEFAULT_L1_RATIO,
    DEFAULT_L1_RATIO_GRID, DEFAULT_LAMBDA, DEFAULT_LAMBDA_GRID, DEFAULT_LEARNING_RATE, DEFAULT_LR_GRID,
    DEFAULT_LTT_SHRINKAGE, DEFAULT_LTT_VAL_RATIO, DEFAULT_MAX_DEPTH, DEFAULT_MAX_DEPTH_GRID, DEFAULT_ROUNDS_GRID,
    DEFAULT_SEED, DEFAULT_SHRINKAGE_GRID, DEFAULT_SUBSAMPLE_GRID, QUICK_COLSAMPLE_GRID,
    QUICK_EXTRAPOLATION_DAMPING_GRID, QUICK_L1_RATIO_GRID, QUICK_LAMBDA_GRID, QUICK_LR_GRID, QUICK_MAX_DEPTH_GRID,
    QUICK_ROUNDS_GRID, QUICK_SHRINKAGE_GRID, QUICK_SUBSAMPLE_GRID, THOROUGH_COLSAMPLE_GRID,
    THOROUGH_EXTRAPOLATION_DAMPING_GRID, THOROUGH_L1_RATIO_GRID, THOROUGH_LAMBDA_GRID, THOROUGH_LR_GRID,
    THOROUGH_MAX_DEPTH_GRID, THOROUGH_ROUNDS_GRID, THOROUGH_SHRINKAGE_GRID, THOROUGH_SUBSAMPLE_GRID,
};
use crate::float::{F32, F32_ONE, F32_ZERO};
use crate::fractions::{FOUR_FIFTHS, HALF, THREE, THREE_TWENTIETHS, TWENTIETH};
use crate::tuner::config::{broken, broken_by, is_outside_unit, outside_unit, reports, rule_error, ConfigError, Problem};
use std::time::Duration;
use vstd::prelude::*;

verus! {

/// The settings of the linear model.
#[derive(Debug, Clone, Copy, PartialEq, Eq, Structural)]
pub struct LinearHyperparams {
    /// Regularization.
    pub lambda: F32,
    /// Share of the L1 penalty.
    pub l1_ratio: F32,
    /// Weight of the linear model before the trees.
    pub shrinkage_factor: F32,
    /// Damping outside the training range.
    pub extrapolation_damping: F32,
}

/// Kinds of penalty.
#[derive(Debug, Clone, Copy, PartialEq, Eq, Structural)]
pub enum LinearHyperparamsPreset {
    /// L2 only.
    Ridge,
    /// L1 only.
    Lasso,
    /// Half of each.
    ElasticNet,
}

impl Default for LinearHyperparams {
    fn default() -> (params: LinearHyperparams)
        ensures
            params == default_linear(),
    {
        LinearHyperparams {
            lambda: F32 { bits: DEFAULT_LAMBDA },
            l1_ratio: F32 { bits: DEFAULT_L1_RATIO },
            shrinkage_factor: F32 { bits: DEFAULT_LTT_SHRINKAGE },
            extrapolation_damping: F32 { bits: DEFAULT_EXTRAPOLATION_DAMPING },
        }
    }
}

/// The default settings of the linear model.
pub open spec fn default_linear() -> LinearHyperparams {
    LinearHyperparams {
        lambda: F32 { bits: DEFAULT_LAMBDA },
        l1_ratio: F32 { bits: DEFAULT_L1_RATIO },
        shrinkage_factor: F32 { bits: DEFAULT_LTT_SHRINKAGE },
        extrapolation_damping: F32 { bits: DEFAULT_EXTRAPOLATION_DAMPING },
    }
}

/// What a linear learner is set to.
#[derive(Debug, Clone, Copy, PartialEq, Eq, Structural)]
pub struct LinearConfig {
    /// Regularization.
    pub lambda: F32,
    /// Share of the L1 penalty.
    pub l1_ratio: F32,
    /// Weight of the linear model before the trees.
    pub shrinkage_factor: F32,
    /// Damping outside the training range.
    pub extrapolation_damping: F32,
}

impl LinearHyperparams {
    /// The settings of a linear learner.
    pub fn to_config(&self) -> (config: LinearConfig)
        ensures
            config == (LinearConfig {
                lambda: self.lambda,
                l1_ratio: self.l1_ratio,
                shrinkage_factor: self.shrinkage_factor,
                extrapolation_damping: self.extrapolation_damping,
            }),
    {
        LinearConfig {
            lambda: self.lambda,
            l1_ratio: self.l1_ratio,
            shrinkage_factor: self.shrinkage_factor,
            extrapolation_damping: self.extrapolation_damping,
        }
    }

    /// Sets the kind of penalty.
    pub fn with_preset(self, preset: LinearHyperparamsPreset) -> (params: LinearHyperparams)
        ensures
            params == (LinearHyperparams {
                l1_ratio: F32 {
                    bits: match preset {
                        LinearHyperparamsPreset::Ridge => F32_ZERO,
                        LinearHyperparamsPreset::Lasso => F32_ONE,
                        LinearHyperparamsPreset::ElasticNet => HALF,
                    },
                },
                ..self
            }),
    {
        match preset {
            LinearHyperparamsPreset::Ridge => LinearHyperparams { l1_ratio: F32 { bits: F32_ZERO }, ..self },
            LinearHyperparamsPreset::Lasso => LinearHyperparams { l1_ratio: F32 { bits: F32_ONE }, ..self },
            LinearHyperparamsPreset::ElasticNet => LinearHyperparams { l1_ratio: F32 { bits: HALF }, ..self },
        }
    }
}

/// The settings of the trees.
#[derive(Debug, Clone, Copy, PartialEq, Eq, Structural)]
pub struct TreeHyperparams {
    /// Largest depth.
    pub max_depth: u32,
    /// Learning rate.
    pub learning_rate: F32,
    /// Boosting rounds.
    pub num_rounds: u32,
    /// Smallest hessian sum in a leaf.
    pub min_child_weight: F32,
    /// Share of the rows that a round uses.
    pub subsample: F32,
    /// Share of the features that a tree uses.
    pub colsample_bytree: F32,
}

/// Ready-made settings of the trees.
#[derive(Debug, Clone, Copy, PartialEq, Eq, Structural)]
pub enum TreeHyperparamsPreset {
    /// Shallow trees that learn slowly.
    Conservative,
    /// Deep trees that learn fast.
    Aggressive,
}

/// The default settings of the trees.
pub open spec fn default_tree() -> TreeHyperparams {
    TreeHyperparams {
        max_depth: DEFAULT_MAX_DEPTH,
        learning_rate: F32 { bits: DEFAULT_LEARNING_RATE },
        num_rounds: 500,
        min_child_weight: F32 { bits: F32_ONE },
        subsample: F32 { bits: F32_ONE },
        colsample_bytree: F32 { bits: F32_ONE },
    }
}

impl Default for TreeHyperparams {
    fn default() -> (params: TreeHyperparams)
        ensures
            params == default_tree(),
    {
        TreeHyperparams {
            max_depth: DEFAULT_MAX_DEPTH,
            learning_rate: F32 { bits: DEFAULT_LEARNING_RATE },
            num_rounds: 500,
            min_child_weight: F32 { bits: F32_ONE },
            subsample: F32 { bits: F32_ONE },
            colsample_bytree: F32 { bits: F32_ONE },
        }
    }
}

impl TreeHyperparams {
    /// Sets everything to ready-made settings.
    pub fn with_preset(self, preset: TreeHyperparamsPreset) -> (params: TreeHyperparams)
        ensures
            params == match preset {
                TreeHyperparamsPreset::Conservative => TreeHyperparams {
                    max_depth: 4,
                    learning_rate: F32 { bits: TWENTIETH },
                    num_rounds: 1000,
                    min_child_weight: F32 { bits: THREE },
                    subsample: F32 { bits: FOUR_FIFTHS },
                    colsample_bytree: F32 { bits: FOUR_FIFTHS },
                },
                TreeHyperparamsPreset::Aggressive => TreeHyperparams {
                    max_depth: 8,
                    learning_rate: F32 { bits: THREE_TWENTIETHS },
                    num_rounds: 500,
                    min_child_weight: F32 { bits: F32_ONE },
                    subsample: F32 { bits: F32_ONE },
                    colsample_bytree: F32 { bits: F32_ONE },
                },
            },
    {
        match preset {
            TreeHyperparamsPreset::Conservative => TreeHyperparams {
                max_depth: 4,
                learning_rate: F32 { bits: TWENTIETH },
                num_rounds: 1000,
                min_child_weight: F32 { bits: THREE },
                subsample: F32 { bits: FOUR_FIFTHS },
                colsample_bytree: F32 { bits: FOUR_FIFTHS },
            },
            TreeHyperparamsPreset::Aggressive => TreeHyperparams {
                max_depth: 8,
                learning_rate: F32 { bits: THREE_TWENTIETHS },
                num_rounds: 500,
                min_child_weight: F32 { bits: F32_ONE },
                subsample: F32 { bits: F32_ONE },
                colsample_bytree: F32 { bits: F32_ONE },
            },
        }
    }
}

/// The settings of both parts.
#[derive(Debug, Clone, Copy, PartialEq, Eq, Structural)]
pub struct LttConfig {
    /// The linear model.
    pub linear: LinearHyperparams,
    /// The trees.
    pub tree: TreeHyperparams,
}

impl Default for LttConfig {
    fn default() -> (config: LttConfig)
        ensures
            config == (LttConfig { linear: default_linear(), tree: default_tree() }),
    {
        LttConfig { linear: LinearHyperparams::default(), tree: TreeHyperparams::default() }
    }
}

/// How long each phase took.
#[derive(Debug, Clone, Copy, Default)]
pub struct PhaseTimes {
    /// The linear model.
    pub linear_phase: Duration,
    /// The trees.
    pub tree_phase: Duration,
    /// Both together.
    pub joint_phase: Duration,
}

/// A trial of the linear model.
#[derive(Debug, Clone, Copy, PartialEq, Eq, Structural)]
pub struct LinearTrial {
    /// Regularization.
    pub lambda: F32,
    /// Share of the L1 penalty.
    pub l1_ratio: F32,
    /// Share of the variance that is explained.
    pub r2: F32,
    /// Root of the mean of the squared errors.
    pub rmse: F32,
}

/// A trial of the trees.
#[derive(Debug, Clone, Copy, PartialEq, Eq, Structural)]
pub struct TreeTrial {
    /// Largest depth.
    pub max_depth: u32,
    /// Learning rate.
    pub learning_rate: F32,
    /// Number of trees.
    pub num_trees: u32,
    /// Root of the mean of the squared errors on what the linear model leaves.
    pub residual_rmse: F32,
}

/// A trial of both parts together.
#[derive(Debug, Clone, Copy, PartialEq, Eq, Structural)]
pub struct JointTrial {
    /// Damping outside the training range.
    pub extrapolation_damping: F32,
    /// Root of the mean of the squared errors.
    pub combined_rmse: F32,
}

/// All trials.
#[derive(Debug)]
pub struct LttTuningHistory {
    /// Trials of the linear model.
    pub linear_trials: Vec<LinearTrial>,
    /// Trials of the trees.
    pub tree_trials: Vec<TreeTrial>,
    /// Trials of both parts together.
    pub joint_trials: Vec<JointTrial>,
}

impl Default for LttTuningHistory {
    fn default() -> (history: LttTuningHistory)
        ensures
            history.linear_trials@.len() == 0,
            history.tree_trials@.len() == 0,
            history.joint_trials@.len() == 0,
    {
        LttTuningHistory { linear_trials: Vec::new(), tree_trials: Vec::new(), joint_trials: Vec::new() }
    }
}

/// What tuning comes to.
#[derive(Debug)]
pub struct LttTuningResult {
    /// The best linear model.
    pub linear_params: LinearHyperparams,
    /// The best trees.
    pub tree_params: TreeHyperparams,
    /// Share of the variance that the linear model explains.
    pub linear_r2: F32,
    /// Root of the mean of the squared errors of both together.
    pub final_rmse: F32,
    /// How long it took.
    pub total_time: Duration,
    /// How long each phase took.
    pub phase_times: PhaseTimes,
    /// All trials.
    pub history: LttTuningHistory,
}

/// What is tried.
#[derive(Debug)]
pub struct LttTunerConfig {
    /// Share of the rows that are held out.
    pub val_ratio: F32,
    /// Regularizations.
    pub lambda_values: Vec<F32>,
    /// L1 shares.
    pub l1_ratio_values: Vec<F32>,
    /// Depths.
    pub max_depth_values: Vec<u32>,
    /// Learning rates.
    pub learning_rate_values: Vec<F32>,
    /// Boosting rounds.
    pub num_rounds_values: Vec<u32>,
    /// Row shares.
    pub subsample_values: Vec<F32>,
    /// Column shares.
    pub colsample_values: Vec<F32>,
    /// Weights of the linear model.
    pub shrinkage_factor_values: Vec<F32>,
    /// Dampings.
    pub extrapolation_damping_values: Vec<F32>,
    /// Whether dampings are tried.
    pub enable_joint_refinement: bool,
    /// Iterations of the search for the trees: a grid, and a zoom for each
    /// further one.
    pub tree_tuner_iterations: usize,
    /// Where results are written.
    pub output_dir: Option<String>,
    /// Seed of everything that draws lots.
    pub seed: u64,
}

/// How much is tried.
#[derive(Debug, Clone, Copy, PartialEq, Eq, Structural)]
pub enum LttTunerPreset {
    /// Few values, no dampings.
    Quick,
    /// The default.
    Standard,
    /// Many values.
    Thorough,
    /// Weights of the linear model only.
    ShrinkageOnly,
}

/// Numbers from their bits.
pub open spec fn numbers(bits: Seq<u32>) -> Seq<F32> {
    bits.map_values(|b: u32| F32 { bits: b })
}

/// Numbers from their bits.
fn floats(bits: &[u32]) -> (values: Vec<F32>)
    ensures
        values@ == numbers(bits@),
{
    let count: usize = bits.len();
    let mut values: Vec<F32> = Vec::new();
    let mut i: usize = 0;
    while i < count
        invariant
            i <= count == bits@.len(),
            values@ == numbers(bits@).take(i as int),
        decreases count - i,
    {
        values.push(F32 { bits: bits[i] });
        i = i + 1;
        assert(values@ =~= numbers(bits@).take(i as int));
    }
    assert(numbers(bits@).take(count as int) =~= numbers(bits@));
    values
}

/// A copy of some whole numbers.
fn copied(items: &[u32]) -> (copy: Vec<u32>)
    ensures
        copy@ == items@,
{
    let count: usize = items.len();
    let mut copy: Vec<u32> = Vec::new();
    let mut i: usize = 0;
    while i < count
        invariant
            i <= count == items@.len(),
            copy@ == items@.take(i as int),
        decreases count - i,
    {
        copy.push(items[i]);
        i = i + 1;
        assert(copy@ =~= items@.take(i as int));
    }
    assert(items@.take(count as int) =~= items@);
    copy
}

/// A single number.
fn only(value: F32) -> (values: Vec<F32>)
    ensures
        values@ == seq![value],
{
    let mut values: Vec<F32> = Vec::new();
    values.push(value);
    assert(values@ =~= seq![value]);
    values
}

/// A single whole number.
fn only_whole(value: u32) -> (values: Vec<u32>)
    ensures
        values@ == seq![value],
{
    let mut values: Vec<u32> = Vec::new();
    values.push(value);
    assert(values@ =~= seq![value]);
    values
}

/// What is tried under a preset.
pub struct Grids {
    /// Regularizations.
    pub lambda: Seq<F32>,
    /// L1 shares.
    pub l1_ratio: Seq<F32>,
    /// Depths.
    pub max_depth: Seq<u32>,
    /// Learning rates.
    pub learning_rate: Seq<F32>,
    /// Boosting rounds.
    pub num_rounds: Seq<u32>,
    /// Row shares.
    pub subsample: Seq<F32>,
    /// Column shares.
    pub colsample: Seq<F32>,
    /// Weights of the linear model.
    pub shrinkage: Seq<F32>,
    /// Dampings.
    pub damping: Seq<F32>,
    /// Whether dampings are tried.
    pub joint: bool,
    /// Zoom iterations of the search for the trees.
    pub iterations: usize,
}

/// What is tried under a preset.
pub open spec fn preset_grids(preset: LttTunerPreset) -> Grids {
    match preset {
        LttTunerPreset::Quick => Grids {
            lambda: numbers(QUICK_LAMBDA_GRID@),
            l1_ratio: numbers(QUICK_L1_RATIO_GRID@),
            max_depth: QUICK_MAX_DEPTH_GRID@,
            learning_rate: numbers(QUICK_LR_GRID@),
            num_rounds: QUICK_ROUNDS_GRID@,
            subsample: numbers(QUICK_SUBSAMPLE_GRID@),
            colsample: numbers(QUICK_COLSAMPLE_GRID@),
            shrinkage: numbers(QUICK_SHRINKAGE_GRID@),
            damping: numbers(QUICK_EXTRAPOLATION_DAMPING_GRID@),
            joint: false,
            iterations: 1,
        },
        LttTunerPreset::Standard => Grids {
            lambda: numbers(DEFAULT_LAMBDA_GRID@),
            l1_ratio: numbers(DEFAULT_L1_RATIO_GRID@),
            max_depth: DEFAULT_MAX_DEPTH_GRID@,
            learning_rate: numbers(DEFAULT_LR_GRID@),
            num_rounds: DEFAULT_ROUNDS_GRID@,
            subsample: numbers(DEFAULT_SUBSAMPLE_GRID@),
            colsample: numbers(DEFAULT_COLSAMPLE_GRID@),
            shrinkage: numbers(DEFAULT_SHRINKAGE_GRID@),
            damping: numbers(DEFAULT_EXTRAPOLATION_DAMPING_GRID@),
            joint: true,
            iterations: 2,
        },
        LttTunerPreset::Thorough => Grids {
            lambda: numbers(THOROUGH_LAMBDA_GRID@),
            l1_ratio: numbers(THOROUGH_L1_RATIO_GRID@),
            max_depth: THOROUGH_MAX_DEPTH_GRID@,
            learning_rate: numbers(THOROUGH_LR_GRID@),
            num_rounds: THOROUGH_ROUNDS_GRID@,
            subsample: numbers(THOROUGH_SUBSAMPLE_GRID@),
            colsample: numbers(THOROUGH_COLSAMPLE_GRID@),
            shrinkage: numbers(THOROUGH_SHRINKAGE_GRID@),
            damping: numbers(THOROUGH_EXTRAPOLATION_DAMPING_GRID@),
            joint: true,
            iterations: 3,
        },
        LttTunerPreset::ShrinkageOnly => Grids {
            lambda: seq![default_linear().lambda],
            l1_ratio: seq![default_linear().l1_ratio],
            max_depth: seq![default_tree().max_depth],
            learning_rate: seq![default_tree().learning_rate],
            num_rounds: seq![default_tree().num_rounds],
            subsample: seq![default_tree().subsample],
            colsample: seq![default_tree().colsample_bytree],
            shrinkage: numbers(DEFAULT_SHRINKAGE_GRID@),
            damping: numbers(DEFAULT_EXTRAPOLATION_DAMPING_GRID@),
            joint: false,
            iterations: 2,
        },
    }
}

impl LttTunerConfig {
    /// Whether everything but where results are written is as a preset has it.
    pub open spec fn is_preset(self, preset: LttTunerPreset) -> bool {
        let grids = preset_grids(preset);
        &&& self.val_ratio == (F32 { bits: DEFAULT_LTT_VAL_RATIO })
        &&& self.lambda_values@ == grids.lambda
        &&& self.l1_ratio_values@ == grids.l1_ratio
        &&& self.max_depth_values@ == grids.max_depth
        &&& self.learning_rate_values@ == grids.learning_rate
        &&& self.num_rounds_values@ == grids.num_rounds
        &&& self.subsample_values@ == grids.subsample
        &&& self.colsample_values@ == grids.colsample
        &&& self.shrinkage_factor_values@ == grids.shrinkage
        &&& self.extrapolation_damping_values@ == grids.damping
        &&& self.enable_joint_refinement == grids.joint
        &&& self.tree_tuner_iterations == grids.iterations
        &&& self.seed == DEFAULT_SEED
    }

    /// The first thing that is wrong.
    pub open spec fn problem(self) -> Option<Problem> {
        if self.val_ratio.nan() || outside_unit(self.val_ratio) {
            broken_by("val_ratio must be in (0.0, 1.0)"@, self.val_ratio)
        } else if self.lambda_values@.len() == 0 {
            broken("lambda_values cannot be empty"@)
        } else if self.l1_ratio_values@.len() == 0 {
            broken("l1_ratio_values cannot be empty"@)
        } else if self.max_depth_values@.len() == 0 {
            broken("max_depth_values cannot be empty"@)
        } else if self.learning_rate_values@.len() == 0 {
            broken("learning_rate_values cannot be empty"@)
        } else if self.num_rounds_values@.len() == 0 {
            broken("num_rounds_values cannot be empty"@)
        } else if self.shrinkage_factor_values@.len() == 0 {
            broken("shrinkage_factor_values cannot be empty"@)
        } else if self.enable_joint_refinement && self.extrapolation_damping_values@.len() == 0 {
            broken("extrapolation_damping_values cannot be empty when joint refinement is enabled"@)
        } else {
            None
        }
    }
}

impl Default for LttTunerConfig {
    fn default() -> (config: LttTunerConfig)
        ensures
            config.is_preset(LttTunerPreset::Standard),
            config.output_dir is None,
    {
        LttTunerConfig {
            val_ratio: F32 { bits: DEFAULT_LTT_VAL_RATIO },
            lambda_values: floats(DEFAULT_LAMBDA_GRID.as_slice()),
            l1_ratio_values: floats(DEFAULT_L1_RATIO_GRID.as_slice()),
            max_depth_values: copied(DEFAULT_MAX_DEPTH_GRID.as_slice()),
            learning_rate_values: floats(DEFAULT_LR_GRID.as_slice()),
            num_rounds_values: copied(DEFAULT_ROUNDS_GRID.as_slice()),
            subsample_values: floats(DEFAULT_SUBSAMPLE_GRID.as_slice()),
            colsample_values: floats(DEFAULT_COLSAMPLE_GRID.as_slice()),
            shrinkage_factor_values: floats(DEFAULT_SHRINKAGE_GRID.as_slice()),
            extrapolation_damping_values: floats(DEFAULT_EXTRAPOLATION_DAMPING_GRID.as_slice()),
            enable_joint_refinement: true,
            tree_tuner_iterations: 2,
            output_dir: None,
            seed: DEFAULT_SEED,
        }
    }
}

impl LttTunerConfig {
    /// Sets where results are written.
    pub fn with_output_dir(self, dir: String) -> (config: LttTunerConfig)
        ensures
            config == (LttTunerConfig { output_dir: Some(dir), ..self }),
    {
        LttTunerConfig { output_dir: Some(dir), ..self }
    }

    /// Sets everything but where results are written to a preset.
    pub fn with_preset(self, preset: LttTunerPreset) -> (config: LttTunerConfig)
        ensures
            config.is_preset(preset),
            config.output_dir == self.output_dir,
    {
        let output_dir = self.output_dir;
        match preset {
            LttTunerPreset::Quick => LttTunerConfig {
                val_ratio: F32 { bits: DEFAULT_LTT_VAL_RATIO },
                lambda_values: floats(QUICK_LAMBDA_GRID.as_slice()),
                l1_ratio_values: floats(QUICK_L1_RATIO_GRID.as_slice()),
                max_depth_values: copied(QUICK_MAX_DEPTH_GRID.as_slice()),
                learning_rate_values: floats(QUICK_LR_GRID.as_slice()),
                num_rounds_values: copied(QUICK_ROUNDS_GRID.as_slice()),
                subsample_values: floats(QUICK_SUBSAMPLE_GRID.as_slice()),
                colsample_values: floats(QUICK_COLSAMPLE_GRID.as_slice()),
                shrinkage_factor_values: floats(QUICK_SHRINKAGE_GRID.as_slice()),
                extrapolation_damping_values: floats(QUICK_EXTRAPOLATION_DAMPING_GRID.as_slice()),
                enable_joint_refinement: false,
                tree_tuner_iterations: 1,
                output_dir,
                seed: DEFAULT_SEED,
            },
            LttTunerPreset::Standard => {
                let config = LttTunerConfig::default();
                LttTunerConfig { output_dir, ..config }
            },
            LttTunerPreset::Thorough => LttTunerConfig {
                val_ratio: F32 { bits: DEFAULT_LTT_VAL_RATIO },
                lambda_values: floats(THOROUGH_LAMBDA_GRID.as_slice()),
                l1_ratio_values: floats(THOROUGH_L1_RATIO_GRID.as_slice()),
                max_depth_values: copied(THOROUGH_MAX_DEPTH_GRID.as_slice()),
                learning_rate_values: floats(THOROUGH_LR_GRID.as_slice()),
                num_rounds_values: copied(THOROUGH_ROUNDS_GRID.as_slice()),
                subsample_values: floats(THOROUGH_SUBSAMPLE_GRID.as_slice()),
                colsample_values: floats(THOROUGH_COLSAMPLE_GRID.as_slice()),
                shrinkage_factor_values: floats(THOROUGH_SHRINKAGE_GRID.as_slice()),
                extrapolation_damping_values: floats(THOROUGH_EXTRAPOLATION_DAMPING_GRID.as_slice()),
                enable_joint_refinement: true,
                tree_tuner_iterations: 3,
                output_dir,
                seed: DEFAULT_SEED,
            },
            LttTunerPreset::ShrinkageOnly => {
                let config = LttTunerConfig::default();
                let linear = LinearHyperparams::default();
                let tree = TreeHyperparams::default();
                LttTunerConfig {
                    lambda_values: only(linear.lambda),
                    l1_ratio_values: only(linear.l1_ratio),
                    max_depth_values: only_whole(tree.max_depth),
                    learning_rate_values: only(tree.learning_rate),
                    num_rounds_values: only_whole(tree.num_rounds),
                    subsample_values: only(tree.subsample),
                    colsample_values: only(tree.colsample_bytree),
                    enable_joint_refinement: false,
                    output_dir,
                    ..config
                }
            },
        }
    }

    /// Whether there is something to try everywhere.
    pub fn validate(&self) -> (checked: Result<(), ConfigError>)
        ensures
            reports(checked, self.problem()),
    {
        if self.val_ratio.is_nan() || is_outside_unit(self.val_ratio) {
            return Err(ConfigError::OutOfRange { rule: "val_ratio must be in (0.0, 1.0)", got: self.val_ratio });
        }
        if self.lambda_values.len() == 0 {
            return Err(rule_error("lambda_values cannot be empty"));
        }
        if self.l1_ratio_values.len() == 0 {
            return Err(rule_error("l1_ratio_values cannot be empty"));
        }
        if self.max_depth_values.len() == 0 {
            return Err(rule_error("max_depth_values cannot be empty"));
        }
        if self.learning_rate_values.len() == 0 {
            return Err(rule_error("learning_rate_values cannot be empty"));
        }
        if self.num_rounds_values.len() == 0 {
            return Err(rule_error("num_rounds_values cannot be empty"));
        }
        if self.shrinkage_factor_values.len() == 0 {
            return Err(rule_error("shrinkage_factor_values cannot be empty"));
        }
        if self.enable_joint_refinement && self.extrapolation_damping_values.len() == 0 {
            return Err(
                rule_error("extrapolation_damping_values cannot be empty when joint refinement is enabled"),
            );
        }
        Ok(())
    }
}

/// Every preset can be used.
pub proof fn law_presets_are_valid(config: LttTunerConfig, preset: LttTunerPreset)
    requires
        config.is_preset(preset),
    ensures
        config.problem() is None,
{
}

} // verus!
