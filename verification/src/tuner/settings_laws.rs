//! Which settings are accepted, and what the presets stand for.

use crate::float::F32;
use crate::float_int::{bit_length, law_small_indices_are_exact, two_to};
use crate::tuner::bounds::{number, BoundsView};
use crate::tuner::config::{
    outside_unit, preset_settings, EvalStrategy, GridStrategy, OptimizationMetric, TaskType, TunerConfig, TunerPreset,
    TuningMode,
};
use crate::tuner::ltt::{default_linear, default_tree, preset_grids, LttTunerConfig, LttTunerPreset};
use crate::tuner::params::TunableParam;
use crate::tuner::space::{at, linear_then_tree_params, modes, preset_params, whole, ParamView, SpacePreset};
use vstd::prelude::*;

verus! {

/// The numbers between 0 and 1, without either, are those that are not outside;
/// what is no number is not outside either.
pub proof fn law_open_unit_interval(x: F32)
    ensures
        outside_unit(x) <==> !x.nan() && (x.bits == 0 || x.bits >= 0x3f80_0000),
{
}

/// A way to evaluate is accepted when its shares lie between 0 and 1 and it has
/// a fold; the first rule that is broken is the one that is told.
pub proof fn law_accepted_evaluation(strategy: EvalStrategy)
    ensures
        match strategy {
            EvalStrategy::Holdout { validation_ratio, folds } => {
                let bad_ratio = !validation_ratio.nan() && (validation_ratio.bits == 0 || validation_ratio.bits
                    >= 0x3f80_0000);
                &&& strategy.problem() is None <==> !bad_ratio && folds >= 1
                &&& bad_ratio ==> strategy.problem()->0.rule == "validation_ratio must be in (0, 1)"@
                    && strategy.problem()->0.got == Some(validation_ratio)
                &&& !bad_ratio && folds == 0 ==> strategy.problem()->0.rule == "folds must be >= 1"@
                    && strategy.problem()->0.got is None
            },
            EvalStrategy::Conformal { calibration_ratio, quantile, folds } => {
                let bad_ratio = !calibration_ratio.nan() && (calibration_ratio.bits == 0 || calibration_ratio.bits
                    >= 0x3f80_0000);
                let bad_quantile = !quantile.nan() && (quantile.bits == 0 || quantile.bits >= 0x3f80_0000);
                &&& strategy.problem() is None <==> !bad_ratio && !bad_quantile && folds >= 1
                &&& bad_ratio ==> strategy.problem()->0.rule == "calibration_ratio must be in (0, 1)"@
                    && strategy.problem()->0.got == Some(calibration_ratio)
                &&& !bad_ratio && bad_quantile ==> strategy.problem()->0.rule == "quantile must be in (0, 1)"@
                    && strategy.problem()->0.got == Some(quantile)
                &&& !bad_ratio && !bad_quantile && folds == 0 ==> strategy.problem()->0.rule == "folds must be >= 1"@
            },
        },
        strategy.in_folds(strategy.fold_count()) == strategy,
        forall|n: usize| #[trigger] strategy.in_folds(n).fold_count() == n,
{
}

/// A grid is accepted when it has two points per dimension, or a sample.
pub proof fn law_accepted_grid(strategy: GridStrategy)
    ensures
        match strategy {
            GridStrategy::Cartesian { points_per_dim } => strategy.problem() is None <==> points_per_dim >= 2,
            GridStrategy::LatinHypercube { n_samples } => strategy.problem() is None <==> n_samples >= 1,
            GridStrategy::Random { n_samples } => strategy.problem() is None <==> n_samples >= 1,
        },
{
}

/// A grid over one dimension more has as many candidates again for each point of
/// that dimension; samples do not depend on the dimensions.
pub proof fn law_candidates_multiply(strategy: GridStrategy, num_params: nat)
    ensures
        match strategy {
            GridStrategy::Cartesian { points_per_dim } => {
                &&& strategy.candidates(0) == 1
                &&& strategy.candidates(num_params + 1) == points_per_dim * strategy.candidates(num_params)
            },
            GridStrategy::LatinHypercube { n_samples } => strategy.candidates(num_params) == n_samples,
            GridStrategy::Random { n_samples } => strategy.candidates(num_params) == n_samples,
        },
{
    if let GridStrategy::Cartesian { points_per_dim } = strategy {
        reveal(vstd::arithmetic::power::pow);
        vstd::arithmetic::power::lemma_pow0(points_per_dim as int);
    }
}

/// A search is accepted when it has iterations and rounds, spreads over more
/// than nothing and at most everything, zooms in by a factor between 0 and 1, and
/// its grid and its evaluation are accepted.
pub proof fn law_accepted_search(config: TunerConfig)
    ensures
        config.problem() is None <==> {
            &&& config.n_iterations >= 1
            &&& config.initial_spread.nan() || 0 < config.initial_spread.bits <= 0x3f80_0000
            &&& config.zoom_factor.nan() || 0 < config.zoom_factor.bits < 0x3f80_0000
            &&& config.num_rounds >= 1
            &&& config.grid_strategy.problem() is None
            &&& config.eval_strategy.problem() is None
        },
        config.n_iterations == 0 ==> config.problem()->0.rule == "n_iterations must be > 0"@,
        config.n_iterations > 0 && !config.initial_spread.nan() && !(0 < config.initial_spread.bits <= 0x3f80_0000) ==> {
            &&& config.problem()->0.rule == "initial_spread must be in (0, 1]"@
            &&& config.problem()->0.got == Some(config.initial_spread)
        },
        config.n_iterations > 0 && 0 < config.initial_spread.bits <= 0x3f80_0000 && !config.zoom_factor.nan() && !(0
            < config.zoom_factor.bits < 0x3f80_0000) ==> {
            &&& config.problem()->0.rule == "zoom_factor must be in (0, 1)"@
            &&& config.problem()->0.got == Some(config.zoom_factor)
        },
        config.n_iterations > 0 && 0 < config.initial_spread.bits <= 0x3f80_0000 && 0 < config.zoom_factor.bits
            < 0x3f80_0000 && config.num_rounds == 0 ==> config.problem()->0.rule == "num_rounds must be > 0"@,
{
}

/// The settings of the presets: more iterations and rounds, and smaller
/// improvements that count, from one to the next.
pub proof fn law_preset_searches(preset: TunerPreset)
    ensures
        ({
            let settings = preset_settings(preset);
            match preset {
                TunerPreset::SmokeTest => {
                    &&& settings.n_iterations == 1
                    &&& settings.num_rounds == 50
                    &&& settings.early_stopping_rounds == 5
                    &&& settings.improvement_threshold.bits == 0x3c23_d70a
                },
                TunerPreset::Quick => {
                    &&& settings.n_iterations == 2
                    &&& settings.num_rounds == 50
                    &&& settings.early_stopping_rounds == 5
                    &&& settings.improvement_threshold.bits == 0x3c23_d70a
                },
                TunerPreset::Balanced => {
                    &&& settings.n_iterations == 5
                    &&& settings.num_rounds == 100
                    &&& settings.early_stopping_rounds == 10
                    &&& settings.improvement_threshold.bits == 0x3a83_126f
                },
                TunerPreset::Thorough => {
                    &&& settings.n_iterations == 7
                    &&& settings.num_rounds == 200
                    &&& settings.early_stopping_rounds == 20
                    &&& settings.improvement_threshold.bits == 0x38d1_b717
                },
            }
        }),
{
}

/// A run that tunes a linear model followed by trees is accepted when its share
/// of validation rows lies between 0 and 1 and every list that it goes through
/// has a value; dampings are gone through only where both parts are refined
/// together.
pub proof fn law_accepted_run(config: LttTunerConfig)
    ensures
        config.problem() is None <==> {
            &&& 0 < config.val_ratio.bits < 0x3f80_0000
            &&& config.lambda_values@.len() > 0
            &&& config.l1_ratio_values@.len() > 0
            &&& config.max_depth_values@.len() > 0
            &&& config.learning_rate_values@.len() > 0
            &&& config.num_rounds_values@.len() > 0
            &&& config.shrinkage_factor_values@.len() > 0
            &&& config.extrapolation_damping_values@.len() > 0 || !config.enable_joint_refinement
        },
        !(0 < config.val_ratio.bits < 0x3f80_0000) ==> {
            &&& config.problem()->0.rule == "val_ratio must be in (0.0, 1.0)"@
            &&& config.problem()->0.got == Some(config.val_ratio)
        },
{
}

/// How the presets of such a run differ: which of them refine both parts
/// together, how often trees are searched for, and that the one that is about
/// the weight alone has a single value of everything but weights and dampings.
pub proof fn law_preset_runs(preset: LttTunerPreset)
    ensures
        ({
            let grids = preset_grids(preset);
            &&& grids.joint == (preset == LttTunerPreset::Standard || preset == LttTunerPreset::Thorough)
            &&& grids.iterations == match preset {
                LttTunerPreset::Quick => 1int,
                LttTunerPreset::Standard => 2int,
                LttTunerPreset::Thorough => 3int,
                LttTunerPreset::ShrinkageOnly => 2int,
            }
            &&& preset == LttTunerPreset::ShrinkageOnly ==> {
                &&& grids.lambda == seq![F32 { bits: 0x3f80_0000 }]
                &&& grids.l1_ratio == seq![F32 { bits: 0 }]
                &&& grids.max_depth == seq![6u32]
                &&& grids.learning_rate == seq![F32 { bits: 0x3dcc_cccd }]
                &&& grids.num_rounds == seq![500u32]
                &&& grids.subsample == seq![F32 { bits: 0x3f80_0000 }]
                &&& grids.colsample == seq![F32 { bits: 0x3f80_0000 }]
            }
            &&& grids.shrinkage.len() > 1
        }),
{
}

/// Whether a parameter ranges over an interval, given by bits.
pub open spec fn is_span(
    param: ParamView,
    name: TunableParam,
    min: u32,
    max: u32,
    log_scale: bool,
    center: u32,
) -> bool {
    &&& param.name == name
    &&& param.bounds == (BoundsView::Continuous { min: F32 { bits: min }, max: F32 { bits: max }, log_scale })
    &&& param.center == (F32 { bits: center })
}

/// Whether a parameter ranges over whole numbers.
pub open spec fn is_stepped(param: ParamView, name: TunableParam, min: usize, max: usize, center: nat) -> bool {
    &&& param.name == name
    &&& param.bounds == (BoundsView::Discrete { min, max, step: 1 })
    &&& param.center == number(center)
}

/// What the presets range over and where they start.
pub proof fn law_preset_ranges(preset: SpacePreset)
    ensures
        ({
            let params = preset_params(preset);
            match preset {
                SpacePreset::Minimal => {
                    &&& params.len() == 2
                    &&& is_stepped(params[0], TunableParam::MaxDepth, 3, 10, 6)
                    &&& is_span(params[1], TunableParam::LearningRate, 0x3c23_d70a, 0x3e99_999a, true, 0x3dcc_cccd)
                },
                SpacePreset::Regression => {
                    &&& params.len() == 5
                    &&& is_stepped(params[0], TunableParam::MaxDepth, 2, 12, 6)
                    &&& is_span(params[1], TunableParam::LearningRate, 0x3c23_d70a, 0x3f00_0000, true, 0x3dcc_cccd)
                    &&& is_span(params[2], TunableParam::Subsample, 0x3f00_0000, 0x3f80_0000, false, 0x3f4c_cccd)
                    &&& is_span(params[3], TunableParam::Lambda, 0, 0x4120_0000, false, 0x3f80_0000)
                    &&& is_span(params[4], TunableParam::EntropyWeight, 0, 0x3f00_0000, false, 0)
                },
                SpacePreset::Classification => {
                    &&& params.len() == 5
                    &&& is_stepped(params[0], TunableParam::MaxDepth, 2, 10, 5)
                    &&& is_span(params[1], TunableParam::LearningRate, 0x3c23_d70a, 0x3e99_999a, true, 0x3dcc_cccd)
                    &&& is_span(params[2], TunableParam::Subsample, 0x3f19_999a, 0x3f80_0000, false, 0x3f4c_cccd)
                    &&& is_span(params[3], TunableParam::Lambda, 0, 0x40a0_0000, false, 0x3f80_0000)
                    &&& is_span(params[4], TunableParam::EntropyWeight, 0, 0x3e99_999a, false, 0)
                },
                SpacePreset::Exhaustive => {
                    &&& params.len() == 8
                    &&& is_stepped(params[0], TunableParam::MaxDepth, 2, 12, 6)
                    &&& is_span(params[1], TunableParam::LearningRate, 0x3c23_d70a, 0x3f00_0000, true, 0x3dcc_cccd)
                    &&& is_span(params[2], TunableParam::Subsample, 0x3f00_0000, 0x3f80_0000, false, 0x3f4c_cccd)
                    &&& is_span(params[3], TunableParam::Colsample, 0x3f00_0000, 0x3f80_0000, false, 0x3f80_0000)
                    &&& is_span(params[4], TunableParam::Lambda, 0, 0x4120_0000, false, 0x3f80_0000)
                    &&& is_span(params[5], TunableParam::EntropyWeight, 0, 0x3f00_0000, false, 0)
                    &&& is_span(params[6], TunableParam::GossTopRate, 0x3dcc_cccd, 0x3ecc_cccd, false, 0x3e4c_cccd)
                    &&& is_span(params[7], TunableParam::GossOtherRate, 0x3d4c_cccd, 0x3e4c_cccd, false, 0x3dcc_cccd)
                },
                SpacePreset::Universal => {
                    &&& params.len() == 6
                    &&& params[0].name == TunableParam::Mode
                    &&& params[0].bounds == (BoundsView::Categorical {
                        values: seq!["PureTree"@, "LinearThenTree"@, "RandomForest"@],
                    })
                    &&& params[0].center.bits == 0
                    &&& is_stepped(params[1], TunableParam::NumRounds, 50, 200, 100)
                    &&& is_span(params[2], TunableParam::LearningRate, 0x3c23_d70a, 0x3e99_999a, true, 0x3dcc_cccd)
                    &&& is_span(params[3], TunableParam::Subsample, 0x3f19_999a, 0x3f80_0000, false, 0x3f4c_cccd)
                    &&& is_stepped(params[4], TunableParam::TreeMaxDepth, 3, 10, 6)
                    &&& is_span(params[5], TunableParam::TreeLambda, 0, 0x4120_0000, false, 0x3f80_0000)
                },
            }
        }),
        ({
            let params = linear_then_tree_params();
            &&& params.len() == 5
            &&& is_stepped(params[0], TunableParam::NumRounds, 30, 150, 50)
            &&& is_span(params[1], TunableParam::LearningRate, 0x3c23_d70a, 0x3e99_999a, true, 0x3dcc_cccd)
            &&& is_stepped(params[2], TunableParam::LinearRounds, 5, 30, 10)
            &&& is_span(params[3], TunableParam::LinearLambda, 0x3c23_d70a, 0x4120_0000, true, 0x3f80_0000)
            &&& is_stepped(params[4], TunableParam::TreeMaxDepth, 3, 8, 5)
        }),
{
    lemma_small_numbers();
    lemma_stepped(TunableParam::MaxDepth, 3, 10, 0x40c0_0000, 6);
    lemma_stepped(TunableParam::MaxDepth, 2, 12, 0x40c0_0000, 6);
    lemma_stepped(TunableParam::MaxDepth, 2, 10, 0x40a0_0000, 5);
    lemma_stepped(TunableParam::NumRounds, 50, 200, 0x42c8_0000, 100);
    lemma_stepped(TunableParam::TreeMaxDepth, 3, 10, 0x40c0_0000, 6);
    lemma_stepped(TunableParam::NumRounds, 30, 150, 0x4248_0000, 50);
    lemma_stepped(TunableParam::LinearRounds, 5, 30, 0x4120_0000, 10);
    lemma_stepped(TunableParam::TreeMaxDepth, 3, 8, 0x40a0_0000, 5);
    assert(modes().clamped(F32 { bits: 0 }) == number(0));
}

/// A parameter over whole numbers starts at the number that it is given.
proof fn lemma_stepped(name: TunableParam, min: usize, max: usize, bits: u32, center: nat)
    requires
        min <= center <= max,
        number(center).bits == bits,
        number(center).index() == center,
    ensures
        is_stepped(at(name, whole(min, max), bits), name, min, max, center),
{
    let value = F32 { bits };
    assert(value == number(center));
    let away = center - min;
    let step = 1usize;
    assert(((away / (step as int)) * step) == away) by (nonlinear_arith)
        requires
            step == 1,
    ;
    assert(whole(min, max).clamped(value) == number((min + away) as nat));
}

/// The bits of the whole numbers that presets start at.
proof fn lemma_small_numbers()
    ensures
        number(5).bits == 0x40a0_0000,
        number(5).index() == 5,
        number(6).bits == 0x40c0_0000,
        number(6).index() == 6,
        number(10).bits == 0x4120_0000,
        number(10).index() == 10,
        number(50).bits == 0x4248_0000,
        number(50).index() == 50,
        number(100).bits == 0x42c8_0000,
        number(100).index() == 100,
        number(0).bits == 0,
        number(0).index() == 0,
{
    reveal_with_fuel(bit_length, 8);
    reveal_with_fuel(two_to, 24);
    law_small_indices_are_exact(0);
    law_small_indices_are_exact(5);
    law_small_indices_are_exact(6);
    law_small_indices_are_exact(10);
    law_small_indices_are_exact(50);
    law_small_indices_are_exact(100);
}

/// What the presets of a run go through.
pub proof fn law_preset_grid_values(preset: LttTunerPreset)
    ensures
        ({
            let grids = preset_grids(preset);
            match preset {
                LttTunerPreset::Quick => {
                    &&& has_bits(grids.lambda, seq![0x3dcc_cccdu32, 0x3f80_0000u32])
                    &&& has_bits(grids.l1_ratio, seq![0u32, 0x3f00_0000u32])
                    &&& grids.max_depth == seq![4u32, 6u32]
                    &&& has_bits(grids.learning_rate, seq![0x3d4c_cccdu32, 0x3dcc_cccdu32])
                    &&& grids.num_rounds == seq![200u32, 500u32]
                    &&& has_bits(grids.subsample, seq![0x3f4c_cccdu32, 0x3f80_0000u32])
                    &&& has_bits(grids.colsample, seq![0x3f4c_cccdu32, 0x3f80_0000u32])
                    &&& has_bits(grids.shrinkage, seq![0x3f00_0000u32, 0x3f33_3333u32, 0x3f80_0000u32])
                    &&& has_bits(grids.damping, seq![0u32])
                },
                LttTunerPreset::Standard => {
                    &&& has_bits(grids.lambda, seq![0x3c23_d70au32, 0x3dcc_cccdu32, 0x3f80_0000u32, 0x4120_0000u32])
                    &&& has_bits(grids.l1_ratio, seq![0u32, 0x3f00_0000u32, 0x3f80_0000u32])
                    &&& grids.max_depth == seq![4u32, 6u32, 8u32]
                    &&& has_bits(grids.learning_rate, seq![0x3c23_d70au32, 0x3d4c_cccdu32, 0x3dcc_cccdu32])
                    &&& grids.num_rounds == seq![200u32, 500u32, 1000u32]
                    &&& has_bits(grids.subsample, seq![0x3f19_999au32, 0x3f4c_cccdu32, 0x3f80_0000u32])
                    &&& has_bits(grids.colsample, seq![0x3f19_999au32, 0x3f4c_cccdu32, 0x3f80_0000u32])
                    &&& has_bits(grids.shrinkage, seq![0x3e99_999au32, 0x3f00_0000u32, 0x3f33_3333u32, 0x3f66_6666u32, 0x3f80_0000u32])
                    &&& has_bits(grids.damping, seq![0u32, 0x3dcc_cccdu32, 0x3e4c_cccdu32])
                },
                LttTunerPreset::Thorough => {
                    &&& has_bits(grids.lambda, seq![0x3a83_126fu32, 0x3c23_d70au32, 0x3dcc_cccdu32, 0x3f80_0000u32, 0x4120_0000u32])
                    &&& has_bits(grids.l1_ratio, seq![0u32, 0x3e80_0000u32, 0x3f00_0000u32, 0x3f40_0000u32, 0x3f80_0000u32])
                    &&& grids.max_depth == seq![3u32, 4u32, 6u32, 8u32, 10u32]
                    &&& has_bits(grids.learning_rate, seq![0x3c23_d70au32, 0x3cf5_c28fu32, 0x3d4c_cccdu32, 0x3dcc_cccdu32])
                    &&& grids.num_rounds == seq![200u32, 500u32, 1000u32, 2000u32]
                    &&& has_bits(grids.subsample, seq![0x3f19_999au32, 0x3f33_3333u32, 0x3f4c_cccdu32, 0x3f80_0000u32])
                    &&& has_bits(grids.colsample, seq![0x3f19_999au32, 0x3f33_3333u32, 0x3f4c_cccdu32, 0x3f80_0000u32])
                    &&& has_bits(grids.shrinkage, seq![0x3dcc_cccdu32, 0x3e99_999au32, 0x3f00_0000u32, 0x3f33_3333u32, 0x3f4c_cccdu32, 0x3f66_6666u32, 0x3f80_0000u32])
                    &&& has_bits(grids.damping, seq![0u32, 0x3dcc_cccdu32, 0x3e4c_cccdu32, 0x3e99_999au32])
                },
                LttTunerPreset::ShrinkageOnly => {
                    &&& has_bits(grids.shrinkage, seq![0x3e99_999au32, 0x3f00_0000u32, 0x3f33_3333u32, 0x3f66_6666u32, 0x3f80_0000u32])
                    &&& has_bits(grids.damping, seq![0u32, 0x3dcc_cccdu32, 0x3e4c_cccdu32])
                },
            }
        }),
{
}

/// Whether numbers have the given bits.
pub open spec fn has_bits(values: Seq<F32>, bits: Seq<u32>) -> bool {
    &&& values.len() == bits.len()
    &&& forall|i: int| 0 <= i < values.len() ==> (#[trigger] values[i]).bits == bits[i]
}

/// Where both parts of a run start from.
pub proof fn law_default_models()
    ensures
        default_linear().lambda.bits == 0x3f80_0000,
        default_linear().l1_ratio.bits == 0,
        default_linear().shrinkage_factor.bits == 0x3f33_3333,
        default_linear().extrapolation_damping.bits == 0,
        default_tree().max_depth == 6,
        default_tree().learning_rate.bits == 0x3dcc_cccd,
        default_tree().num_rounds == 500,
        default_tree().min_child_weight.bits == 0x3f80_0000,
        default_tree().subsample.bits == 0x3f80_0000,
        default_tree().colsample_bytree.bits == 0x3f80_0000,
{
}

/// Where a search starts from.
pub proof fn law_default_search(config: TunerConfig)
    requires
        config.is_default(),
    ensures
        config.n_iterations == 5,
        config.initial_spread.bits == 0x3f80_0000,
        config.zoom_factor.bits == 0x3f4c_cccd,
        config.grid_strategy == (GridStrategy::Cartesian { points_per_dim: 3 }),
        config.eval_strategy == (EvalStrategy::Holdout { validation_ratio: F32 { bits: 0x3e4c_cccd }, folds: 1 }),
        config.tuning_mode == TuningMode::Optimistic,
        config.parallel_trials,
        config.num_rounds == 100,
        config.early_stopping_rounds == 10,
        config.validation_ratio.bits == 0x3e4c_cccd,
        config.improvement_threshold.bits == 0x3a83_126f,
        config.min_f1_score.bits == 0x3f4c_cccd,
        config.seed == 42,
        config.optimization_metric == OptimizationMetric::ValidationLoss,
        config.task_type == TaskType::Regression,
        config.space@ == preset_params(SpacePreset::Regression),
{
}

/// The settings of a run by a preset are those of the preset.
pub proof fn law_run_by_a_preset(config: LttTunerConfig, preset: LttTunerPreset)
    requires
        config.is_preset(preset),
    ensures
        config.val_ratio.bits == 0x3e4c_cccd,
        config.seed == 42,
        ({
            let grids = preset_grids(preset);
            &&& config.lambda_values@ == grids.lambda
            &&& config.l1_ratio_values@ == grids.l1_ratio
            &&& config.max_depth_values@ == grids.max_depth
            &&& config.learning_rate_values@ == grids.learning_rate
            &&& config.num_rounds_values@ == grids.num_rounds
            &&& config.subsample_values@ == grids.subsample
            &&& config.colsample_values@ == grids.colsample
            &&& config.shrinkage_factor_values@ == grids.shrinkage
            &&& config.extrapolation_damping_values@ == grids.damping
            &&& config.enable_joint_refinement == grids.joint
            &&& config.tree_tuner_iterations == grids.iterations
        }),
{
}

} // verus!
