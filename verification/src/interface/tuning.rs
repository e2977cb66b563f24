//! Settings of a search that scripts make.

use crate::float::{F32, F32_ONE, F32_ZERO};
use crate::interface::names::{
    lowercase, outcome, parse_space_preset, parse_tuner_preset, space_preset_meant, tuner_preset_meant,
};
use crate::interface::settings::{
    above_one, at_least_one, is_above_one, is_at_least_one, is_negative, is_not_positive, negative, not_positive,
};
use crate::tuner::bounds::{BoundsView, ParamBounds};
use crate::tuner::config::{preset_settings, EvalStrategy, GridStrategy, TunerConfig};
use crate::tuner::params::TunableParam;
use crate::tuner::space::{placed, preset_params, without, ParamView, ParameterSpace};
use vstd::prelude::*;

verus! {

/// Whether bounds came out as they should.
pub open spec fn bounds_outcome(got: Result<ParamBounds, String>, problem: Option<Seq<char>>, bounds: BoundsView) -> bool {
    match got {
        Ok(found) => problem is None && found@ == bounds,
        Err(message) => problem == Some(message@),
    }
}

/// What is wrong with the ends of a range, if anything.
pub open spec fn ends_problem(min: F32, max: F32) -> Option<Seq<char>> {
    if max.at_most(min) {
        Some("min must be less than max"@)
    } else {
        None
    }
}

/// What is wrong with the ends of a range over orders of magnitude, if anything.
pub open spec fn log_ends_problem(min: F32, max: F32) -> Option<Seq<char>> {
    if not_positive(min) {
        Some("min must be positive for log scaling"@)
    } else {
        ends_problem(min, max)
    }
}

/// What is wrong with a range of whole numbers, if anything.
pub open spec fn steps_problem(min: usize, max: usize, step: usize) -> Option<Seq<char>> {
    if min >= max {
        Some("min must be less than max"@)
    } else if step == 0 {
        Some("step must be positive"@)
    } else {
        None
    }
}

/// Any number between two others.
pub fn continuous_bounds(min: F32, max: F32) -> (bounds: Result<ParamBounds, String>)
    ensures
        bounds_outcome(bounds, ends_problem(min, max), BoundsView::Continuous { min, max, log_scale: false }),
{
    if max.le(min) {
        return Err("min must be less than max".to_owned());
    }
    Ok(ParamBounds::continuous(min, max))
}

/// Any number between two others, spread over orders of magnitude.
pub fn log_continuous_bounds(min: F32, max: F32) -> (bounds: Result<ParamBounds, String>)
    ensures
        bounds_outcome(bounds, log_ends_problem(min, max), BoundsView::Continuous { min, max, log_scale: true }),
{
    if is_not_positive(min) {
        return Err("min must be positive for log scaling".to_owned());
    }
    if max.le(min) {
        return Err("min must be less than max".to_owned());
    }
    Ok(ParamBounds::log_continuous(min, max))
}

/// The whole numbers of a range.
pub fn discrete_bounds(min: usize, max: usize) -> (bounds: Result<ParamBounds, String>)
    ensures
        bounds_outcome(bounds, steps_problem(min, max, 1), BoundsView::Discrete { min, max, step: 1 }),
{
    if min >= max {
        return Err("min must be less than max".to_owned());
    }
    Ok(ParamBounds::discrete(min, max))
}

/// Whole numbers of a range at equal distances.
pub fn discrete_step_bounds(min: usize, max: usize, step: usize) -> (bounds: Result<ParamBounds, String>)
    ensures
        bounds_outcome(bounds, steps_problem(min, max, step), BoundsView::Discrete { min, max, step }),
{
    if min >= max {
        return Err("min must be less than max".to_owned());
    }
    if step == 0 {
        return Err("step must be positive".to_owned());
    }
    Ok(ParamBounds::discrete_step(min, max, step))
}

/// Whether no parameter has a name.
pub open spec fn unknown(name: Seq<char>) -> bool {
    forall|param: TunableParam| #[trigger] param.name() != name
}

/// Whether a parameter was added to a space by its name, unless something is
/// wrong with its bounds or no parameter has the name.
pub open spec fn added(
    got: Result<ParameterSpace, String>,
    before: Seq<ParamView>,
    name: Seq<char>,
    problem: Option<Seq<char>>,
    bounds: BoundsView,
    center: F32,
) -> bool {
    match got {
        Ok(space) => {
            &&& problem is None
            &&& exists|param: TunableParam| #[trigger]
                param.name() == name && space@ == without(before, param).push(placed(param, bounds, center))
        },
        Err(message) => match problem {
            Some(text) => message@ == text,
            None => unknown(name) && message@ == TunableParam::unknown_name(name),
        },
    }
}

/// A ready-made space by its name.
pub fn space_preset(name: &str) -> (space: Result<ParameterSpace, String>)
    ensures
        match space {
            Ok(found) => space_preset_meant(lowercase(name@)) matches Some(preset) && found@ == preset_params(preset),
            Err(message) => {
                &&& space_preset_meant(lowercase(name@)) is None
                &&& message@ == "unknown preset (use: minimal, regression, classification, exhaustive, universal)"@
            },
        },
{
    match parse_space_preset(name) {
        Ok(preset) => Ok(ParameterSpace::with_preset(preset)),
        Err(message) => Err(message),
    }
}

/// Adds a parameter to a space by its name.
pub fn add_param(space: ParameterSpace, name: &str, bounds: ParamBounds, center: F32) -> (changed: Result<
    ParameterSpace,
    String,
>)
    requires
        bounds@.valid(),
    ensures
        added(changed, space@, name@, None, bounds@, center),
{
    match TunableParam::parse(name) {
        Ok(param) => {
            assert(param.name() == name@);
            Ok(space.with_param(param, bounds, center))
        },
        Err(message) => Err(message),
    }
}

/// Adds a parameter that takes any number between two others.
pub fn add_continuous(space: ParameterSpace, name: &str, min: F32, max: F32, center: F32) -> (changed: Result<ParameterSpace, String>)
    requires
        !min.nan(),
        !max.nan(),
    ensures
        added(changed, space@, name@, ends_problem(min, max), BoundsView::Continuous { min, max, log_scale: false }, center),
{
    match continuous_bounds(min, max) {
        Ok(bounds) => add_param(space, name, bounds, center),
        Err(message) => Err(message),
    }
}

/// Adds a parameter that takes any number between two others, spread over orders of
/// magnitude.
pub fn add_log_continuous(space: ParameterSpace, name: &str, min: F32, max: F32, center: F32) -> (changed: Result<ParameterSpace, String>)
    requires
        !min.nan(),
        !max.nan(),
    ensures
        added(changed, space@, name@, log_ends_problem(min, max), BoundsView::Continuous { min, max, log_scale: true }, center),
{
    match log_continuous_bounds(min, max) {
        Ok(bounds) => add_param(space, name, bounds, center),
        Err(message) => Err(message),
    }
}

/// Adds a parameter that takes the whole numbers of a range.
pub fn add_discrete(space: ParameterSpace, name: &str, min: usize, max: usize, center: F32) -> (changed: Result<ParameterSpace, String>)
    ensures
        added(changed, space@, name@, steps_problem(min, max, 1), BoundsView::Discrete { min, max, step: 1 }, center),
{
    match discrete_bounds(min, max) {
        Ok(bounds) => add_param(space, name, bounds, center),
        Err(message) => Err(message),
    }
}

/// Adds a parameter that takes whole numbers of a range at equal distances.
pub fn add_integer_range(space: ParameterSpace, name: &str, min: usize, max: usize, step: usize, center: F32) -> (changed: Result<ParameterSpace, String>)
    ensures
        added(changed, space@, name@, steps_problem(min, max, step), BoundsView::Discrete { min, max, step }, center),
{
    match discrete_step_bounds(min, max, step) {
        Ok(bounds) => add_param(space, name, bounds, center),
        Err(message) => Err(message),
    }
}

/// Removes a parameter from a space by its name.
pub fn remove_param(space: ParameterSpace, name: &str) -> (changed: Result<ParameterSpace, String>)
    ensures
        match changed {
            Ok(after) => exists|param: TunableParam| #[trigger]
                param.name() == name@ && after@ == without(space@, param),
            Err(message) => unknown(name@) && message@ == TunableParam::unknown_name(name@),
        },
{
    match TunableParam::parse(name) {
        Ok(param) => {
            assert(param.name() == name@);
            Ok(space.without_param(param))
        },
        Err(message) => Err(message),
    }
}

/// Every combination of some values per parameter.
pub fn cartesian_strategy(points_per_dim: usize) -> (strategy: Result<GridStrategy, String>)
    ensures
        outcome(
            strategy,
            points_per_dim >= 2,
            GridStrategy::Cartesian { points_per_dim },
            "points_per_dim must be >= 2"@,
        ),
{
    if points_per_dim < 2 {
        return Err("points_per_dim must be >= 2".to_owned());
    }
    Ok(GridStrategy::cartesian(points_per_dim))
}

/// One sample in each stratum of each parameter.
pub fn lhs_strategy(n_samples: usize) -> (strategy: Result<GridStrategy, String>)
    ensures
        outcome(strategy, n_samples >= 1, GridStrategy::LatinHypercube { n_samples }, "n_samples must be >= 1"@),
{
    if n_samples < 1 {
        return Err("n_samples must be >= 1".to_owned());
    }
    Ok(GridStrategy::lhs(n_samples))
}

/// Independent samples.
pub fn random_strategy(n_samples: usize) -> (strategy: Result<GridStrategy, String>)
    ensures
        outcome(strategy, n_samples >= 1, GridStrategy::Random { n_samples }, "n_samples must be >= 1"@),
{
    if n_samples < 1 {
        return Err("n_samples must be >= 1".to_owned());
    }
    Ok(GridStrategy::random(n_samples))
}

/// A single split.
pub fn holdout_strategy(validation_ratio: F32) -> (strategy: Result<EvalStrategy, String>)
    ensures
        outcome(
            strategy,
            !(not_positive(validation_ratio) || at_least_one(validation_ratio)),
            EvalStrategy::Holdout { validation_ratio, folds: 1 },
            "validation_ratio must be in (0, 1)"@,
        ),
{
    if is_not_positive(validation_ratio) || is_at_least_one(validation_ratio) {
        return Err("validation_ratio must be in (0, 1)".to_owned());
    }
    Ok(EvalStrategy::holdout(validation_ratio))
}

/// Prediction intervals on a single split.
pub fn conformal_strategy(calibration_ratio: F32, coverage: F32) -> (strategy: Result<EvalStrategy, String>)
    ensures
        match strategy {
            Ok(found) => {
                &&& !(not_positive(calibration_ratio) || at_least_one(calibration_ratio))
                &&& !(not_positive(coverage) || at_least_one(coverage))
                &&& found == (EvalStrategy::Conformal { calibration_ratio, quantile: coverage, folds: 1 })
            },
            Err(message) => if not_positive(calibration_ratio) || at_least_one(calibration_ratio) {
                message@ == "calibration_ratio must be in (0, 1)"@
            } else {
                (not_positive(coverage) || at_least_one(coverage)) && message@ == "coverage must be in (0, 1)"@
            },
        },
{
    if is_not_positive(calibration_ratio) || is_at_least_one(calibration_ratio) {
        return Err("calibration_ratio must be in (0, 1)".to_owned());
    }
    if is_not_positive(coverage) || is_at_least_one(coverage) {
        return Err("coverage must be in (0, 1)".to_owned());
    }
    Ok(EvalStrategy::conformal(calibration_ratio, coverage))
}

/// A strategy with another number of folds.
pub fn strategy_with_folds(strategy: EvalStrategy, folds: usize) -> (changed: Result<EvalStrategy, String>)
    ensures
        outcome(changed, folds > 0, strategy.in_folds(folds), "folds must be >= 1"@),
{
    if folds == 0 {
        return Err("folds must be >= 1".to_owned());
    }
    Ok(strategy.with_folds(folds))
}

/// Whether a number is at least 0 and at most 1.
fn unit_interval_holds(x: F32) -> (holds: bool)
    ensures
        holds == ((F32 { bits: F32_ZERO }).at_most(x) && x.at_most(F32 { bits: F32_ONE })),
{
    let zero = F32 { bits: F32_ZERO };
    let one = F32 { bits: F32_ONE };
    zero.le(x) && x.le(one)
}

/// Sets what a preset sets, by its name.
pub fn config_with_preset(config: TunerConfig, name: &str) -> (changed: Result<TunerConfig, String>)
    ensures
        match changed {
            Ok(after) => tuner_preset_meant(lowercase(name@)) matches Some(preset) && after == (TunerConfig {
                n_iterations: preset_settings(preset).n_iterations,
                num_rounds: preset_settings(preset).num_rounds,
                early_stopping_rounds: preset_settings(preset).early_stopping_rounds,
                improvement_threshold: preset_settings(preset).improvement_threshold,
                ..config
            }),
            Err(message) => {
                &&& tuner_preset_meant(lowercase(name@)) is None
                &&& message@ == "unknown preset (use: smoketest, quick, balanced, thorough)"@
            },
        },
{
    match parse_tuner_preset(name) {
        Ok(preset) => Ok(config.with_preset(preset)),
        Err(message) => Err(message),
    }
}

/// Sets the most zoom iterations.
pub fn config_with_iterations(config: TunerConfig, n: usize) -> (changed: Result<TunerConfig, String>)
    ensures
        outcome(changed, n > 0, TunerConfig { n_iterations: n, ..config }, "iterations must be > 0"@),
{
    if n == 0 {
        return Err("iterations must be > 0".to_owned());
    }
    Ok(config.with_iterations(n))
}

/// Sets the share of the range that the first iteration looks at.
pub fn config_with_initial_spread(config: TunerConfig, spread: F32) -> (changed: Result<TunerConfig, String>)
    ensures
        outcome(changed, !(not_positive(spread) || above_one(spread)), TunerConfig { initial_spread: spread, ..config }, "initial_spread must be in (0, 1]"@),
{
    if is_not_positive(spread) || is_above_one(spread) {
        return Err("initial_spread must be in (0, 1]".to_owned());
    }
    Ok(config.with_initial_spread(spread))
}

/// Sets the share of the spread that the next iteration keeps.
pub fn config_with_zoom_factor(config: TunerConfig, factor: F32) -> (changed: Result<TunerConfig, String>)
    ensures
        outcome(changed, !(not_positive(factor) || at_least_one(factor)), TunerConfig { zoom_factor: factor, ..config }, "zoom_factor must be in (0, 1)"@),
{
    if is_not_positive(factor) || is_at_least_one(factor) {
        return Err("zoom_factor must be in (0, 1)".to_owned());
    }
    Ok(config.with_zoom_factor(factor))
}

/// Sets the boosting rounds of a trial.
pub fn config_with_num_rounds(config: TunerConfig, rounds: usize) -> (changed: Result<TunerConfig, String>)
    ensures
        outcome(changed, rounds > 0, TunerConfig { num_rounds: rounds, ..config }, "num_rounds must be > 0"@),
{
    if rounds == 0 {
        return Err("num_rounds must be > 0".to_owned());
    }
    Ok(config.with_num_rounds(rounds))
}

/// Sets when a trial stops, and on which share of the rows that is decided.
pub fn config_with_early_stopping(config: TunerConfig, rounds: usize, validation_ratio: F32) -> (changed: Result<TunerConfig, String>)
    ensures
        outcome(changed, !(not_positive(validation_ratio) || at_least_one(validation_ratio)), TunerConfig { early_stopping_rounds: rounds, validation_ratio, ..config }, "validation_ratio must be in (0, 1)"@),
{
    if is_not_positive(validation_ratio) || is_at_least_one(validation_ratio) {
        return Err("validation_ratio must be in (0, 1)".to_owned());
    }
    Ok(config.with_early_stopping(rounds, validation_ratio))
}

/// Sets the relative improvement below which the search stops.
pub fn config_with_improvement_threshold(config: TunerConfig, threshold: F32) -> (changed: Result<TunerConfig, String>)
    ensures
        outcome(changed, !negative(threshold), TunerConfig { improvement_threshold: threshold, ..config }, "threshold must be non-negative"@),
{
    if is_negative(threshold) {
        return Err("threshold must be non-negative".to_owned());
    }
    Ok(config.with_improvement_threshold(threshold))
}

/// Sets the F1 score below which a classification search goes on.
pub fn config_with_min_f1_score(config: TunerConfig, min_f1: F32) -> (changed: Result<TunerConfig, String>)
    ensures
        outcome(changed, (F32 { bits: F32_ZERO }).at_most(min_f1) && min_f1.at_most(F32 { bits: F32_ONE }), TunerConfig { min_f1_score: min_f1, ..config }, "min_f1 must be in [0, 1]"@),
{
    if !unit_interval_holds(min_f1) {
        return Err("min_f1 must be in [0, 1]".to_owned());
    }
    Ok(config.with_min_f1_score(min_f1))
}

} // verus!
