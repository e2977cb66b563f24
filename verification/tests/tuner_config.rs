//! Tuner settings: bounds, parameters, spaces, strategies and presets.

use treeboost::float::F32;
use treeboost::tuner::bounds::ParamBounds;
use treeboost::tuner::config::{
    is_outside_unit, ConfigError, EvalStrategy, GridStrategy, ModelFormat, OptimizationMetric, TaskType,
    TunerConfig, TunerPreset, TuningMode,
};
use treeboost::tuner::params::TunableParam;
use treeboost::tuner::space::{ParamDef, ParameterSpace, SpacePreset};
use treeboost::tuner::values::ParamMap;

fn bits(value: f32) -> F32 {
    F32 { bits: value.to_bits() }
}

fn number(value: F32) -> f32 {
    f32::from_bits(value.bits)
}

fn text(error: &ConfigError) -> String {
    match error {
        ConfigError::Rule { text } => text.clone(),
        ConfigError::OutOfRange { rule, got } => format!("{}, got {}", rule, number(*got)),
    }
}

#[test]
fn test_param_bounds_continuous() {
    let bounds = ParamBounds::continuous(bits(0.0), bits(1.0));
    assert_eq!(number(bounds.clamp(bits(-0.5))), 0.0);
    assert_eq!(number(bounds.clamp(bits(0.5))), 0.5);
    assert_eq!(number(bounds.clamp(bits(1.5))), 1.0);
    assert!(bounds.contains(bits(0.5)));
    assert!(!bounds.contains(bits(-0.1)));
    assert!(!bounds.is_log_scale());
}

#[test]
fn test_param_bounds_log_continuous() {
    let bounds = ParamBounds::log_continuous(bits(0.01), bits(1.0));
    assert!(bounds.is_log_scale());
    assert_eq!(number(bounds.min_value()), 0.01);
    assert_eq!(number(bounds.max_value()), 1.0);
}

#[test]
fn test_param_bounds_discrete() {
    let bounds = ParamBounds::discrete(2, 10);
    assert_eq!(number(bounds.clamp(bits(1.0))), 2.0);
    assert_eq!(number(bounds.clamp(bits(5.0))), 5.0);
    assert_eq!(number(bounds.clamp(bits(15.0))), 10.0);
    assert!(!bounds.is_log_scale());
}

#[test]
fn test_param_bounds_discrete_step() {
    let bounds = ParamBounds::discrete_step(2, 10, 2);
    assert_eq!(number(bounds.clamp(bits(5.0))), 4.0);
    assert_eq!(number(bounds.clamp(bits(6.0))), 6.0);
}

#[test]
fn test_param_def() {
    let mut param =
        ParamDef::new(TunableParam::MaxDepth, ParamBounds::continuous(bits(0.0), bits(10.0)), bits(5.0));
    assert_eq!(param.name, TunableParam::MaxDepth);
    assert_eq!(number(param.center), 5.0);

    param.set_center(bits(15.0));
    assert_eq!(number(param.center), 10.0);
}

#[test]
fn test_parameter_space_default() {
    let space = ParameterSpace::with_preset(SpacePreset::Regression);
    assert_eq!(space.len(), 5);
    assert!(space.get(TunableParam::MaxDepth).is_some());
    assert!(space.get(TunableParam::LearningRate).is_some());
    assert!(space.get(TunableParam::Subsample).is_some());
    assert!(space.get(TunableParam::Lambda).is_some());
    assert!(space.get(TunableParam::EntropyWeight).is_some());
}

#[test]
fn test_parameter_space_with_param() {
    let space = ParameterSpace::with_preset(SpacePreset::Minimal).with_param(
        TunableParam::Colsample,
        ParamBounds::continuous(bits(0.5), bits(1.0)),
        bits(0.8),
    );

    assert_eq!(space.len(), 3);
    assert!(space.get(TunableParam::Colsample).is_some());
}

#[test]
fn test_parameter_space_without_param() {
    let space =
        ParameterSpace::with_preset(SpacePreset::Regression).without_param(TunableParam::EntropyWeight);

    assert_eq!(space.len(), 4);
    assert!(space.get(TunableParam::EntropyWeight).is_none());
}

#[test]
fn test_parameter_space_centers() {
    let mut space = ParameterSpace::with_preset(SpacePreset::Minimal);
    let centers = space.centers();
    assert_eq!(centers.get("max_depth"), Some(&bits(6.0)));
    assert_eq!(centers.get("learning_rate"), Some(&bits(0.1)));

    let mut new_centers = ParamMap::new();
    new_centers.insert("max_depth".to_string(), bits(8.0));
    space.set_centers(&new_centers);
    assert_eq!(number(space.get(TunableParam::MaxDepth).unwrap().center), 8.0);
    assert_eq!(number(space.get(TunableParam::LearningRate).unwrap().center), 0.1);
}

#[test]
fn test_parameter_space_add_and_remove() {
    let space = ParameterSpace::new()
        .with_param(TunableParam::MaxDepth, ParamBounds::discrete(2, 10), bits(6.0))
        .with_param(
            TunableParam::LearningRate,
            ParamBounds::log_continuous(bits(0.01), bits(0.3)),
            bits(0.1),
        );
    assert_eq!(space.len(), 2);

    let space = space.without_param(TunableParam::LearningRate);
    assert_eq!(space.len(), 1);
    assert!(space.get(TunableParam::MaxDepth).is_some());
    assert!(space.get(TunableParam::LearningRate).is_none());
}

#[test]
fn test_eval_strategy() {
    let holdout = EvalStrategy::holdout(bits(0.2));
    assert!(holdout.validate().is_ok());
    assert_eq!(holdout.folds(), 1);

    let holdout_5fold = EvalStrategy::holdout(bits(0.2)).with_folds(5);
    assert!(holdout_5fold.validate().is_ok());
    assert_eq!(holdout_5fold.folds(), 5);

    let conformal = EvalStrategy::conformal(bits(0.2), bits(0.9)).with_folds(3);
    assert!(conformal.validate().is_ok());
    assert_eq!(conformal.folds(), 3);

    let invalid_holdout = EvalStrategy::holdout(bits(1.5));
    assert!(invalid_holdout.validate().is_err());

    let invalid_folds = EvalStrategy::holdout(bits(0.2)).with_folds(0);
    assert!(invalid_folds.validate().is_err());
}

#[test]
fn test_eval_strategy_auto() {
    assert!(matches!(EvalStrategy::auto(500), EvalStrategy::Holdout { folds: 5, .. }));
    assert!(matches!(EvalStrategy::auto(2000), EvalStrategy::Holdout { folds: 3, .. }));
    assert!(matches!(EvalStrategy::auto(10000), EvalStrategy::Holdout { folds: 1, .. }));
}

#[test]
fn folds_change_at_a_thousand_and_above_five_thousand_rows() {
    for (rows, folds) in [(0, 5), (999, 5), (1000, 3), (5000, 3), (5001, 1)] {
        assert_eq!(EvalStrategy::auto(rows).folds(), folds);
    }
}

#[test]
fn test_grid_strategy() {
    let cart = GridStrategy::cartesian(3);
    assert_eq!(cart.num_candidates(5), 243);

    let lhs = GridStrategy::lhs(50);
    assert_eq!(lhs.num_candidates(5), 50);

    let rand = GridStrategy::random(100);
    assert_eq!(rand.num_candidates(5), 100);
}

#[test]
fn test_grid_strategy_validate() {
    assert!(GridStrategy::cartesian(3).validate().is_ok());
    assert!(GridStrategy::cartesian(1).validate().is_err());
    assert!(GridStrategy::lhs(0).validate().is_err());
}

#[test]
fn test_tuner_config_default() {
    let config = TunerConfig::default();
    assert_eq!(config.n_iterations, 5);
    assert_eq!(number(config.initial_spread), 1.0);
    assert_eq!(number(config.zoom_factor), 0.8);
    assert_eq!(config.early_stopping_rounds, 10);
    assert_eq!(number(config.validation_ratio), 0.2);
    assert_eq!(number(config.improvement_threshold), 0.001);
    assert!(config.validate().is_ok());
}

#[test]
fn test_tuner_config_quick() {
    let config = TunerConfig::default().with_preset(TunerPreset::Quick);
    assert_eq!(config.n_iterations, 2);
    assert_eq!(config.num_rounds, 50);
    assert_eq!(config.early_stopping_rounds, 5);
    assert_eq!(number(config.improvement_threshold), 0.01);
}

#[test]
fn test_tuner_config_thorough() {
    let config = TunerConfig::default().with_preset(TunerPreset::Thorough);
    assert_eq!(config.n_iterations, 7);
    assert_eq!(config.num_rounds, 200);
    assert_eq!(config.early_stopping_rounds, 20);
    assert_eq!(number(config.improvement_threshold), 0.0001);
}

#[test]
fn test_tuner_config_builders() {
    let config =
        TunerConfig::new().with_iterations(5).with_num_rounds(200).with_seed(123).with_verbose(false);

    assert_eq!(config.n_iterations, 5);
    assert_eq!(config.num_rounds, 200);
    assert_eq!(config.seed, 123);
    assert!(!config.verbose);
}

#[test]
fn test_tuner_config_estimated_trials() {
    let config = TunerConfig::default();
    assert_eq!(config.estimated_trials(), 1215);
}

#[test]
fn test_tuner_config_validate() {
    assert!(TunerConfig::default().validate().is_ok());

    let invalid = TunerConfig::default().with_iterations(0);
    assert!(invalid.validate().is_err());

    let invalid = TunerConfig::default().with_initial_spread(bits(0.0));
    assert!(invalid.validate().is_err());

    let invalid = TunerConfig::default().with_zoom_factor(bits(1.0));
    assert!(invalid.validate().is_err());

    let invalid = TunerConfig::default().with_num_rounds(0);
    assert!(invalid.validate().is_err());
}

#[test]
fn test_parallel_config_respected() {
    let config = TunerConfig::new().with_parallel(true).with_n_parallel(4);
    assert!(config.parallel_trials);
    assert_eq!(config.n_parallel, 4);
}

#[test]
fn test_tuning_mode_variants() {
    let optimistic = TuningMode::Optimistic;
    let realistic = TuningMode::Realistic;
    assert!(matches!(optimistic, TuningMode::Optimistic));
    assert!(matches!(realistic, TuningMode::Realistic));
    assert!(optimistic.is_optimistic() && !optimistic.is_realistic());
    assert!(realistic.is_realistic() && !realistic.is_optimistic());
    assert_eq!(TuningMode::optimistic(), optimistic);
    assert_eq!(TuningMode::realistic(), realistic);
}

#[test]
fn clamping_keeps_what_is_within_and_nothing_else() {
    let all = vec![
        ParamBounds::continuous(bits(-2.0), bits(3.0)),
        ParamBounds::log_continuous(bits(0.5), bits(4.0)),
        ParamBounds::discrete(1, 7),
        ParamBounds::discrete_step(1, 9, 3),
        ParamBounds::categorical_from_strs(&["a", "b", "c"]),
    ];
    for bounds in &all {
        for k in -12..24 {
            let value = bits(k as f32 * 0.5);
            let once = bounds.clamp(value);
            assert!(bounds.contains(once), "{:?} holds {}", bounds, number(once));
            assert_eq!(bounds.clamp(once), once);
        }
    }
    assert_eq!(number(all[0].clamp(bits(2.75))), 2.75);
    // Steps count from the least value.
    assert_eq!(number(all[3].clamp(bits(6.0))), 4.0);
    assert_eq!(number(all[3].clamp(bits(9.0))), 7.0);
    // Not a number stays what it is on a continuous range.
    assert!(all[0].clamp(bits(f32::NAN)).is_nan());
}

#[test]
fn values_are_compared_with_the_ends() {
    let whole = ParamBounds::discrete(0, 10);
    for (value, within) in [(-5.0, false), (-0.5, false), (0.0, true), (9.5, true), (10.0, true), (10.5, false)] {
        assert_eq!(whole.contains(bits(value)), within, "{}", value);
    }
    assert!(!whole.contains(bits(f32::NAN)));
    let names = ParamBounds::categorical_from_strs(&["a", "b", "c"]);
    assert!(names.contains(bits(2.0)) && !names.contains(bits(2.5)) && !names.contains(bits(-1.0)));
    assert!(!ParamBounds::categorical(Vec::new()).contains(bits(0.0)));
    // Far beyond what a single-precision number tells apart.
    let large = ParamBounds::discrete(3, 33_554_435);
    assert!(large.contains(large.clamp(bits(1e9))));
}

#[test]
fn categories_are_found_by_index_and_by_name() {
    let bounds = ParamBounds::categorical(vec!["red".to_string(), "blue".to_string()]);
    assert!(bounds.is_categorical());
    assert_eq!(bounds.get_categorical_value(1), Some("blue"));
    assert_eq!(bounds.get_categorical_value(2), None);
    assert_eq!(bounds.categorical_index("red"), Some(0));
    assert_eq!(bounds.categorical_index("green"), None);
    assert_eq!(bounds.categorical_values().unwrap().len(), 2);
    assert_eq!(number(bounds.max_value()), 1.0);
    assert_eq!(ParamBounds::discrete(1, 2).categorical_values(), None);
    assert_eq!(ParamBounds::discrete(1, 2).get_categorical_value(0), None);
}

#[test]
fn every_parameter_has_its_own_name() {
    let names = TunableParam::all_names();
    for (i, name) in names.iter().enumerate() {
        let param = TunableParam::parse(name).unwrap();
        assert_eq!(param.to_string(), *name);
        assert!(!names[..i].contains(name));
    }
    assert!(TunableParam::parse("no_such_parameter").is_err());
    assert!(TunableParam::gbdt_params().contains(&TunableParam::MaxDepth));
    assert!(TunableParam::universal_params().contains(&TunableParam::Mode));
}

#[test]
fn a_parameter_is_defined_by_its_name() {
    let def = ParamDef::from_str("max_depth", ParamBounds::discrete(2, 10), bits(20.0)).unwrap();
    assert_eq!(def.name, TunableParam::MaxDepth);
    assert_eq!(def.name_str(), "max_depth");
    let unknown = ParamDef::from_str("depth", ParamBounds::discrete(2, 10), bits(6.0));
    assert!(unknown.is_err());
}

#[test]
fn an_added_parameter_replaces_the_old_one() {
    let space = ParameterSpace::with_preset(SpacePreset::Minimal).with_param(
        TunableParam::MaxDepth,
        ParamBounds::discrete(3, 5),
        bits(4.0),
    );
    assert_eq!(space.len(), 2);
    let def = space.get(TunableParam::MaxDepth).unwrap();
    assert_eq!(number(def.center), 4.0);
    assert_eq!(number(def.bounds.max_value()), 5.0);
    assert_eq!(space.param_names(), vec!["learning_rate", "max_depth"]);
}

#[test]
fn a_removed_parameter_is_gone() {
    let space = ParameterSpace::exhaustive();
    for param in space.param_names() {
        let name = TunableParam::parse(param).unwrap();
        let rest = ParameterSpace::exhaustive().without_param(name);
        assert!(rest.get(name).is_none());
        assert_eq!(rest.len() + 1, space.len());
    }
}

#[test]
fn presets_hold_each_parameter_once() {
    let spaces = vec![
        ParameterSpace::with_preset(SpacePreset::Minimal),
        ParameterSpace::with_preset(SpacePreset::Regression),
        ParameterSpace::with_preset(SpacePreset::Classification),
        ParameterSpace::with_preset(SpacePreset::Universal),
        ParameterSpace::with_preset(SpacePreset::Exhaustive),
        ParameterSpace::universal_mode_only(),
        ParameterSpace::universal_linear_then_tree(),
    ];
    for space in &spaces {
        let names = space.param_names();
        for (i, name) in names.iter().enumerate() {
            assert!(!names[..i].contains(name));
        }
        for def in space.params() {
            assert!(def.bounds.contains(def.center), "{:?}", def);
        }
    }
    assert_eq!(spaces[5].param_names(), vec!["mode"]);
    assert!(ParameterSpace::new().is_empty());
}

#[test]
fn own_centers_change_nothing() {
    let mut space = ParameterSpace::with_preset(SpacePreset::Regression);
    let centers = space.centers();
    let before: Vec<F32> = space.params().iter().map(|def| def.center).collect();
    space.set_centers(&centers);
    let after: Vec<F32> = space.params().iter().map(|def| def.center).collect();
    assert_eq!(before, after);

    let mut moved = ParameterSpace::with_preset(SpacePreset::Minimal);
    let targets: Vec<F32> = moved.params().iter().map(|def| def.bounds.max_value()).collect();
    moved.move_centers(&targets);
    for def in moved.params() {
        assert_eq!(def.center, def.bounds.max_value());
    }
    moved.get_mut(TunableParam::MaxDepth).unwrap().set_center(bits(3.0));
    assert_eq!(number(moved.get(TunableParam::MaxDepth).unwrap().center), 3.0);
    assert!(moved.get_mut(TunableParam::Colsample).is_none());
}

#[test]
fn each_broken_setting_has_its_message() {
    let message = |config: TunerConfig| text(&config.validate().unwrap_err());
    assert_eq!(message(TunerConfig::default().with_iterations(0)), "n_iterations must be > 0");
    assert_eq!(message(TunerConfig::default().with_num_rounds(0)), "num_rounds must be > 0");
    assert_eq!(
        message(TunerConfig::default().with_initial_spread(bits(1.5))),
        "initial_spread must be in (0, 1], got 1.5"
    );
    assert_eq!(
        message(TunerConfig::default().with_zoom_factor(bits(0.0))),
        "zoom_factor must be in (0, 1), got 0"
    );
    assert_eq!(
        message(TunerConfig::default().with_grid_strategy(GridStrategy::cartesian(1))),
        "points_per_dim must be >= 2, got 1"
    );
    assert_eq!(
        message(TunerConfig::default().with_grid_strategy(GridStrategy::random(0))),
        "n_samples must be >= 1, got 0"
    );
    let strategy = |strategy: EvalStrategy| message(TunerConfig::default().with_eval_strategy(strategy));
    assert_eq!(strategy(EvalStrategy::holdout(bits(1.5))), "validation_ratio must be in (0, 1), got 1.5");
    assert_eq!(strategy(EvalStrategy::holdout(bits(0.5)).with_folds(0)), "folds must be >= 1");
    assert_eq!(
        strategy(EvalStrategy::conformal(bits(0.0), bits(0.9))),
        "calibration_ratio must be in (0, 1), got 0"
    );
    assert_eq!(strategy(EvalStrategy::conformal(bits(0.2), bits(2.0))), "quantile must be in (0, 1), got 2");
    assert!(is_outside_unit(bits(1.0)) && is_outside_unit(bits(0.0)) && !is_outside_unit(bits(0.5)));
}

#[test]
fn presets_keep_settings_valid() {
    let presets = [
        TunerPreset::SmokeTest,
        TunerPreset::Quick,
        TunerPreset::Balanced,
        TunerPreset::Thorough,
    ];
    for preset in presets {
        let config = TunerConfig::default().with_preset(preset).with_seed(9);
        assert!(config.validate().is_ok());
        assert!(config.estimated_trials() > 0);
    }
}

#[test]
fn settings_answer_for_themselves() {
    assert_eq!(ModelFormat::Rkyv.extension(), "rkyv");
    assert_eq!(ModelFormat::Rkyv.filename(), "best_model.rkyv");
    assert!(!OptimizationMetric::ValidationLoss.higher_is_better());
    assert!(OptimizationMetric::F1Score.higher_is_better());
    assert!(OptimizationMetric::RocAuc.higher_is_better());
    assert!(TaskType::BinaryClassification.is_binary() && TaskType::BinaryClassification.is_classification());
    assert!(TaskType::Regression.is_regression() && !TaskType::Regression.is_classification());
    let config = TunerConfig::new().with_output_dir("runs").without_early_stopping().realistic();
    assert_eq!(config.output_dir.as_deref(), Some("runs"));
    assert_eq!(config.early_stopping_rounds, 0);
    assert!(config.tuning_mode.is_realistic());
    let stopped = TunerConfig::new().with_early_stopping(7, bits(0.3));
    assert_eq!((stopped.early_stopping_rounds, number(stopped.validation_ratio)), (7, 0.3));
    assert!(matches!(
        EvalStrategy::conformal_90(bits(0.2)),
        EvalStrategy::Conformal { quantile, folds: 1, .. } if number(quantile) == 0.9
    ));
}

#[test]
fn settings_are_set_one_by_one() {
    let config = TunerConfig::new()
        .with_tuning_mode(TuningMode::Realistic)
        .with_save_model_formats(vec![ModelFormat::Rkyv]);
    assert_eq!(config.tuning_mode, TuningMode::Realistic);
    assert_eq!(config.save_model_formats, vec![ModelFormat::Rkyv]);
    assert_eq!(config.n_iterations, TunerConfig::new().n_iterations);
}
