//! What scripts hand over: names, settings and data.

use treeboost::backend::{BackendType, GpuMode};
use treeboost::float::{F32, F64};
use treeboost::interface::arrays::{
    bin_at, column_at, dataset_from_arrays, dataset_from_columns, flatten, names_of_columns, rows_with_eras,
};
use treeboost::interface::data::{
    check_class_query, check_delta, check_eps, check_eras, check_feature_index, check_feature_info, check_fold_index, check_folds,
    check_gradient, check_holdout, check_intervals, check_num_bins, check_pair, check_pipeline_sketch,
    check_row_index, check_sketch, check_smoothing, check_sparse_index, check_table, check_targets, feature_names,
    check_class_prediction, validate_feature_count, ClassQuery,
};
use treeboost::interface::names::{
    backend_name, gpu_mode_name, parse_backend, parse_gbdt_preset, parse_gpu_mode, parse_model_format,
    parse_space_preset, parse_tuner_preset, GbdtPreset, SaveFormat,
};
use treeboost::interface::repr::{
    bounds_repr, constraint_repr, eval_strategy_repr, folds_repr, format_repr, grid_strategy_repr, history_repr,
    holdout_repr, metric_repr, settings_repr, space_repr, task_repr, trial_repr, tuner_config_repr, tuner_repr,
    tuning_mode_repr,
};
use treeboost::interface::settings::{
    constraint_to_int, parse_formats, parse_monotonic_constraints, GbdtSettings, LossType,
};
use treeboost::interface::tuner_setup::{tuning_failure, TunerSetup};
use treeboost::interface::tuning::{
    add_continuous, add_discrete, add_integer_range, add_log_continuous, cartesian_strategy, config_with_early_stopping,
    config_with_improvement_threshold, config_with_initial_spread, config_with_iterations, config_with_min_f1_score,
    config_with_num_rounds, config_with_preset, config_with_zoom_factor, conformal_strategy, continuous_bounds,
    discrete_bounds, discrete_step_bounds, holdout_strategy, lhs_strategy, log_continuous_bounds, random_strategy,
    remove_param, space_preset, strategy_with_folds,
};
use treeboost::tree::split::MonotonicConstraint;
use treeboost::tuner::bounds::ParamBounds;
use treeboost::tuner::config::{
    EvalStrategy, GridStrategy, OptimizationMetric, TaskType, TunerConfig, TunerPreset, TuningMode,
};
use treeboost::tuner::params::TunableParam;
use treeboost::tuner::space::{ParameterSpace, SpacePreset};

fn bits(value: f32) -> F32 {
    F32 { bits: value.to_bits() }
}

fn wide(value: f64) -> F64 {
    F64 { bits: value.to_bits() }
}

fn settings() -> GbdtSettings {
    GbdtSettings {
        num_rounds: 100,
        learning_rate: bits(0.1),
        max_depth: 6,
        max_leaves: 31,
        min_samples_leaf: 1,
        min_hessian_leaf: bits(1.0),
        min_gain: bits(0.0),
        lambda: bits(1.0),
        entropy_weight: bits(0.0),
        loss_type: LossType::Mse,
        subsample: bits(1.0),
        colsample: bits(1.0),
        num_bins: 255,
        calibration_ratio: bits(0.0),
        conformal_quantile: bits(0.9),
        early_stopping_rounds: 0,
        validation_ratio: bits(0.0),
        parallel_prediction: true,
        column_reordering: false,
        packed_dataset: false,
        parallel_gradient: true,
        use_gpu_subgroups: false,
        backend_type: BackendType::Auto,
        gpu_mode: GpuMode::Auto,
        monotonic_constraints: Vec::new(),
        era_splitting: false,
        interaction_groups: Vec::new(),
    }
}

#[test]
fn case_does_not_matter_in_names() {
    assert_eq!(parse_model_format("RKYV"), Ok(SaveFormat::Rkyv));
    assert_eq!(parse_model_format("Bin"), Ok(SaveFormat::Bincode));
    assert_eq!(parse_model_format("json"), Err("format must be 'rkyv' or 'bincode'".to_string()));
    assert_eq!(parse_gbdt_preset("SmallData"), Ok(GbdtPreset::SmallData));
    assert!(parse_gbdt_preset("tiny").is_err());
    assert_eq!(parse_space_preset("Minimal"), Ok(SpacePreset::Minimal));
    assert!(parse_space_preset("").is_err());
    assert_eq!(parse_tuner_preset("Smoke_Test"), Ok(TunerPreset::SmokeTest));
    assert!(parse_tuner_preset("slow").is_err());
    assert_eq!(parse_backend("GPU"), Ok(BackendType::Auto));
    assert_eq!(parse_backend("Cpu"), Ok(BackendType::Scalar));
    assert!(parse_backend("tpu").unwrap_err().starts_with("backend must be one of"));
    assert_eq!(parse_gpu_mode("FULL"), Ok(GpuMode::Full));
    assert_eq!(parse_gpu_mode("half"), Err("gpu_mode must be one of: 'auto', 'hybrid', 'full'".to_string()));
}

#[test]
fn names_that_are_given_are_understood() {
    for mode in [GpuMode::Auto, GpuMode::Hybrid, GpuMode::Full] {
        assert_eq!(parse_gpu_mode(gpu_mode_name(mode)), Ok(mode));
    }
    for backend in [BackendType::Auto, BackendType::Scalar, BackendType::Wgpu, BackendType::Cuda] {
        assert_eq!(parse_backend(backend_name(backend)), Ok(backend));
    }
}

#[test]
fn formats_are_listed_in_order() {
    assert_eq!(parse_formats(None), Ok(vec![SaveFormat::Rkyv]));
    let both = vec!["bincode".to_string(), "rkyv".to_string()];
    assert_eq!(parse_formats(Some(&both)), Ok(vec![SaveFormat::Bincode, SaveFormat::Rkyv]));
    assert_eq!(parse_formats(Some(&[])), Err("formats list must not be empty".to_string()));
    assert!(parse_formats(Some(&["rkyv".to_string(), "xml".to_string()])).is_err());
}

#[test]
fn directions_are_numbers() {
    let all = vec![
        MonotonicConstraint::Increasing,
        MonotonicConstraint::Decreasing,
        MonotonicConstraint::Unconstrained,
    ];
    let codes: Vec<i32> = all.iter().map(|c| constraint_to_int(*c)).collect();
    assert_eq!(codes, vec![1, -1, 0]);
    assert_eq!(parse_monotonic_constraints(&codes), Ok(all));
    assert_eq!(
        parse_monotonic_constraints(&[1, 2]),
        Err("Constraint must be 1 (increasing), -1 (decreasing), or 0 (none)".to_string())
    );
}

#[test]
fn each_setting_has_its_rule() {
    let rule = |changed: Result<GbdtSettings, String>| changed.err().unwrap();
    assert_eq!(rule(settings().with_num_rounds(0)), "num_rounds must be >= 1");
    assert_eq!(rule(settings().with_learning_rate(bits(0.0))), "learning_rate must be in (0.0, 1.0]");
    assert_eq!(rule(settings().with_learning_rate(bits(1.5))), "learning_rate must be in (0.0, 1.0]");
    assert_eq!(rule(settings().with_max_depth(0)), "max_depth must be >= 1");
    assert_eq!(rule(settings().with_max_leaves(1)), "max_leaves must be >= 2");
    assert_eq!(rule(settings().with_min_samples_leaf(0)), "min_samples_leaf must be >= 1");
    assert_eq!(rule(settings().with_min_hessian_leaf(bits(-1.0))), "min_hessian_leaf must be >= 0.0");
    assert_eq!(rule(settings().with_min_gain(bits(-1.0))), "min_gain must be >= 0.0");
    assert_eq!(rule(settings().with_lambda(bits(-1.0))), "lambda must be >= 0.0");
    assert_eq!(rule(settings().with_entropy_weight(bits(-1.0))), "entropy_weight must be >= 0.0");
    assert_eq!(rule(settings().with_subsample(bits(0.0))), "subsample must be in (0.0, 1.0]");
    assert_eq!(rule(settings().with_colsample(bits(2.0))), "colsample must be in (0.0, 1.0]");
    assert_eq!(rule(settings().with_num_bins(256)), "num_bins must be in [2, 255]");
    assert_eq!(rule(settings().with_calibration_ratio(bits(1.0))), "calibration_ratio must be in [0.0, 1.0)");
    assert_eq!(rule(settings().with_conformal_quantile(bits(1.0))), "conformal_quantile must be in (0.0, 1.0)");
    assert_eq!(rule(settings().with_validation_ratio(bits(-0.5))), "validation_ratio must be in [0.0, 1.0)");
    assert_eq!(rule(settings().with_pseudo_huber_loss(bits(0.0))), "delta must be > 0.0");
    assert_eq!(rule(settings().with_multiclass_logloss(1)), "num_classes must be >= 2");
    assert!(settings().with_backend("tpu").is_err());
    assert!(settings().with_gpu_mode("half").is_err());
    assert!(settings().with_monotonic_constraints(&[3]).is_err());
}

#[test]
fn settings_that_keep_the_rules_are_taken() {
    let changed = settings()
        .with_num_rounds(7)
        .and_then(|s| s.with_learning_rate(bits(1.0)))
        .and_then(|s| s.with_multiclass_logloss(3))
        .and_then(|s| s.with_backend("CUDA"))
        .and_then(|s| s.with_gpu_mode("Hybrid"))
        .and_then(|s| s.with_monotonic_constraints(&[0, 1]))
        .unwrap()
        .with_early_stopping_rounds(5)
        .with_era_splitting(true)
        .with_interaction_groups(vec![vec![0, 1]]);
    assert_eq!(changed.num_rounds, 7);
    assert_eq!(changed.learning_rate, bits(1.0));
    assert_eq!(changed.loss_type, LossType::MultiClassLogLoss { num_classes: 3 });
    assert_eq!((changed.backend_type, changed.gpu_mode), (BackendType::Cuda, GpuMode::Hybrid));
    assert_eq!(changed.monotonic_constraints.len(), 2);
    assert_eq!(changed.early_stopping_rounds, 5);
    assert!(changed.era_splitting && changed.parallel_prediction);
    assert_eq!(changed.interaction_groups, vec![vec![0, 1]]);
    assert_eq!(changed.max_depth, 6);
}

#[test]
fn lengths_have_to_match() {
    assert_eq!(validate_feature_count(3, 4), Err("Expected 4 features, got 3".to_string()));
    assert!(validate_feature_count(4, 4).is_ok());
    assert!(check_eras(5, 5, true).is_ok());
    assert_eq!(
        check_eras(4, 5, true),
        Err("era_indices length 4 doesn't match number of rows 5".to_string())
    );
    assert!(check_eras(5, 5, false).is_err());
    assert!(check_targets(5, 5).is_ok() && check_targets(4, 5).is_err());
    assert!(check_feature_info(2, 2).is_ok() && check_feature_info(1, 2).is_err());
    assert_eq!(
        check_pair("predictions", 3, "targets", 4),
        Err("predictions length 3 doesn't match targets length 4".to_string())
    );
    assert!(check_pair("a", 3, "b", 3).is_ok());
    assert!(check_table(&[vec![bits(0.5)], vec![bits(0.25)]]).is_ok());
    assert!(check_table(&[vec![bits(0.5)], vec![]]).is_err());
}

#[test]
fn features_without_names_are_numbered() {
    assert_eq!(feature_names(None, 3).unwrap(), vec!["feature_0", "feature_1", "feature_2"]);
    let given = vec!["a".to_string(), "b".to_string()];
    assert_eq!(feature_names(Some(given.clone()), 2), Ok(given.clone()));
    assert_eq!(
        feature_names(Some(given), 3),
        Err("feature_names length 2 doesn't match num_features 3".to_string())
    );
}

#[test]
fn flat_columns_are_found_again() {
    let columns = vec![vec![1, 2, 3], vec![4, 5, 6]];
    let flat = flatten(&columns);
    assert_eq!(flat, vec![1, 2, 3, 4, 5, 6]);
    for (f, column) in columns.iter().enumerate() {
        for (r, value) in column.iter().enumerate() {
            assert_eq!(flat[f * 3 + r], *value);
        }
    }
}

#[test]
fn indices_have_to_exist() {
    assert!(check_feature_index(2, 3).is_ok() && check_feature_index(3, 3).is_err());
    assert!(check_row_index(2, 3).is_ok() && check_row_index(3, 3).is_err());
    assert!(check_fold_index(2, 3).is_ok() && check_fold_index(3, 3).is_err());
    assert_eq!(check_num_bins(255), Ok(255));
    assert!(check_num_bins(0).is_err() && check_num_bins(256).is_err());
    assert!(check_gradient(3, 2, Some(0), 3).is_ok());
    assert_eq!(check_gradient(2, 0, None, 3), Err("raw_preds length 2 doesn't match num_classes 3".to_string()));
    assert_eq!(check_gradient(3, 3, None, 3), Err("target_class 3 >= num_classes 3".to_string()));
    assert_eq!(check_gradient(3, 0, Some(4), 3), Err("class_idx 4 >= num_classes 3".to_string()));
}

#[test]
fn rows_are_split_by_proper_shares() {
    let check = |n: usize, val: f32, calib: f32| check_holdout(n, bits(val), bits(calib), bits(val + calib));
    assert!(check(10, 0.2, 0.1).is_ok());
    assert_eq!(check(0, 0.2, 0.1), Err("n_samples must be > 0".to_string()));
    assert_eq!(check(10, 1.0, 0.1), Err("val_ratio must be in [0.0, 1.0)".to_string()));
    assert_eq!(check(10, 0.2, -0.1), Err("calib_ratio must be in [0.0, 1.0)".to_string()));
    assert_eq!(check(10, 0.5, 0.5), Err("val_ratio + calib_ratio must be < 1.0".to_string()));
    assert!(check_folds(10, 5).is_ok());
    assert_eq!(check_folds(0, 5), Err("n_samples must be > 0".to_string()));
    assert_eq!(check_folds(10, 1), Err("k must be >= 2 for cross-validation".to_string()));
    assert_eq!(check_folds(4, 5), Err("k cannot exceed n_samples".to_string()));
}

#[test]
fn questions_fit_the_kind_of_model() {
    for multiclass in [false, true] {
        assert_eq!(check_class_query(ClassQuery::Proba, multiclass).is_ok(), !multiclass);
        assert_eq!(check_class_query(ClassQuery::Class, multiclass).is_ok(), !multiclass);
        assert_eq!(check_class_query(ClassQuery::ProbaMulticlass, multiclass).is_ok(), multiclass);
        assert_eq!(check_class_query(ClassQuery::ClassMulticlass, multiclass).is_ok(), multiclass);
    }
    assert!(check_intervals(bits(0.9), Some(bits(0.0))).is_ok());
    assert!(check_intervals(bits(1.0), None).is_err());
    assert!(check_intervals(bits(0.9), Some(bits(-1.0))).is_err());
    assert!(check_sketch(wide(2.0), wide(0.5)).is_ok());
    assert_eq!(check_sketch(wide(0.0), wide(0.5)), Err("eps must be positive".to_string()));
    assert_eq!(check_sketch(wide(0.5), wide(1.0)), Err("confidence must be in (0, 1)".to_string()));
    assert!(check_pipeline_sketch(wide(0.5), wide(0.5)).is_ok());
    assert_eq!(check_pipeline_sketch(wide(2.0), wide(0.5)), Err("eps must be between 0 and 1".to_string()));
    assert!(check_pipeline_sketch(wide(0.5), wide(0.0)).is_err());
    assert!(check_smoothing(wide(0.0)).is_ok());
    assert_eq!(check_smoothing(wide(-1.0)), Err("smoothing must be non-negative".to_string()));
}

#[test]
fn losses_and_sparse_features_are_checked() {
    assert!(check_delta(bits(1.0)).is_ok() && check_eps(bits(1e-7)).is_ok());
    for wrong in [0.0, -1.0] {
        assert_eq!(check_delta(bits(wrong)), Err("delta must be positive".to_string()));
        assert_eq!(check_eps(bits(wrong)), Err("eps must be positive".to_string()));
    }
    assert!(check_sparse_index(3, 4).is_ok());
    assert_eq!(check_sparse_index(4, 4), Err("feature index 4 out of range".to_string()));
}

#[test]
fn bounds_are_checked_when_scripts_make_them() {
    assert!(continuous_bounds(bits(0.0), bits(1.0)).is_ok());
    assert_eq!(continuous_bounds(bits(1.0), bits(1.0)).err().unwrap(), "min must be less than max");
    assert_eq!(
        log_continuous_bounds(bits(0.0), bits(1.0)).err().unwrap(),
        "min must be positive for log scaling"
    );
    assert!(log_continuous_bounds(bits(0.5), bits(1.0)).unwrap().is_log_scale());
    assert!(discrete_bounds(2, 2).is_err() && discrete_bounds(2, 3).is_ok());
    assert_eq!(discrete_step_bounds(2, 4, 0).err().unwrap(), "step must be positive");
    assert!(discrete_step_bounds(2, 4, 2).is_ok());
}

#[test]
fn spaces_are_changed_by_name() {
    let space = space_preset("MINIMAL").unwrap();
    let space = add_continuous(space, "subsample", bits(0.5), bits(1.0), bits(0.75)).unwrap();
    let space = add_log_continuous(space, "lambda", bits(0.5), bits(8.0), bits(1.0)).unwrap();
    let space = add_discrete(space, "max_depth", 3, 9, bits(5.0)).unwrap();
    let space = add_integer_range(space, "min_samples_leaf", 1, 9, 2, bits(4.0)).unwrap();
    assert_eq!(space.len(), 5);
    assert_eq!(space.get(TunableParam::MinSamplesLeaf).unwrap().center, bits(3.0));
    let space = remove_param(space, "lambda").unwrap();
    assert!(space.get(TunableParam::Lambda).is_none());
    assert!(remove_param(ParameterSpace::new(), "gamma_ray").is_err());
    assert!(space_preset("maximal").is_err());
    assert!(add_continuous(ParameterSpace::new(), "gamma_ray", bits(0.0), bits(1.0), bits(0.5)).is_err());
    assert_eq!(
        add_continuous(ParameterSpace::new(), "lambda", bits(1.0), bits(0.0), bits(0.5)).err().unwrap(),
        "min must be less than max"
    );
}

#[test]
fn strategies_and_settings_are_checked() {
    assert_eq!(cartesian_strategy(3), Ok(GridStrategy::Cartesian { points_per_dim: 3 }));
    assert_eq!(cartesian_strategy(1), Err("points_per_dim must be >= 2".to_string()));
    assert_eq!(lhs_strategy(0), Err("n_samples must be >= 1".to_string()));
    assert_eq!(random_strategy(4), Ok(GridStrategy::Random { n_samples: 4 }));
    assert_eq!(holdout_strategy(bits(1.0)), Err("validation_ratio must be in (0, 1)".to_string()));
    assert!(conformal_strategy(bits(0.2), bits(0.9)).is_ok());
    assert_eq!(conformal_strategy(bits(0.2), bits(0.0)), Err("coverage must be in (0, 1)".to_string()));
    let folded = strategy_with_folds(EvalStrategy::holdout(bits(0.2)), 4).unwrap();
    assert_eq!(folded.folds(), 4);
    assert!(strategy_with_folds(folded, 0).is_err());

    let config = config_with_preset(TunerConfig::default(), "Quick").unwrap();
    assert_eq!(config.n_iterations, 2);
    let config = config_with_iterations(config, 4).unwrap();
    let config = config_with_initial_spread(config, bits(0.5)).unwrap();
    let config = config_with_zoom_factor(config, bits(0.5)).unwrap();
    let config = config_with_num_rounds(config, 30).unwrap();
    let config = config_with_early_stopping(config, 3, bits(0.25)).unwrap();
    let config = config_with_improvement_threshold(config, bits(0.5)).unwrap();
    let config = config_with_min_f1_score(config, bits(1.0)).unwrap();
    assert_eq!((config.n_iterations, config.num_rounds, config.early_stopping_rounds), (4, 30, 3));
    assert_eq!((config.initial_spread, config.min_f1_score), (bits(0.5), bits(1.0)));
    assert!(config_with_preset(TunerConfig::default(), "snail").is_err());
    assert!(config_with_iterations(TunerConfig::default(), 0).is_err());
    assert!(config_with_initial_spread(TunerConfig::default(), bits(0.0)).is_err());
    assert!(config_with_zoom_factor(TunerConfig::default(), bits(1.0)).is_err());
    assert!(config_with_num_rounds(TunerConfig::default(), 0).is_err());
    assert!(config_with_improvement_threshold(TunerConfig::default(), bits(-1.0)).is_err());
    assert!(config_with_min_f1_score(TunerConfig::default(), bits(1.5)).is_err());
}

#[test]
fn fixed_texts_of_choices() {
    assert_eq!(constraint_repr(MonotonicConstraint::Increasing), "MonotonicConstraint.increasing()");
    assert_eq!(constraint_repr(MonotonicConstraint::Unconstrained), "MonotonicConstraint.none()");
    assert_eq!(tuning_mode_repr(TuningMode::Realistic), "TuningMode.realistic()");
    assert_eq!(metric_repr(OptimizationMetric::RankIc), "OptimizationMetric.rank_ic()");
    assert_eq!(task_repr(TaskType::MultiClassClassification), "TaskType.multi_class_classification()");
    assert_eq!(format_repr(SaveFormat::Bincode), "ModelFormat.bincode()");
}

#[test]
fn strategies_show_their_numbers() {
    assert_eq!(grid_strategy_repr(GridStrategy::Cartesian { points_per_dim: 3 }), "GridStrategy.cartesian(3)");
    assert_eq!(grid_strategy_repr(GridStrategy::LatinHypercube { n_samples: 50 }), "GridStrategy.lhs(50)");
    assert_eq!(grid_strategy_repr(GridStrategy::Random { n_samples: 0 }), "GridStrategy.random(0)");
    let once = EvalStrategy::Holdout { validation_ratio: bits(0.2), folds: 1 };
    assert_eq!(eval_strategy_repr(once, "0.2", ""), "EvalStrategy.holdout(0.2)");
    let often = EvalStrategy::Conformal { calibration_ratio: bits(0.1), quantile: bits(0.9), folds: 5 };
    assert_eq!(eval_strategy_repr(often, "0.1", "0.9"), "EvalStrategy.conformal(0.1, 0.9).with_folds(5)");
}

#[test]
fn bounds_show_how_they_were_made() {
    let plain = ParamBounds::Continuous { min: bits(0.1), max: bits(1.5), log_scale: false };
    assert_eq!(bounds_repr(&plain, "0.1", "1.5"), "ParamBounds.continuous(0.1, 1.5)");
    let scaled = ParamBounds::Continuous { min: bits(0.1), max: bits(1.5), log_scale: true };
    assert_eq!(bounds_repr(&scaled, "0.1", "1.5"), "ParamBounds.log_continuous(0.1, 1.5)");
    let steps = ParamBounds::Discrete { min: 2, max: 10, step: 4 };
    assert_eq!(bounds_repr(&steps, "", ""), "ParamBounds.discrete_step(2, 10, 4)");
    let each = ParamBounds::Discrete { min: 2, max: 10, step: 1 };
    assert_eq!(bounds_repr(&each, "", ""), "ParamBounds.discrete(2, 10)");
    let named = ParamBounds::Categorical { values: vec!["a".to_string(), "b".to_string(), "c".to_string()] };
    assert_eq!(bounds_repr(&named, "", ""), "ParamBounds.categorical([a, b, c])");
    let nothing = ParamBounds::Categorical { values: vec![] };
    assert_eq!(bounds_repr(&nothing, "", ""), "ParamBounds.categorical([])");
}

#[test]
fn spaces_list_their_params() {
    assert_eq!(space_repr(&ParameterSpace::new()), "ParameterSpace([])");
    let space = ParameterSpace::with_preset(SpacePreset::Minimal);
    let expected = format!("ParameterSpace([{}])", space.param_names().join(", "));
    assert_eq!(space_repr(&space), expected);
}

#[test]
fn searches_show_their_progress() {
    let grid = GridStrategy::LatinHypercube { n_samples: 20 };
    assert_eq!(
        tuner_config_repr(3, 100, grid),
        "TunerConfig(iterations=3, rounds=100, grid=LatinHypercube { n_samples: 20 })"
    );
    assert_eq!(tuner_repr(Some((3, 100))), "AutoTuner(iterations=3, rounds=100)");
    assert_eq!(tuner_repr(None), "AutoTuner(default config)");
    assert_eq!(
        trial_repr(7, 2, 40, "0.125000", None, Some("0.9000")),
        "TrialResult(trial_id=7, iteration=2, val_metric=0.125000, num_trees=40, roc_auc=0.9000)"
    );
    assert_eq!(
        trial_repr(7, 2, 40, "0.125000", Some("0.8000"), Some("0.9000")),
        "TrialResult(trial_id=7, iteration=2, val_metric=0.125000, num_trees=40, f1=0.8000, roc_auc=0.9000)"
    );
    assert_eq!(history_repr(0, None), "SearchHistory(len=0)");
    assert_eq!(
        history_repr(9, Some((4, "0.500000"))),
        "SearchHistory(len=9, best_trial_id=4, best_val=0.500000)"
    );
}

#[test]
fn settings_show_the_main_numbers() {
    let text = settings_repr(&settings(), "0.1");
    let backend = backend_name(settings().backend_type);
    let mode = gpu_mode_name(settings().gpu_mode);
    assert_eq!(
        text,
        format!(
            "GBDTConfig(num_rounds=100, learning_rate=0.1, max_depth=6, max_leaves=31, backend='{}', gpu_mode='{}')",
            backend, mode
        )
    );
}

#[test]
fn splits_show_their_sizes() {
    assert_eq!(holdout_repr(70, 20, 10), "HoldoutSplit(train=70, val=20, calib=10)");
    assert_eq!(folds_repr(&[34, 33, 35]), "KFoldSplit(k=3, fold_sizes=33..35)");
    assert_eq!(folds_repr(&[]), "KFoldSplit(k=0, fold_sizes=0..0)");
}

#[test]
fn arrays_of_bins_become_data() {
    let columns = vec![vec![1, 2, 3], vec![4, 5, 6]];
    let data = dataset_from_arrays(&columns, 3, 3, 2).unwrap();
    assert_eq!((data.num_rows(), data.num_features()), (3, 2));
    assert_eq!(bin_at(&data, 2, 1), Ok(6));
    assert_eq!(bin_at(&data, 3, 9), Err("row index 3 out of range (num_rows=3)".to_string()));
    assert_eq!(bin_at(&data, 0, 2), Err("feature index 2 out of range (num_features=2)".to_string()));
    assert_eq!(column_at(&data, 0), Ok(&[1u8, 2, 3][..]));
    assert!(column_at(&data, 2).is_err());
    assert_eq!(
        dataset_from_arrays(&columns, 3, 4, 9).err(),
        Some("targets length 4 doesn't match num_rows 3".to_string())
    );
    assert_eq!(
        dataset_from_arrays(&columns, 3, 3, 1).err(),
        Some("feature_info length 1 doesn't match num_features 2".to_string())
    );
}

#[test]
fn columns_of_numbers_become_data() {
    let names = names_of_columns(2, 2, 2, None).unwrap();
    assert_eq!(names, vec!["feature_0", "feature_1"]);
    let data = dataset_from_columns(&names, vec![Ok(vec![0, 1]), Ok(vec![7, 8])], 2).unwrap();
    assert_eq!(bin_at(&data, 1, 1), Ok(8));
    let broken = vec![Ok(vec![0, 1]), Err("no values".to_string())];
    assert_eq!(
        dataset_from_columns(&names, broken, 2).err(),
        Some("Failed to process column 'feature_1': no values".to_string())
    );
    assert_eq!(
        names_of_columns(2, 2, 3, Some(vec![])),
        Err("targets length 3 doesn't match num_rows 2".to_string())
    );
    assert_eq!(
        names_of_columns(2, 2, 2, Some(vec![])),
        Err("feature_names length 0 doesn't match num_features 2".to_string())
    );
}

#[test]
fn rows_with_eras_are_flat() {
    let rows = vec![vec![bits(1.0), bits(2.0)], vec![bits(3.0), bits(4.0)]];
    let flat = rows_with_eras(&rows, &[0, 1], true).unwrap();
    assert_eq!(flat, vec![bits(1.0), bits(2.0), bits(3.0), bits(4.0)]);
    assert_eq!(
        rows_with_eras(&rows, &[0], false),
        Err("era_indices length 1 doesn't match number of rows 2".to_string())
    );
    assert_eq!(
        rows_with_eras(&rows, &[0, 1], false),
        Err("era_splitting must be True in config when using train_with_eras".to_string())
    );
}

#[test]
fn features_are_checked_before_the_kind_of_model() {
    assert!(check_class_prediction(3, 3, ClassQuery::Proba, false).is_ok());
    assert_eq!(
        check_class_prediction(2, 3, ClassQuery::Proba, true),
        Err("Expected 3 features, got 2".to_string())
    );
    assert!(check_class_prediction(3, 3, ClassQuery::Proba, true).unwrap_err().starts_with("predict_proba()"));
}

#[test]
fn setup_keeps_what_was_set() {
    let plain = TunerSetup::new(settings()).run_config();
    assert_eq!(plain.n_iterations, TunerConfig::new().n_iterations);
    assert_eq!(plain.seed, TunerConfig::new().seed);
    let run = TunerSetup::new(settings())
        .with_iterations(7)
        .with_parallel(false)
        .with_eval_strategy(EvalStrategy::Holdout { validation_ratio: bits(0.3), folds: 4 })
        .with_space(ParameterSpace::new())
        .with_seed(99)
        .run_config();
    assert_eq!((run.n_iterations, run.parallel_trials, run.seed), (7, false, 99));
    assert_eq!(run.eval_strategy, EvalStrategy::Holdout { validation_ratio: bits(0.3), folds: 4 });
    assert_eq!(run.space.len(), 0);
    let replaced = TunerSetup::new(settings()).with_iterations(7).with_config(TunerConfig::new());
    assert_eq!(replaced.run_config().n_iterations, TunerConfig::new().n_iterations);
    assert_eq!(tuning_failure("no rows"), "Tuning failed: no rows");
}

#[test]
fn switches_and_losses_are_set() {
    let changed = settings()
        .with_parallel_prediction(false)
        .with_column_reordering(true)
        .with_packed_dataset(true)
        .with_parallel_gradient(false)
        .with_binary_logloss();
    assert!(!changed.parallel_prediction && changed.column_reordering);
    assert!(changed.packed_dataset && !changed.parallel_gradient);
    assert_eq!(changed.loss_type, LossType::BinaryLogLoss);
    assert_eq!(changed.with_mse_loss().loss_type, LossType::Mse);
    let directed = settings().with_constraints(vec![MonotonicConstraint::Decreasing]);
    assert_eq!(directed.monotonic_constraints, vec![MonotonicConstraint::Decreasing]);
}
