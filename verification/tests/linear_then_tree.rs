//! Tuning of a linear model followed by trees.

use treeboost::defaults;
use treeboost::float::F32;
use treeboost::tuner::bounds::ParamBounds;
use treeboost::tuner::config::ConfigError;
use treeboost::tuner::ltt::{
    LinearHyperparams, LinearHyperparamsPreset, LttTunerConfig, LttTunerPreset, TreeHyperparams,
    TreeHyperparamsPreset, TreeTrial,
};
use treeboost::tuner::ltt_run::{LttRun, LttStep};
use treeboost::tuner::ltt_tuner::{
    combined_column, extract_split, feature_column, tree_features, tree_trial, LttError, LttTuner,
};
use treeboost::tuner::params::TunableParam;
use treeboost::tuner::trial::TrialResult;
use treeboost::tuner::values::ParamMap;

fn bits(value: f32) -> F32 {
    F32 { bits: value.to_bits() }
}

fn number(value: F32) -> f32 {
    f32::from_bits(value.bits)
}

fn all_bits(values: &[f32]) -> Vec<F32> {
    values.iter().map(|v| bits(*v)).collect()
}

fn numbers(values: &[F32]) -> Vec<f32> {
    values.iter().map(|v| number(*v)).collect()
}

fn config_text(error: &ConfigError) -> String {
    match error {
        ConfigError::Rule { text } => text.clone(),
        ConfigError::OutOfRange { rule, got } => format!("{}, got {}", rule, number(*got)),
    }
}

fn text(error: &LttError) -> String {
    match error {
        LttError::Config { error } => config_text(error),
        LttError::Data { text } => text.clone(),
        LttError::EmptyTraining { val_ratio, num_rows } => {
            format!("empty training set ({}, {})", number(*val_ratio), num_rows)
        }
        LttError::EmptyValidation { val_ratio, num_rows } => {
            format!("empty validation set ({}, {})", number(*val_ratio), num_rows)
        }
        LttError::NoLinearModel => "no linear model".to_string(),
    }
}

#[test]
fn test_linear_hyperparams_default() {
    let params = LinearHyperparams::default();
    assert_eq!(number(params.lambda), 1.0);
    assert_eq!(number(params.l1_ratio), 0.0);
    assert_eq!(params.shrinkage_factor.bits, defaults::DEFAULT_LTT_SHRINKAGE);
    assert_eq!(number(params.extrapolation_damping), 0.0);
}

#[test]
fn test_tree_hyperparams_default() {
    let params = TreeHyperparams::default();
    assert_eq!(params.max_depth, 6);
    assert_eq!(number(params.learning_rate), 0.1);
    assert_eq!(params.num_rounds, 500);
}

#[test]
fn test_ltt_tuner_config_presets() {
    let quick = LttTunerConfig::default().with_preset(LttTunerPreset::Quick);
    let thorough = LttTunerConfig::default().with_preset(LttTunerPreset::Thorough);

    assert!(quick.lambda_values.len() < thorough.lambda_values.len());
    assert!(quick.max_depth_values.len() < thorough.max_depth_values.len());
}

#[test]
fn test_ltt_tuner_estimated_trials() {
    let config = LttTunerConfig::default();
    let linear_trials = config.lambda_values.len() * config.l1_ratio_values.len();
    let tree_trials =
        config.max_depth_values.len() * config.learning_rate_values.len() * config.num_rounds_values.len();
    let joint_trials = config.extrapolation_damping_values.len();

    let tuner = LttTuner::new(config);
    assert_eq!(tuner.estimated_trials(), linear_trials + tree_trials + joint_trials);
}

#[test]
fn test_config_validation_empty_grids() {
    let config = LttTunerConfig { lambda_values: vec![], ..Default::default() };
    let result = config.validate();
    assert!(result.is_err());
    assert!(config_text(&result.unwrap_err()).contains("lambda_values"));
}

#[test]
fn test_config_validation_bad_val_ratio() {
    let config = LttTunerConfig { val_ratio: bits(1.5), ..Default::default() };
    let result = config.validate();
    assert!(result.is_err());
    assert!(config_text(&result.unwrap_err()).contains("val_ratio"));
}

#[test]
fn test_input_validation_empty_targets() {
    let tuner = LttTuner::with_defaults();
    let result = tuner.validate_inputs(3, 1, 0);
    assert!(result.is_err());
    assert!(text(&result.unwrap_err()).contains("empty"));
}

#[test]
fn test_input_validation_zero_features() {
    let tuner = LttTuner::with_defaults();
    let result = tuner.validate_inputs(3, 0, 3);
    assert!(result.is_err());
    assert!(text(&result.unwrap_err()).contains("num_features"));
}

#[test]
fn test_input_validation_dimension_mismatch() {
    let tuner = LttTuner::with_defaults();
    let result = tuner.validate_inputs(3, 1, 2);
    assert!(result.is_err());
    assert!(text(&result.unwrap_err()).contains("mismatch"));
}

#[test]
fn test_linear_params_to_config() {
    let params = LinearHyperparams {
        lambda: bits(0.5),
        l1_ratio: bits(0.3),
        shrinkage_factor: bits(0.8),
        extrapolation_damping: bits(0.1),
    };
    let config = params.to_config();

    assert!((number(config.lambda) - 0.5).abs() < 1e-6);
    assert!((number(config.l1_ratio) - 0.3).abs() < 1e-6);
    assert!((number(config.shrinkage_factor) - 0.8).abs() < 1e-6);
    assert!((number(config.extrapolation_damping) - 0.1).abs() < 1e-6);
}

#[test]
fn test_constants_are_reasonable() {
    let value = |bits: u32| f32::from_bits(std::hint::black_box(bits));
    let strong_r2 = value(defaults::STRONG_LINEAR_R2);
    let weak_r2 = value(defaults::WEAK_LINEAR_R2);
    let high_shrinkage_min = value(defaults::HIGH_SHRINKAGE_MIN);
    let low_shrinkage_max = value(defaults::LOW_SHRINKAGE_MAX);
    let default_shrinkage = value(defaults::DEFAULT_LTT_SHRINKAGE);
    let high_variance_threshold = value(defaults::HIGH_VARIANCE_THRESHOLD);
    let max_depth_threshold = std::hint::black_box(defaults::MAX_DEPTH_THRESHOLD);
    let min_lr_threshold = value(defaults::MIN_LR_THRESHOLD);

    assert!(strong_r2 > weak_r2);
    assert!(high_shrinkage_min > 0.0 && high_shrinkage_min < 1.0);
    assert!(low_shrinkage_max > 0.0 && low_shrinkage_max < 1.0);
    assert!(default_shrinkage > 0.0 && default_shrinkage <= 1.0);
    assert!(high_variance_threshold > 0.0);
    assert!(max_depth_threshold > 0);
    assert!(min_lr_threshold > 0.0);
}

/// The error of the weighted linear predictions.
fn weighted_error(shrinkage: f32, predictions: &[f32], targets: &[f32]) -> f32 {
    let sum: f32 = predictions.iter().zip(targets).map(|(p, t)| (shrinkage * p - t) * (shrinkage * p - t)).sum();
    (sum / targets.len() as f32).sqrt()
}

fn chosen_shrinkage(grid: &[f32], val_predictions: &[f32], val_targets: &[f32]) -> f32 {
    let config = LttTunerConfig { shrinkage_factor_values: all_bits(grid), ..Default::default() };
    let mut run = LttRun::start(&config);
    loop {
        match run.step() {
            LttStep::FitLinear { .. } => run.record_linear(bits(0.5), bits(1.0)),
            LttStep::ProbeShrinkage { shrinkage } => {
                run.record_probe(bits(weighted_error(number(shrinkage), val_predictions, val_targets)))
            }
            _ => return number(run.linear_params().shrinkage_factor),
        }
    }
}

#[test]
fn test_shrinkage_factor_selection_strong_linear() {
    let shrinkage_grid = vec![0.3, 0.7];
    let shrinkage = chosen_shrinkage(&shrinkage_grid, &[4.0, 5.0], &[4.0, 5.0]);
    assert!(shrinkage_grid.contains(&shrinkage), "Shrinkage should be selected from configured grid");
    assert_eq!(shrinkage, 0.7);
}

#[test]
fn test_shrinkage_factor_selection_weak_linear() {
    let shrinkage_grid = vec![0.3, 0.7];
    let shrinkage = chosen_shrinkage(&shrinkage_grid, &[1.0, 0.0], &[4.0, 5.0]);
    assert!(shrinkage_grid.contains(&shrinkage), "Shrinkage should be selected from configured grid");
}

#[test]
fn test_ltt_tuner_tune() {
    // y = 2x + 1 with a little noise.
    let num_rows = 100;
    let features: Vec<f32> = (0..num_rows).map(|i| i as f32 / 10.0).collect();
    let targets: Vec<f32> =
        (0..num_rows).map(|i| 2.0 * (i as f32 / 10.0) + 1.0 + (i as f32 % 3.0) * 0.1).collect();

    let tuner = LttTuner::new(LttTunerConfig::default().with_preset(LttTunerPreset::Quick));
    tuner.validate_inputs(features.len(), 1, targets.len()).unwrap();
    let val_size = (num_rows as f32 * number(tuner.config().val_ratio)).ceil() as usize;
    let train_size = tuner.split_rows(num_rows, val_size).unwrap();
    let rows: Vec<usize> = (0..num_rows).collect();
    let (train_x, train_y) = extract_split(&all_bits(&features), &all_bits(&targets), 1, &rows[..train_size]);
    let (val_x, val_y) = extract_split(&all_bits(&features), &all_bits(&targets), 1, &rows[train_size..]);
    let (train_x, train_y) = (numbers(&train_x), numbers(&train_y));
    let (val_x, val_y) = (numbers(&val_x), numbers(&val_y));

    let predict = |lambda: f32| -> Vec<f32> {
        let n = train_x.len() as f32;
        let mean_x = train_x.iter().sum::<f32>() / n;
        let mean_y = train_y.iter().sum::<f32>() / n;
        let cov: f32 = train_x.iter().zip(&train_y).map(|(x, y)| (x - mean_x) * (y - mean_y)).sum();
        let var: f32 = train_x.iter().map(|x| (x - mean_x) * (x - mean_x)).sum();
        let slope = cov / (var + lambda);
        val_x.iter().map(|x| mean_y + slope * (x - mean_x)).collect()
    };
    let mean = val_y.iter().sum::<f32>() / val_y.len() as f32;
    let spread: f32 = val_y.iter().map(|y| (y - mean) * (y - mean)).sum();

    let mut run = LttRun::start(tuner.config());
    loop {
        match run.step() {
            LttStep::FitLinear { lambda, .. } => {
                let rmse = weighted_error(1.0, &predict(number(lambda)), &val_y);
                let r2 = 1.0 - rmse * rmse * val_y.len() as f32 / spread;
                run.record_linear(bits(r2), bits(rmse));
            }
            LttStep::ProbeShrinkage { shrinkage } => {
                let predictions = predict(number(run.linear_params().lambda));
                run.record_probe(bits(weighted_error(number(shrinkage), &predictions, &val_y)));
            }
            LttStep::SearchTrees => {
                let trial = TreeTrial {
                    max_depth: 4,
                    learning_rate: bits(0.1),
                    num_trees: 10,
                    residual_rmse: bits(0.2),
                };
                run.record_trees(TreeHyperparams::default(), vec![trial]);
            }
            LttStep::FitDamping { .. } => run.record_damping(bits(0.5)),
            LttStep::ScoreBoth => {
                let predictions = predict(number(run.linear_params().lambda));
                let shrinkage = number(run.linear_params().shrinkage_factor);
                run.record_score(bits(weighted_error(shrinkage, &predictions, &val_y)));
            }
            LttStep::GiveUp => panic!("LTT tuner should successfully fit linear data"),
            LttStep::Finish => break,
        }
    }

    assert!(number(run.linear_r2()) > 0.5, "R2 should be > 0.5 for linear data");
    assert!(number(run.final_rmse()) < 5.0, "RMSE should be reasonable");
    let history = run.into_history();
    assert!(!history.linear_trials.is_empty());
    assert!(!history.tree_trials.is_empty());
}

#[test]
fn a_run_tries_everything_and_keeps_the_best() {
    let config = LttTunerConfig {
        lambda_values: all_bits(&[0.1, 1.0]),
        l1_ratio_values: all_bits(&[0.0, 0.5]),
        shrinkage_factor_values: all_bits(&[0.3, 0.7, 1.0]),
        extrapolation_damping_values: all_bits(&[0.0, 0.1, 0.2]),
        ..Default::default()
    };
    let mut run = LttRun::start(&config);
    let mut tried = Vec::new();
    for r2 in [0.5, 0.9, 0.9, 0.2] {
        match run.step() {
            LttStep::FitLinear { lambda, l1_ratio } => tried.push((number(lambda), number(l1_ratio))),
            other => panic!("unexpected {:?}", other),
        }
        run.record_linear(bits(r2), bits(1.0));
    }
    assert_eq!(tried, vec![(0.1, 0.0), (0.1, 0.5), (1.0, 0.0), (1.0, 0.5)]);
    assert_eq!(run.best_linear_trial(), 1);
    assert_eq!(number(run.linear_r2()), 0.9);
    for score in [3.0, 1.0, 1.0] {
        run.record_probe(bits(score));
    }
    assert_eq!(number(run.linear_params().lambda), 0.1);
    assert_eq!(number(run.linear_params().l1_ratio), 0.5);
    assert_eq!(number(run.linear_params().shrinkage_factor), 0.7);
    assert_eq!(run.step(), LttStep::SearchTrees);
    let best = TreeHyperparams { max_depth: 3, ..TreeHyperparams::default() };
    run.record_trees(best, Vec::new());
    let mut dampings = Vec::new();
    for rmse in [0.5, 0.25, 0.75] {
        if let LttStep::FitDamping { damping } = run.step() {
            dampings.push(number(damping));
        }
        run.record_damping(bits(rmse));
    }
    assert_eq!(dampings, vec![0.0, 0.1, 0.2]);
    assert_eq!(number(run.linear_params().extrapolation_damping), 0.1);
    assert_eq!(run.step(), LttStep::ScoreBoth);
    run.record_score(bits(0.125));
    assert_eq!(run.step(), LttStep::Finish);
    assert_eq!((run.tree_params().max_depth, number(run.final_rmse())), (3, 0.125));
    let history = run.into_history();
    assert_eq!((history.linear_trials.len(), history.joint_trials.len()), (4, 3));
}

#[test]
fn without_a_linear_model_a_run_gives_up() {
    let config = LttTunerConfig {
        lambda_values: all_bits(&[1.0]),
        l1_ratio_values: all_bits(&[0.0]),
        ..Default::default()
    };
    let mut run = LttRun::start(&config);
    run.record_linear(bits(f32::NAN), bits(1.0));
    assert_eq!(run.step(), LttStep::GiveUp);
    assert_eq!(text(&LttError::NoLinearModel), "no linear model");

    let single = LttTunerConfig {
        lambda_values: all_bits(&[1.0]),
        l1_ratio_values: all_bits(&[0.0]),
        shrinkage_factor_values: all_bits(&[0.25]),
        enable_joint_refinement: false,
        ..Default::default()
    };
    let mut run = LttRun::start(&single);
    run.record_linear(bits(0.5), bits(1.0));
    assert_eq!(run.step(), LttStep::SearchTrees);
    assert_eq!(number(run.linear_params().shrinkage_factor), 0.25);
    run.record_trees(TreeHyperparams::default(), Vec::new());
    assert_eq!(run.step(), LttStep::ScoreBoth);
}

#[test]
fn each_wrong_input_has_its_message() {
    let tuner = LttTuner::with_defaults();
    let message = |features: usize, num_features: usize, targets: usize| {
        text(&tuner.validate_inputs(features, num_features, targets).unwrap_err())
    };
    assert_eq!(message(3, 0, 3), "num_features must be greater than 0");
    assert_eq!(message(3, 1, 0), "targets cannot be empty");
    assert_eq!(message(0, 1, 3), "features cannot be empty");
    assert!(message(5, 2, 3).starts_with("Feature matrix size mismatch: expected 6 (3"));
    assert!(message(18, 2, 9).contains("10"));
    assert!(tuner.validate_inputs(20, 2, 10).is_ok());
    assert_eq!(tuner.split_rows(10, 2).unwrap(), 8);
    assert!(text(&tuner.split_rows(10, 10).unwrap_err()).starts_with("empty training set"));
    assert!(text(&tuner.split_rows(10, 0).unwrap_err()).starts_with("empty validation set"));
    for empty in [
        LttTunerConfig { l1_ratio_values: vec![], ..Default::default() },
        LttTunerConfig { max_depth_values: vec![], ..Default::default() },
        LttTunerConfig { learning_rate_values: vec![], ..Default::default() },
        LttTunerConfig { num_rounds_values: vec![], ..Default::default() },
    ] {
        assert!(config_text(&empty.validate().unwrap_err()).ends_with("cannot be empty"));
    }
}

#[test]
fn presets_set_what_they_name() {
    assert_eq!(number(LinearHyperparams::default().with_preset(LinearHyperparamsPreset::Lasso).l1_ratio), 1.0);
    assert_eq!(number(LinearHyperparams::default().with_preset(LinearHyperparamsPreset::Ridge).l1_ratio), 0.0);
    assert_eq!(
        number(LinearHyperparams::default().with_preset(LinearHyperparamsPreset::ElasticNet).l1_ratio),
        0.5
    );
    assert_eq!(TreeHyperparams::default().with_preset(TreeHyperparamsPreset::Conservative).max_depth, 4);
    assert_eq!(TreeHyperparams::default().with_preset(TreeHyperparamsPreset::Aggressive).max_depth, 8);
    for preset in [LttTunerPreset::Quick, LttTunerPreset::Standard, LttTunerPreset::Thorough] {
        let config = LttTunerConfig::default().with_output_dir("out".to_string()).with_preset(preset);
        assert!(config.validate().is_ok());
        assert_eq!(config.output_dir.as_deref(), Some("out"));
    }
}

#[test]
fn the_validation_share_lies_strictly_between_none_and_all() {
    for (share, valid) in [(0.0, false), (1.0, false), (-0.5, false), (f32::NAN, false), (0.5, true)] {
        let config = LttTunerConfig { val_ratio: bits(share), ..Default::default() };
        assert_eq!(config.validate().is_ok(), valid);
    }
}

#[test]
fn presets_decide_how_often_the_trees_are_tuned() {
    let iterations = |preset| LttTunerConfig::default().with_preset(preset).tree_tuner_iterations;
    assert_eq!(iterations(LttTunerPreset::Quick), 1);
    assert_eq!(iterations(LttTunerPreset::Standard), 2);
    assert_eq!(iterations(LttTunerPreset::Thorough), 3);
}

#[test]
fn rows_and_columns_are_picked() {
    let features = all_bits(&[1.0, 2.0, 3.0, 4.0, 5.0, 6.0]);
    let targets = all_bits(&[10.0, 20.0, 30.0]);
    let (x, y) = extract_split(&features, &targets, 2, &[2, 0]);
    assert_eq!(numbers(&x), vec![5.0, 6.0, 1.0, 2.0]);
    assert_eq!(numbers(&y), vec![30.0, 10.0]);
    assert_eq!(numbers(&feature_column(&features, 3, 2, 1)), vec![2.0, 4.0, 6.0]);
    assert_eq!(tree_features(4, &[2, 0, 9]), vec![1, 3]);
}

#[test]
fn the_tree_search_follows_the_settings() {
    let tuner = LttTuner::new(LttTunerConfig { seed: 77, ..Default::default() });
    let config = tuner.tree_search(Some("logs"));
    assert_eq!(config.seed, 77);
    assert_eq!(config.output_dir.as_deref(), Some("logs"));
    assert!(!config.verbose && config.parallel_trials);
    assert!(config.space.get(TunableParam::MaxDepth).is_some());
    assert!(matches!(
        config.space.get(TunableParam::MaxDepth).unwrap().bounds,
        ParamBounds::Discrete { .. }
    ));
    assert!(tuner.tree_search(None).output_dir.is_none());

    let mut params = ParamMap::new();
    params.insert("max_depth".to_string(), bits(5.9));
    params.insert("learning_rate".to_string(), bits(0.25));
    let trial = TrialResult {
        trial_id: 0,
        iteration: 0,
        params,
        val_loss: bits(0.5),
        train_loss: bits(0.4),
        num_trees: 12,
        train_time_ms: 1,
        f1_score: None,
        roc_auc: None,
        rank_ic: None,
    };
    let recorded = tree_trial(&trial, bits(0.75));
    assert_eq!((recorded.max_depth, recorded.num_trees), (5, 12));
    assert_eq!((number(recorded.learning_rate), number(recorded.residual_rmse)), (0.25, 0.75));
}

#[test]
fn probes_are_small() {
    let tuner = LttTuner::new(LttTunerConfig { seed: 77, ..Default::default() });
    let probe = tuner.probe_trees();
    assert_eq!((probe.num_rounds, probe.max_depth, probe.min_samples_leaf, probe.seed), (20, 3, Some(5), 77));
    assert_eq!(probe.learning_rate, Some(bits(0.1)));
    let smallest = tuner.smallest_probe();
    assert_eq!((smallest.num_rounds, smallest.max_depth, smallest.learning_rate, smallest.seed), (1, 1, None, 77));
}

#[test]
fn columns_of_both_parts_are_joined() {
    let train: Vec<F32> = [1.0, 2.0, 3.0, 4.0].iter().map(|x| bits(*x)).collect();
    let val: Vec<F32> = [5.0, 6.0].iter().map(|x| bits(*x)).collect();
    let column = combined_column(&train, 2, &val, 1, 2, 1);
    assert_eq!(column, vec![bits(2.0), bits(4.0), bits(6.0)]);
}
