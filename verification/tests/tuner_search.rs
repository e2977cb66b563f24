//! The search: trials, candidates, samples, and what earlier runs tell.

use rand::RngExt;
use std::collections::HashSet;
use treeboost::backend::BackendType;
use treeboost::dataset::BinnedDataset;
use treeboost::float::{F32, F64};
use treeboost::tuner::bounds::ParamBounds;
use treeboost::tuner::config::{ConfigError, OptimizationMetric};
use treeboost::tuner::grid::{
    discrete_points, generate_cartesian_grid, generate_param_values, sort_and_dedup, with_center,
};
use treeboost::tuner::narrowing::{can_narrow, continuous_ends};
use treeboost::tuner::params::TunableParam;
use treeboost::tuner::past_runs::{
    add_trials, is_iteration_file, iteration_files, observed_range, observed_ranges, read_table, top_trials,
    HistoryError, ValueRange,
};
use treeboost::tuner::sampling::{center_seed, drawn_candidates, shuffled_strata};
use treeboost::tuner::space::{ParamDef, ParameterSpace, SpacePreset};
use treeboost::tuner::traits::{
    check_conformal_support, conformal_support, ParamMapExt, ParamValue, TunableModel,
};
use treeboost::tuner::trial::{
    aggregate_fold_results, finish_trial, get_metric_value, EvalMetrics, FoldMeans, MetricValue, SearchHistory,
    TrialResult,
};
use treeboost::tuner::values::ParamMap;

fn bits(value: f32) -> F32 {
    F32 { bits: value.to_bits() }
}

fn number(value: F32) -> f32 {
    f32::from_bits(value.bits)
}

fn numbers(values: &[F32]) -> Vec<f32> {
    values.iter().map(|v| number(*v)).collect()
}

fn all_bits(values: &[f32]) -> Vec<F32> {
    values.iter().map(|v| bits(*v)).collect()
}

fn named(pairs: &[(&str, f32)]) -> ParamMap<F32> {
    let mut map = ParamMap::new();
    for (name, value) in pairs {
        map.insert(name.to_string(), bits(*value));
    }
    map
}

fn value_of(candidate: &ParamMap<F32>, name: &str) -> f32 {
    number(*candidate.get(name).unwrap())
}

/// The ends between which a parameter is searched.
fn window(param: &ParamDef, spread: f32) -> (f32, f32) {
    let (min, max) = (number(param.bounds.min_value()), number(param.bounds.max_value()));
    let center = number(param.center);
    let half_span = (max - min) * spread / 2.0;
    ((center - half_span).max(min), (center + half_span).min(max))
}

fn param_values(param: &ParamDef, spread: f32, points: usize) -> Vec<F32> {
    let (low, high) = window(param, spread);
    let computed: Vec<F32> = if param.bounds.is_log_scale() {
        let (log_min, log_max) = (number(param.bounds.min_value()).ln(), number(param.bounds.max_value()).ln());
        let half_span = (log_max - log_min) * spread / 2.0;
        let log_center = number(param.center).ln();
        let (low, high) = ((log_center - half_span).max(log_min), (log_center + half_span).min(log_max));
        (0..points).map(|i| bits((low + i as f32 / (points - 1) as f32 * (high - low)).exp())).collect()
    } else {
        (0..points).map(|i| bits(low + i as f32 / (points - 1) as f32 * (high - low))).collect()
    };
    generate_param_values(param, points, bits(low), bits(high), &computed)
}

fn cartesian_grid(space: &ParameterSpace, spread: f32, points: usize) -> Vec<ParamMap<F32>> {
    let values: Vec<Vec<F32>> = space.params().iter().map(|param| param_values(param, spread, points)).collect();
    generate_cartesian_grid(space, &values)
}

fn between(param: &ParamDef, spread: f32, u: f32) -> F32 {
    let (low, high) = window(param, spread);
    if param.bounds.is_log_scale() {
        let (log_low, log_high) = (low.max(1e-10).ln(), high.max(1e-10).ln());
        bits((log_low + u * (log_high - log_low)).exp())
    } else {
        bits(low + u * (high - low))
    }
}

fn lhs_grid(space: &ParameterSpace, spread: f32, n_samples: usize, seed: u64) -> Vec<ParamMap<F32>> {
    let (strata, mut rng) = shuffled_strata(space.len(), n_samples, seed);
    let rows: Vec<Vec<F32>> = (0..n_samples)
        .map(|sample| {
            space
                .params()
                .iter()
                .enumerate()
                .map(|(p, param)| {
                    let stratum = strata[p][sample];
                    let low = stratum as f32 / n_samples as f32;
                    let high = (stratum + 1) as f32 / n_samples as f32;
                    let u: f32 = rng.random_range(low..high);
                    between(param, spread, u)
                })
                .collect()
        })
        .collect();
    drawn_candidates(space, &rows)
}

fn random_grid(space: &ParameterSpace, spread: f32, n_samples: usize, seed: u64) -> Vec<ParamMap<F32>> {
    let (_, mut rng) = shuffled_strata(0, 0, seed);
    let rows: Vec<Vec<F32>> = (0..n_samples)
        .map(|_| {
            space
                .params()
                .iter()
                .map(|param| {
                    let u: f32 = rng.random();
                    between(param, spread, u)
                })
                .collect()
        })
        .collect();
    drawn_candidates(space, &rows)
}

fn trial(trial_id: usize, params: ParamMap<F32>, val_loss: f32, train_loss: f32) -> TrialResult {
    TrialResult {
        trial_id,
        iteration: 0,
        params,
        val_loss: bits(val_loss),
        train_loss: bits(train_loss),
        num_trees: 100,
        train_time_ms: 1000,
        f1_score: None,
        roc_auc: None,
        rank_ic: None,
    }
}

#[test]
fn test_trial_result() {
    let params = named(&[("max_depth", 6.0), ("learning_rate", 0.1)]);
    let result = trial(0, params, 0.5, 0.4);

    assert_eq!(result.trial_id, 0);
    assert_eq!(number(result.val_loss), 0.5);
}

#[test]
fn test_search_history() {
    let mut history = SearchHistory::new();
    assert!(history.is_empty());

    history.add(trial(0, named(&[("max_depth", 6.0)]), 0.5, 0.4));
    assert_eq!(history.len(), 1);
    assert_eq!(history.best().unwrap().trial_id, 0);

    history.add(trial(1, named(&[("max_depth", 8.0)]), 0.3, 0.25));
    assert_eq!(history.len(), 2);
    assert_eq!(history.best().unwrap().trial_id, 1);
}

#[test]
fn test_autotuner_generate_param_values() {
    let param =
        ParamDef::new(TunableParam::Subsample, ParamBounds::continuous(bits(0.0), bits(1.0)), bits(0.5));
    let values = numbers(&param_values(&param, 0.5, 3));
    assert_eq!(values.len(), 3);
    assert!(values[0] < values[1]);
    assert!(values[1] < values[2]);

    let param = ParamDef::new(TunableParam::MaxDepth, ParamBounds::discrete(2, 10), bits(6.0));
    let values = numbers(&param_values(&param, 0.5, 3));
    assert!(!values.is_empty());
    assert!(values.iter().all(|&v| (2.0..=10.0).contains(&v)));
}

#[test]
fn test_autotuner_generate_cartesian_grid() {
    let space = ParameterSpace::with_preset(SpacePreset::Minimal);
    let grid = cartesian_grid(&space, 0.5, 3);
    assert_eq!(grid.len(), 9);

    for candidate in &grid {
        assert!(candidate.contains_key("max_depth"));
        assert!(candidate.contains_key("learning_rate"));
    }
}

#[test]
fn test_discrete_grid_dedup() {
    let space =
        ParameterSpace::new().with_param(TunableParam::MaxDepth, ParamBounds::discrete(2, 10), bits(6.0));
    let values = param_values(space.get(TunableParam::MaxDepth).unwrap(), 0.01, 3);

    let mut sorted = numbers(&values);
    sorted.sort_by(|a, b| a.partial_cmp(b).unwrap());
    sorted.dedup();
    assert_eq!(values.len(), sorted.len(), "Discrete values should be unique after dedup");
}

#[test]
fn test_grid_level_dedup() {
    let space = ParameterSpace::new()
        .with_param(TunableParam::MaxDepth, ParamBounds::discrete(2, 10), bits(6.0))
        .with_param(TunableParam::MinSamplesLeaf, ParamBounds::discrete(1, 10), bits(5.0));
    let grid = cartesian_grid(&space, 0.05, 3);

    let mut seen = HashSet::new();
    for candidate in &grid {
        let key = format!("{:?}", candidate);
        assert!(seen.insert(key), "Grid should have no duplicate candidates");
    }
}

fn assert_same(a: &[ParamMap<F32>], b: &[ParamMap<F32>]) {
    assert_eq!(a.len(), b.len());
    for (x, y) in a.iter().zip(b) {
        for i in 0..x.len() {
            let name = x.name(i);
            assert!((value_of(x, name) - value_of(y, name)).abs() < 1e-6);
        }
    }
}

#[test]
fn test_lhs_determinism() {
    let space = ParameterSpace::new()
        .with_param(
            TunableParam::LearningRate,
            ParamBounds::log_continuous(bits(0.01), bits(0.5)),
            bits(0.1),
        )
        .with_param(TunableParam::MaxDepth, ParamBounds::discrete(2, 12), bits(6.0));
    let grid1 = lhs_grid(&space, 0.5, 10, 42);
    let grid2 = lhs_grid(&space, 0.5, 10, 42);
    assert_same(&grid1, &grid2);
}

#[test]
fn test_lhs_sample_count() {
    let space = ParameterSpace::new()
        .with_param(TunableParam::LearningRate, ParamBounds::continuous(bits(0.01), bits(0.5)), bits(0.1))
        .with_param(TunableParam::Subsample, ParamBounds::continuous(bits(0.5), bits(1.0)), bits(0.8));

    let grid = lhs_grid(&space, 1.0, 20, 123);
    assert_eq!(grid.len(), 20, "LHS should return exactly n_samples");

    let empty = lhs_grid(&space, 1.0, 0, 123);
    assert!(empty.is_empty(), "LHS with n_samples=0 should be empty");
}

#[test]
fn test_lhs_bounds_respected() {
    let space = ParameterSpace::new()
        .with_param(TunableParam::LearningRate, ParamBounds::continuous(bits(0.01), bits(0.5)), bits(0.1))
        .with_param(TunableParam::MaxDepth, ParamBounds::discrete(2, 12), bits(6.0));
    let grid = lhs_grid(&space, 1.0, 50, 999);

    for candidate in &grid {
        let lr = value_of(candidate, "learning_rate");
        assert!((0.01..=0.5).contains(&lr), "learning_rate {} out of bounds [0.01, 0.5]", lr);

        let depth = value_of(candidate, "max_depth");
        assert!((2.0..=12.0).contains(&depth), "max_depth {} out of bounds [2, 12]", depth);
    }
}

#[test]
fn test_lhs_stratification() {
    let space = ParameterSpace::new().with_param(
        TunableParam::Subsample,
        ParamBounds::continuous(bits(0.0), bits(1.0)),
        bits(0.5),
    );
    let n_samples = 10;
    let grid = lhs_grid(&space, 1.0, n_samples, 12345);
    let values: Vec<f32> = grid.iter().map(|c| value_of(c, "subsample")).collect();

    let mut stratum_counts = vec![0; n_samples];
    for &v in &values {
        let stratum = (v * n_samples as f32).floor() as usize;
        let stratum = stratum.min(n_samples - 1);
        stratum_counts[stratum] += 1;
    }
    for (i, &count) in stratum_counts.iter().enumerate() {
        assert_eq!(count, 1, "Stratum {} should have exactly 1 sample, got {}", i, count);
    }
}

#[test]
fn test_random_determinism() {
    let space = ParameterSpace::new()
        .with_param(
            TunableParam::LearningRate,
            ParamBounds::log_continuous(bits(0.01), bits(0.5)),
            bits(0.1),
        )
        .with_param(TunableParam::Lambda, ParamBounds::continuous(bits(0.0), bits(10.0)), bits(1.0));
    let grid1 = random_grid(&space, 0.5, 15, 42);
    let grid2 = random_grid(&space, 0.5, 15, 42);
    assert_same(&grid1, &grid2);
}

#[test]
fn test_random_sample_count() {
    let space = ParameterSpace::with_preset(SpacePreset::Minimal);
    let grid = random_grid(&space, 1.0, 25, 777);
    assert_eq!(grid.len(), 25, "Random should return exactly n_samples");

    let empty = random_grid(&space, 1.0, 0, 777);
    assert!(empty.is_empty(), "Random with n_samples=0 should be empty");
}

#[test]
fn test_random_bounds_respected() {
    let space = ParameterSpace::new()
        .with_param(TunableParam::Subsample, ParamBounds::continuous(bits(0.5), bits(1.0)), bits(0.8))
        .with_param(TunableParam::EntropyWeight, ParamBounds::continuous(bits(0.0), bits(0.5)), bits(0.1));
    let grid = random_grid(&space, 1.0, 100, 888);

    for candidate in &grid {
        let ss = value_of(candidate, "subsample");
        assert!((0.5..=1.0).contains(&ss), "subsample {} out of bounds [0.5, 1.0]", ss);

        let ew = value_of(candidate, "entropy_weight");
        assert!((0.0..=0.5).contains(&ew), "entropy_weight {} out of bounds [0.0, 0.5]", ew);
    }
}

#[test]
fn test_different_seeds_produce_different_results() {
    let space = ParameterSpace::with_preset(SpacePreset::Minimal);
    let grid1 = lhs_grid(&space, 1.0, 5, 1);
    let grid2 = lhs_grid(&space, 1.0, 5, 2);

    let mut all_same = true;
    for (c1, c2) in grid1.iter().zip(grid2.iter()) {
        for i in 0..c1.len() {
            let name = c1.name(i);
            if (value_of(c1, name) - value_of(c2, name)).abs() > 1e-6 {
                all_same = false;
            }
        }
    }
    assert!(!all_same, "Different seeds should produce different results");
}

#[test]
fn test_log_scale_sampling() {
    let space = ParameterSpace::new().with_param(
        TunableParam::LearningRate,
        ParamBounds::log_continuous(bits(0.001), bits(1.0)),
        bits(0.1),
    );
    let grid = random_grid(&space, 1.0, 1000, 42);
    let values: Vec<f32> = grid.iter().map(|c| value_of(c, "learning_rate")).collect();

    let geo_mean = (0.001_f32 * 1.0).sqrt();
    let below = values.iter().filter(|&&v| v < geo_mean).count();
    let above = values.iter().filter(|&&v| v >= geo_mean).count();
    let ratio = below as f32 / (below + above) as f32;
    assert!(ratio > 0.4 && ratio < 0.6, "Log-scale sampling should be balanced: ratio = {}", ratio);
}

#[test]
fn test_spread_affects_range() {
    let space = ParameterSpace::new().with_param(
        TunableParam::Colsample,
        ParamBounds::continuous(bits(0.0), bits(1.0)),
        bits(0.5),
    );
    let range = |grid: &[ParamMap<F32>]| {
        let values: Vec<f32> = grid.iter().map(|c| value_of(c, "colsample")).collect();
        values.iter().fold(0.0_f32, |a, &b| a.max(b)) - values.iter().fold(1.0_f32, |a, &b| a.min(b))
    };
    let wide_range = range(&random_grid(&space, 1.0, 100, 42));
    let narrow_range = range(&random_grid(&space, 0.1, 100, 42));
    assert!(
        wide_range > narrow_range,
        "Larger spread should produce wider range: wide={}, narrow={}",
        wide_range,
        narrow_range
    );
}

#[test]
fn test_is_gpu_backend() {
    assert!(BackendType::Auto.is_gpu_backend(), "Auto should be treated as GPU (conservative)");
    assert!(BackendType::Wgpu.is_gpu_backend(), "WGPU is a GPU backend");
    assert!(BackendType::Cuda.is_gpu_backend(), "CUDA is a GPU backend");
    assert!(!BackendType::Scalar.is_gpu_backend(), "Scalar is a CPU backend");
    assert!(!BackendType::Avx512.is_gpu_backend(), "AVX-512 is a CPU backend");
    assert!(!BackendType::Sve2.is_gpu_backend(), "SVE2 is a CPU backend");
}

#[test]
fn test_param_value_numeric() {
    let v = ParamValue::Numeric(bits(2.5));
    assert!(v.is_numeric());
    assert!(!v.is_categorical());
    assert!((number(v.as_numeric()) - 2.5).abs() < 1e-6);
    assert!(v.as_categorical().is_none());
}

#[test]
fn test_param_value_categorical() {
    let v = ParamValue::Categorical("PureTree".to_string());
    assert!(v.is_categorical());
    assert!(!v.is_numeric());
    assert_eq!(v.as_categorical(), Some("PureTree"));
    assert!((number(v.as_numeric()) - 0.0).abs() < 1e-6);
}

#[test]
fn test_param_value_from() {
    let v1: ParamValue = bits(2.5).into();
    assert!(v1.is_numeric());

    let v2: ParamValue = "LinearThenTree".into();
    assert!(v2.is_categorical());

    let v3: ParamValue = String::from("RandomForest").into();
    assert!(v3.is_categorical());
}

#[test]
fn test_param_map_ext() {
    let map = named(&[("learning_rate", 0.1), ("max_depth", 6.0)]);
    let param_values = map.to_param_values();
    assert_eq!(param_values.len(), 2);
    assert!(param_values.get("learning_rate").unwrap().is_numeric());
    assert!((number(param_values.get("learning_rate").unwrap().as_numeric()) - 0.1).abs() < 1e-6);
}

#[test]
fn test_param_map_ext_with_space() {
    let space = ParameterSpace::new()
        .with_param(TunableParam::LearningRate, ParamBounds::continuous(bits(0.01), bits(0.5)), bits(0.1))
        .with_param(
            TunableParam::Mode,
            ParamBounds::categorical(vec![
                "PureTree".to_string(),
                "LinearThenTree".to_string(),
                "RandomForest".to_string(),
            ]),
            bits(0.0),
        );
    let params = named(&[("learning_rate", 0.15), ("mode", 1.0)]);
    let param_values = params.to_param_values_with_space(&space);

    let rate = param_values.get("learning_rate").unwrap();
    assert!(rate.is_numeric());
    assert!((number(rate.as_numeric()) - 0.15).abs() < 1e-6);

    let mode = param_values.get("mode").unwrap();
    assert!(mode.is_categorical());
    assert_eq!(mode.as_categorical(), Some("LinearThenTree"));
}

#[test]
fn test_param_map_ext_with_space_unknown_param() {
    let space = ParameterSpace::new().with_param(
        TunableParam::LearningRate,
        ParamBounds::continuous(bits(0.01), bits(0.5)),
        bits(0.1),
    );
    let params = named(&[("learning_rate", 0.15), ("unknown_param", 42.0)]);
    let param_values = params.to_param_values_with_space(&space);

    assert!(param_values.get("learning_rate").unwrap().is_numeric());
    let unknown = param_values.get("unknown_param").unwrap();
    assert!(unknown.is_numeric());
    assert!((number(unknown.as_numeric()) - 42.0).abs() < 1e-6);
}

#[test]
fn values_by_name_replace_each_other() {
    let mut map = named(&[("a", 1.0), ("b", 2.0)]);
    map.insert("a".to_string(), bits(3.0));
    assert_eq!(map.len(), 2);
    assert_eq!(value_of(&map, "a"), 3.0);
    // A known name keeps its place, a new one comes last.
    map.insert("c".to_string(), bits(4.0));
    assert_eq!((map.name(0), map.name(1), map.name(2)), ("a", "b", "c"));
    assert!(map.get("d").is_none() && !map.contains_key("d"));
    assert!(ParamMap::<F32>::new().is_empty());
    let names: HashSet<&str> = (0..map.len()).map(|i| map.name(i)).collect();
    assert_eq!(names, HashSet::from(["a", "b", "c"]));
}

#[test]
fn whole_numbers_are_placed_on_steps() {
    let points = |low: f32, high: f32, (min, max, step): (usize, usize, usize), points: usize| {
        numbers(&discrete_points(bits(low), bits(high), min, max, step, points))
    };
    assert_eq!(points(4.0, 8.0, (2, 10, 1), 10), vec![4.0, 5.0, 6.0, 7.0, 8.0]);
    // Five values, three wanted: a stride of one.
    assert_eq!(points(4.0, 8.0, (2, 10, 1), 3), vec![4.0, 5.0, 6.0]);
    assert_eq!(points(2.0, 11.0, (2, 11, 1), 3), vec![2.0, 5.0, 8.0]);
    // The ends are brought to the steps around them.
    assert_eq!(points(7.0, 17.0, (5, 40, 5), 10), vec![5.0, 10.0, 15.0, 20.0]);
    assert_eq!(points(9.0, 3.0, (2, 12, 2), 10), Vec::<f32>::new());
}

#[test]
fn discrete_values_lie_between_the_bounds_at_intervals_of_the_step() {
    let points = |low: f32, high: f32, (min, max, step): (usize, usize, usize), points: usize| {
        numbers(&discrete_points(bits(low), bits(high), min, max, step, points))
    };
    assert_eq!(points(2.0, 12.0, (2, 12, 2), 6), vec![2.0, 4.0, 6.0, 8.0, 10.0, 12.0]);
    assert_eq!(points(0.0, 6.0, (0, 6, 2), 10), vec![0.0, 2.0, 4.0, 6.0]);
    assert_eq!(points(1.0, 9.0, (1, 9, 4), 10), vec![1.0, 5.0, 9.0]);
    assert_eq!(points(1.0, 10.0, (1, 10, 4), 10), vec![1.0, 5.0, 9.0]);
    assert_eq!(points(0.0, 1e9, (3, 10, 5), 10), vec![3.0, 8.0]);

    let param = ParamDef::new(TunableParam::MaxDepth, ParamBounds::discrete_step(1, 10, 4), bits(6.0));
    for count in 2..6 {
        let values = generate_param_values(&param, count, bits(1.0), bits(10.0), &[]);
        assert!(numbers(&values).contains(&5.0));
        for value in values {
            assert!(param.bounds.contains(value) && [1.0, 5.0, 9.0].contains(&number(value)));
        }
    }
}

#[test]
fn the_center_takes_the_place_of_the_closest_value() {
    let values = all_bits(&[2.0, 5.0, 8.0]);
    let distances = all_bits(&[4.0, 1.0, 2.0]);
    assert_eq!(numbers(&with_center(&values, bits(6.0), &distances)), vec![2.0, 6.0, 8.0]);
    assert_eq!(numbers(&with_center(&values, bits(5.0), &distances)), vec![2.0, 5.0, 8.0]);
    assert_eq!(numbers(&sort_and_dedup(&all_bits(&[3.0, 1.0, 3.0, 2.0]))), vec![1.0, 2.0, 3.0]);

    let param = ParamDef::new(TunableParam::MaxDepth, ParamBounds::discrete(2, 11), bits(6.0));
    let found = generate_param_values(&param, 3, bits(2.0), bits(11.0), &[]);
    assert_eq!(numbers(&found), vec![2.0, 6.0, 8.0]);
    assert_eq!(numbers(&generate_param_values(&param, 1, bits(2.0), bits(11.0), &[])), vec![6.0]);

    let mode =
        ParamDef::new(TunableParam::Mode, ParamBounds::categorical_from_strs(&["a", "b", "c"]), bits(0.0));
    assert_eq!(numbers(&generate_param_values(&mode, 2, bits(0.0), bits(2.0), &[])), vec![0.0, 1.0, 2.0]);
}

#[test]
fn the_grid_holds_every_combination_in_order() {
    let space = ParameterSpace::with_preset(SpacePreset::Minimal);
    let lists = vec![all_bits(&[8.0, 4.0, 8.0]), all_bits(&[0.5, 0.25])];
    let grid = generate_cartesian_grid(&space, &lists);
    let names = space.param_names();
    let rows: Vec<(f32, f32)> = grid.iter().map(|c| (value_of(c, names[0]), value_of(c, names[1]))).collect();
    assert_eq!(rows, vec![(4.0, 0.25), (4.0, 0.5), (8.0, 0.25), (8.0, 0.5)]);
    let empty = generate_cartesian_grid(&ParameterSpace::new(), &[]);
    assert_eq!(empty.len(), 1);
    assert!(empty[0].is_empty());
}

#[test]
fn every_stratum_has_one_sample() {
    let (strata, _) = shuffled_strata(3, 40, 7);
    assert_eq!(strata.len(), 3);
    for order in &strata {
        let mut sorted = order.clone();
        sorted.sort();
        assert_eq!(sorted, (0..40).collect::<Vec<usize>>());
        assert_ne!(order, &sorted);
    }
    assert_ne!(strata[0], strata[1]);
    let (again, _) = shuffled_strata(3, 40, 7);
    assert_eq!(strata, again);
    let (other, _) = shuffled_strata(3, 40, 8);
    assert_ne!(strata, other);
    assert_eq!(center_seed(5, 7), 12);
    assert_eq!(center_seed(u64::MAX, 2), 1);
}

#[test]
fn drawn_values_are_brought_within_bounds() {
    let space = ParameterSpace::new()
        .with_param(TunableParam::Subsample, ParamBounds::continuous(bits(0.5), bits(1.0)), bits(0.8))
        .with_param(TunableParam::MaxDepth, ParamBounds::discrete(2, 10), bits(6.0));
    let found = drawn_candidates(&space, &[all_bits(&[0.25, 7.9]), all_bits(&[0.75, 99.0])]);
    assert_eq!(value_of(&found[0], "subsample"), 0.5);
    assert_eq!(value_of(&found[0], "max_depth"), 7.0);
    assert_eq!(value_of(&found[1], "subsample"), 0.75);
    assert_eq!(value_of(&found[1], "max_depth"), 10.0);
}

fn metrics(val: f32, trees: usize, f1: Option<f32>) -> EvalMetrics {
    EvalMetrics {
        val_metric: bits(val),
        train_metric: bits(val),
        num_trees: trees,
        f1_score: f1.map(bits),
        roc_auc: None,
        rank_ic: None,
    }
}

fn means() -> FoldMeans {
    FoldMeans {
        val_metric: bits(0.25),
        train_metric: bits(0.125),
        f1_score: bits(0.5),
        roc_auc: F64 { bits: 0.75f64.to_bits() },
        rank_ic: F64 { bits: 0.25f64.to_bits() },
    }
}

#[test]
fn folds_are_taken_together() {
    let all = aggregate_fold_results(&[metrics(0.2, 10, None), metrics(0.3, 13, Some(0.5))], means());
    assert_eq!(number(all.val_metric), 0.25);
    assert_eq!(number(all.train_metric), 0.125);
    assert_eq!(all.num_trees, 11);
    assert_eq!(all.f1_score, Some(bits(0.5)));
    assert_eq!(all.roc_auc, None);
    let none = aggregate_fold_results(&[], means());
    assert_eq!(number(none.val_metric), f32::MAX);
    assert_eq!((none.num_trees, none.f1_score), (0, None));
}

#[test]
fn a_trial_records_the_learning_rate() {
    let own = finish_trial(3, 1, named(&[("learning_rate", 0.5)]), metrics(0.25, 9, None), 40, bits(0.1));
    assert_eq!(value_of(&own.params, "learning_rate"), 0.5);
    let base = finish_trial(3, 1, named(&[("max_depth", 4.0)]), metrics(0.25, 9, None), 40, bits(0.1));
    assert_eq!(value_of(&base.params, "learning_rate"), 0.1);
    assert_eq!(value_of(&base.params, "max_depth"), 4.0);
    assert_eq!((base.trial_id, base.iteration, base.num_trees, base.train_time_ms), (3, 1, 9, 40));
}

#[test]
fn nothing_beats_the_best_trial() {
    let mut history = SearchHistory::with_metric(OptimizationMetric::F1Score);
    let scores = [0.4, 0.9, 0.9, 0.1];
    for (id, score) in scores.iter().enumerate() {
        let mut next = trial(id, ParamMap::new(), 0.5, 0.5);
        next.iteration = id / 2;
        next.f1_score = Some(bits(*score));
        history.add(next);
    }
    assert_eq!(history.best().unwrap().trial_id, 1);
    assert_eq!(history.optimization_metric(), OptimizationMetric::F1Score);
    assert_eq!(history.trials().len(), 4);
    assert_eq!(history.trials_for_iteration(1), vec![2, 3]);
    assert_eq!(history.top_n(&all_bits(&scores), 3), vec![1, 2, 0]);
    assert_eq!(history.top_n(&all_bits(&scores), 9), vec![1, 2, 0, 3]);

    let missing = trial(0, ParamMap::new(), 0.5, 0.5);
    assert_eq!(get_metric_value(&missing, OptimizationMetric::ValidationLoss), MetricValue::Single(bits(0.5)));
    assert_eq!(get_metric_value(&missing, OptimizationMetric::F1Score), MetricValue::Single(bits(0.0)));
    assert_eq!(get_metric_value(&missing, OptimizationMetric::RocAuc), MetricValue::Double(F64 { bits: 0 }));
    assert!(SearchHistory::new().best().is_none());
}

#[test]
fn a_table_has_headers_and_rows() {
    let table = read_table(b"max_depth,val_metric\n6,0.5\n\"8\",0.25\n").unwrap();
    assert_eq!(table.headers, vec!["max_depth", "val_metric"]);
    assert_eq!(table.rows, vec![vec!["6", "0.5"], vec!["8", "0.25"]]);

    let empty = read_table(b"").unwrap();
    assert!(empty.headers.is_empty() && empty.rows.is_empty());

    let uneven = read_table(b"a,b\n1,2,3\n").unwrap_err();
    assert!(matches!(&uneven, HistoryError::Record { reason } if !reason.is_empty()));
    let garbled = read_table(b"a,\xff\n1,2\n").unwrap_err();
    assert!(matches!(&garbled, HistoryError::Headers { reason } if !reason.is_empty()));
}

#[test]
fn iteration_files_are_told_by_their_names() {
    assert!(is_iteration_file("iteration_1.csv"));
    assert!(!is_iteration_file("iteration_1.json"));
    assert!(!is_iteration_file("my_iteration_1.csv"));
    let names: Vec<String> =
        ["best.json", "iteration_0.csv", "iteration_12.csv"].iter().map(|n| n.to_string()).collect();
    assert_eq!(iteration_files(&names).unwrap(), vec![1, 2]);
    assert!(matches!(iteration_files(&names[..1]), Err(HistoryError::NoFiles)));
}

fn past_trials() -> Vec<ParamMap<F32>> {
    let headers: Vec<String> = ["max_depth", "subsample", "val_metric"].iter().map(|h| h.to_string()).collect();
    let rows = vec![
        vec![Some(bits(4.0)), Some(bits(0.5)), Some(bits(0.3))],
        vec![Some(bits(6.0)), None, Some(bits(0.1))],
        vec![Some(bits(9.0)), Some(bits(0.9)), None],
        vec![Some(bits(5.0)), Some(bits(0.7)), Some(bits(0.2))],
    ];
    let mut trials = Vec::new();
    add_trials(&mut trials, &headers, &rows, "val_metric");
    trials
}

#[test]
fn rows_without_the_metric_are_left_out() {
    let trials = past_trials();
    assert_eq!(trials.len(), 3);
    assert_eq!(value_of(&trials[1], "max_depth"), 6.0);
    assert!(!trials[1].contains_key("subsample"));
}

#[test]
fn the_best_trials_come_first() {
    let trials = past_trials();
    assert_eq!(top_trials(&trials, 2, "val_metric", false).unwrap(), vec![1, 2]);
    assert_eq!(top_trials(&trials, 2, "val_metric", true).unwrap(), vec![0, 2]);
    assert_eq!(top_trials(&trials, 9, "val_metric", false).unwrap().len(), 3);
    assert!(matches!(top_trials(&[], 2, "val_metric", false), Err(HistoryError::NoTrials)));
    let range = observed_range(&trials, &[1, 2], "max_depth").unwrap();
    assert_eq!((number(range.least), number(range.greatest)), (5.0, 6.0));
    assert!(observed_range(&trials, &[1], "subsample").is_none());
}

#[test]
fn narrowing_only_takes_away() {
    let space = ParameterSpace::new()
        .with_param(TunableParam::MaxDepth, ParamBounds::discrete(2, 12), bits(6.0))
        .with_param(TunableParam::Subsample, ParamBounds::continuous(bits(0.25), bits(1.0)), bits(0.8))
        .with_param(TunableParam::Lambda, ParamBounds::continuous(bits(0.0), bits(5.0)), bits(1.0));
    let trials = past_trials();
    let ranges = observed_ranges(&space, &trials, &[1, 2, 0]);
    assert_eq!(ranges[0], Some(ValueRange { least: bits(4.0), greatest: bits(6.0) }));
    assert_eq!(ranges[1], Some(ValueRange { least: bits(0.5), greatest: bits(0.7) }));
    assert_eq!(ranges[2], None);
    for (param, range) in space.params().iter().zip(&ranges) {
        assert!(can_narrow(param, *range));
    }
    assert_eq!(continuous_ends(bits(0.25), bits(0.6), ranges[1].unwrap()), (bits(0.5), bits(0.6)));
    let middle = bits(0.6);
    let narrowed = space.constrain_from_history(&ranges, &[middle, middle, middle]);
    let depth = narrowed.get(TunableParam::MaxDepth).unwrap();
    assert_eq!((number(depth.bounds.min_value()), number(depth.bounds.max_value())), (4.0, 6.0));
    assert_eq!(number(depth.center), 5.0);
    let share = narrowed.get(TunableParam::Subsample).unwrap();
    assert_eq!((number(share.bounds.min_value()), number(share.bounds.max_value())), (0.5, 0.7));
    assert_eq!(number(share.center), 0.6);
    let lambda = narrowed.get(TunableParam::Lambda).unwrap();
    assert_eq!((number(lambda.bounds.max_value()), number(lambda.center)), (5.0, 1.0));

    // Nothing is left where everything observed lies outside.
    let far = ValueRange { least: bits(2.0), greatest: bits(3.0) };
    assert!(!can_narrow(share, Some(far)));
}

#[derive(Clone)]
struct Constant {
    value: F32,
}

impl TunableModel for Constant {
    type Config = F32;

    fn train(_dataset: &BinnedDataset, config: &F32) -> Result<Constant, ConfigError> {
        Ok(Constant { value: *config })
    }

    fn predict(&self, dataset: &BinnedDataset) -> Vec<F32> {
        vec![self.value; dataset.num_rows()]
    }

    fn num_trees(&self) -> usize {
        0
    }

    fn apply_params(config: &mut F32, params: &ParamMap<ParamValue>) {
        if let Some(value) = params.get("lambda") {
            *config = value.as_numeric();
        }
    }

    fn valid_params() -> &'static [&'static str] {
        &["lambda"]
    }

    fn default_config() -> F32 {
        F32 { bits: 0 }
    }
}

/// A model with prediction intervals.
#[derive(Clone)]
struct Calibrated;

impl TunableModel for Calibrated {
    type Config = F32;

    fn train(_dataset: &BinnedDataset, _config: &F32) -> Result<Calibrated, ConfigError> {
        Err(ConfigError::Rule { text: "no rows to calibrate on".to_string() })
    }

    fn predict(&self, _dataset: &BinnedDataset) -> Vec<F32> {
        Vec::new()
    }

    fn num_trees(&self) -> usize {
        0
    }

    fn apply_params(_config: &mut F32, _params: &ParamMap<ParamValue>) {}

    fn valid_params() -> &'static [&'static str] {
        &[]
    }

    fn default_config() -> F32 {
        F32 { bits: 0 }
    }

    fn supports_conformal() -> bool {
        true
    }
}

#[test]
fn a_model_has_the_default_behaviour() {
    let dataset = BinnedDataset::new(2, 1, vec![1, 2]);
    let mut config = Constant::default_config();
    Constant::apply_params(&mut config, &named(&[("lambda", 2.5)]).to_param_values());
    Constant::set_num_rounds(&mut config, 7);
    Constant::configure_validation(&mut config, bits(0.2), 5);
    Constant::configure_conformal(&mut config, bits(0.2), bits(0.9));
    assert_eq!(config, bits(2.5));
    let model = Constant::train_with_validation(&dataset, &dataset, &[], &config).unwrap();
    assert_eq!(numbers(&model.predict(&dataset)), vec![2.5, 2.5]);
    // Without support for early stopping, training ignores the other rows.
    let plain = Constant::train(&dataset, &config).unwrap();
    assert_eq!(plain.predict(&dataset), model.predict(&dataset));
    assert!(Calibrated::train_with_validation(&dataset, &dataset, &[], &config).is_err());
    assert!(!Constant::is_gpu_config(&config));
    assert_eq!(Constant::get_learning_rate(&config), bits(0.1));
    assert_eq!(model.conformal_quantile(), None);
    let text = |error: ConfigError| match error {
        ConfigError::Rule { text } => text,
        ConfigError::OutOfRange { rule, .. } => rule.to_string(),
    };
    let unsaved = "Model serialization not supported for this model type";
    assert_eq!(text(model.to_rkyv().unwrap_err()), unsaved);
    assert_eq!(text(model.to_bincode().unwrap_err()), unsaved);
    assert!(text(check_conformal_support::<Constant>().unwrap_err()).starts_with("Conformal evaluation"));
    assert!(check_conformal_support::<Calibrated>().is_ok());
    assert!(conformal_support(true).is_ok());
}
