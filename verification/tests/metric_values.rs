//! Metrics: which can be computed, the ROC curve, and rank correlation.

use treeboost::float::F32;
use treeboost::tuner::metrics::{
    ascending_order, average_ranks, class_indices, count_correct, rank_groups, Metric, RankGroups,
};
use treeboost::tuner::roc::{area_under, roc_curve, RocCurve};

fn bits(value: f32) -> F32 {
    F32 { bits: value.to_bits() }
}

fn all_bits(values: &[f32]) -> Vec<F32> {
    values.iter().map(|v| bits(*v)).collect()
}

fn sigmoid(x: f32) -> f32 {
    if x >= 0.0 {
        1.0 / (1.0 + (-x).exp())
    } else {
        x.exp() / (1.0 + x.exp())
    }
}

fn roc_auc(predictions: &[f32], targets: &[f32]) -> f64 {
    let probabilities: Vec<F32> = predictions.iter().map(|p| bits(sigmoid(*p))).collect();
    match roc_curve(&probabilities, &all_bits(targets)) {
        RocCurve::NoRows => 0.0,
        RocCurve::OneClass => 0.5,
        RocCurve::Points { points } => {
            let (up, right) = points[points.len() - 1];
            area_under(&points) as f64 / (2.0 * up as f64 * right as f64)
        }
    }
}

fn ranks(values: &[f32]) -> Vec<usize> {
    let order = ascending_order(&all_bits(values));
    let run_ends: Vec<usize> = (0..order.len())
        .map(|start| {
            let base = values[order[start]];
            let mut end = start + 1;
            while end < order.len() && values[order[end]] == base {
                end += 1;
            }
            end
        })
        .collect();
    average_ranks(&order, &run_ends)
}

fn spearman(predictions: &[f32], targets: &[f32]) -> f64 {
    let n = predictions.len() as f64;
    let halves = |values: &[f32]| ranks(values).iter().map(|r| *r as f64 / 2.0).collect::<Vec<f64>>();
    let (a, b) = (halves(predictions), halves(targets));
    let mean = |v: &[f64]| v.iter().sum::<f64>() / n;
    let (mean_a, mean_b) = (mean(&a), mean(&b));
    let (mut cov, mut var_a, mut var_b) = (0.0, 0.0, 0.0);
    for (x, y) in a.iter().zip(&b) {
        cov += (x - mean_a) * (y - mean_b);
        var_a += (x - mean_a) * (x - mean_a);
        var_b += (y - mean_b) * (y - mean_b);
    }
    let epsilon = 1e-10 * n;
    if var_a.sqrt() < epsilon || var_b.sqrt() < epsilon {
        0.0
    } else {
        cov / (var_a.sqrt() * var_b.sqrt())
    }
}

fn rank_ic(predictions: &[f32], targets: &[f32], eras: Option<&[u16]>) -> f64 {
    match rank_groups(predictions.len(), targets.len(), eras) {
        RankGroups::NoRows => 0.0,
        RankGroups::AllRows => spearman(predictions, targets),
        RankGroups::PerEra { groups } => {
            let found: Vec<f64> = groups
                .iter()
                .filter(|rows| rows.len() >= 2)
                .map(|rows| {
                    let p: Vec<f32> = rows.iter().map(|r| predictions[*r]).collect();
                    let t: Vec<f32> = rows.iter().map(|r| targets[*r]).collect();
                    spearman(&p, &t)
                })
                .filter(|ic| ic.is_finite())
                .collect();
            if found.is_empty() {
                0.0
            } else {
                found.iter().sum::<f64>() / found.len() as f64
            }
        }
    }
}

fn accuracy(predictions: &[f32], targets: &[f32]) -> f32 {
    let probabilities: Vec<F32> = predictions.iter().map(|p| bits(sigmoid(*p))).collect();
    count_correct(&probabilities, &all_bits(targets), bits(0.5)) as f32 / targets.len() as f32
}

#[test]
fn test_metric_lower_is_better() {
    assert!(Metric::Mse.lower_is_better());
    assert!(Metric::Rmse.lower_is_better());
    assert!(Metric::Mae.lower_is_better());
    assert!(Metric::BinaryLogLoss.lower_is_better());
    assert!(Metric::multi_class_log_loss(3).lower_is_better());
    assert!(!Metric::accuracy().lower_is_better());
}

#[test]
fn test_accuracy() {
    let targets = vec![1.0, 1.0, 0.0, 0.0];
    let acc = accuracy(&[10.0, 10.0, -10.0, -10.0], &targets);
    assert!((acc - 1.0).abs() < 1e-6);

    let acc = accuracy(&[-10.0, -10.0, 10.0, 10.0], &targets);
    assert!((acc - 0.0).abs() < 1e-6);

    let acc = accuracy(&[10.0, -10.0, 10.0, -10.0], &targets);
    assert!((acc - 0.5).abs() < 1e-6);
}

#[test]
fn test_empty_input() {
    // Nothing can be computed of no rows.
    assert!(!Metric::Mse.accepts(0, 0));
}

#[test]
fn test_mismatched_lengths() {
    assert!(!Metric::Mse.accepts(2, 1));
    assert!(Metric::Mse.accepts(2, 2));
}

#[test]
fn test_metric_name() {
    assert_eq!(Metric::Mse.name(), "mse");
    assert_eq!(Metric::Rmse.name(), "rmse");
    assert_eq!(Metric::Mae.name(), "mae");
    assert_eq!(Metric::BinaryLogLoss.name(), "binary_log_loss");
    assert_eq!(Metric::multi_class_log_loss(3).name(), "multi_class_log_loss");
    assert_eq!(Metric::accuracy().name(), "accuracy");
}

#[test]
fn test_roc_auc_perfect() {
    let auc = roc_auc(&[10.0, 10.0, -10.0, -10.0], &[1.0, 1.0, 0.0, 0.0]);
    assert!((auc - 1.0).abs() < 1e-6, "Expected AUC = 1.0, got {}", auc);
}

#[test]
fn test_roc_auc_worst() {
    let auc = roc_auc(&[-10.0, -10.0, 10.0, 10.0], &[1.0, 1.0, 0.0, 0.0]);
    assert!((auc - 0.0).abs() < 1e-6, "Expected AUC = 0.0, got {}", auc);
}

#[test]
fn test_roc_auc_random() {
    let auc = roc_auc(&[0.5, 0.3, 0.4, 0.6], &[1.0, 0.0, 1.0, 0.0]);
    assert!((auc - 0.5).abs() < 0.1, "Expected AUC ~ 0.5, got {}", auc);
}

#[test]
fn test_roc_auc_single_class() {
    let auc = roc_auc(&[1.0, 2.0, 3.0], &[1.0, 1.0, 1.0]);
    assert!((auc - 0.5).abs() < 1e-6, "All-positive should give AUC = 0.5, got {}", auc);

    let auc = roc_auc(&[1.0, 2.0, 3.0], &[0.0, 0.0, 0.0]);
    assert!((auc - 0.5).abs() < 1e-6, "All-negative should give AUC = 0.5, got {}", auc);
}

#[test]
fn test_roc_auc_empty() {
    let auc = roc_auc(&[], &[]);
    assert!((auc - 0.0).abs() < 1e-6);
}

#[test]
fn test_metric_roc_auc() {
    let predictions = vec![10.0, 10.0, -10.0, -10.0];
    let targets = vec![1.0, 1.0, 0.0, 0.0];
    assert!(Metric::RocAuc.accepts(predictions.len(), targets.len()));
    let auc = roc_auc(&predictions, &targets);
    assert!((auc - 1.0).abs() < 1e-6, "Expected AUC = 1.0, got {}", auc);
    assert!(!Metric::RocAuc.lower_is_better());
    assert_eq!(Metric::RocAuc.name(), "roc_auc");
}

#[test]
fn test_rank_ic_perfect() {
    let ic = rank_ic(&[1.0, 2.0, 3.0, 4.0, 5.0], &[10.0, 20.0, 30.0, 40.0, 50.0], None);
    assert!((ic - 1.0).abs() < 1e-6, "Expected Rank IC = 1.0, got {}", ic);
}

#[test]
fn test_rank_ic_perfect_negative() {
    let ic = rank_ic(&[5.0, 4.0, 3.0, 2.0, 1.0], &[10.0, 20.0, 30.0, 40.0, 50.0], None);
    assert!((ic - (-1.0)).abs() < 1e-6, "Expected Rank IC = -1.0, got {}", ic);
}

#[test]
fn test_rank_ic_no_correlation() {
    let ic = rank_ic(&[1.0, 2.0, 3.0, 4.0], &[1.0, 3.0, 2.0, 4.0], None);
    assert!(ic.abs() < 1.0, "Rank IC should be in [-1, 1], got {}", ic);
}

#[test]
fn test_rank_ic_with_ties() {
    let ic = rank_ic(&[1.0, 1.0, 3.0, 3.0], &[10.0, 20.0, 30.0, 40.0], None);
    assert!(ic > 0.0, "Expected positive Rank IC, got {}", ic);
}

#[test]
fn test_rank_ic_empty() {
    let ic = rank_ic(&[], &[], None);
    assert!((ic - 0.0).abs() < 1e-6);
}

#[test]
fn test_rank_ic_single() {
    let ic = rank_ic(&[1.0], &[1.0], None);
    assert!((ic - 0.0).abs() < 1e-6);
}

#[test]
fn test_rank_ic_constant_values() {
    let ic = rank_ic(&[1.0, 1.0, 1.0, 1.0], &[10.0, 20.0, 30.0, 40.0], None);
    assert!((ic - 0.0).abs() < 1e-6);
}

#[test]
fn test_rank_ic_with_eras() {
    let predictions = vec![1.0, 2.0, 3.0, 5.0, 4.0, 3.0];
    let targets = vec![10.0, 20.0, 30.0, 10.0, 20.0, 30.0];
    let era_indices = vec![0, 0, 0, 1, 1, 1];
    let ic = rank_ic(&predictions, &targets, Some(&era_indices));
    assert!((ic - 0.0).abs() < 1e-6, "Expected average IC = 0.0, got {}", ic);
}

#[test]
fn test_rank_ic_with_eras_positive() {
    let predictions = vec![1.0, 2.0, 3.0, 1.0, 2.0, 3.0];
    let targets = vec![10.0, 20.0, 30.0, 5.0, 10.0, 15.0];
    let era_indices = vec![0, 0, 0, 1, 1, 1];
    let ic = rank_ic(&predictions, &targets, Some(&era_indices));
    assert!((ic - 1.0).abs() < 1e-6, "Expected average IC = 1.0, got {}", ic);
}

#[test]
fn losses_have_their_metrics() {
    assert_eq!(Metric::from_loss_type("mse"), Metric::Mse);
    assert_eq!(Metric::from_loss_type("pseudo_huber"), Metric::Mse);
    assert_eq!(Metric::from_loss_type("binary_log_loss"), Metric::BinaryLogLoss);
    assert_eq!(Metric::from_loss_type("multi_class_log_loss"), Metric::MultiClassLogLoss { n_classes: 2 });
    assert_eq!(Metric::from_loss_type("anything else"), Metric::Mse);
    assert_eq!(Metric::default(), Metric::mse());
    assert_eq!(Metric::accuracy(), Metric::accuracy_with_threshold(bits(0.5)));
    assert!(Metric::multi_class_log_loss(3).accepts(6, 2));
    assert!(!Metric::multi_class_log_loss(3).accepts(2, 2));
}

#[test]
fn classes_are_read_from_targets() {
    let targets = all_bits(&[0.0, 2.0, 1.0]);
    assert_eq!(class_indices(9, &targets, 3), Some(vec![0, 2, 1]));
    assert_eq!(class_indices(8, &targets, 3), None);
    assert_eq!(class_indices(6, &targets, 2), None);
    assert_eq!(class_indices(3, &targets, 1), None);
}

#[test]
fn a_row_is_right_within_half_of_its_target() {
    let right = |probability: f32, target: f32| {
        count_correct(&[bits(probability)], &[bits(target)], bits(0.5)) == 1
    };
    assert!(right(0.5, 1.0) && right(0.75, 0.75) && right(0.25, 0.25) && right(0.25, -0.25));
    assert!(!right(0.5, 0.5) && !right(0.25, 0.5) && !right(0.75, 1.5) && !right(0.25, -0.5));
    assert!(!right(0.75, f32::NAN));
}

#[test]
fn the_curve_counts_rows_from_the_most_probable() {
    let curve = roc_curve(&all_bits(&[0.1, 0.9, 0.5, 0.5]), &all_bits(&[1.0, 1.0, 0.0, 1.0]));
    let points = match curve {
        RocCurve::Points { points } => points,
        _ => panic!("expected a curve"),
    };
    assert_eq!(points, vec![(0, 0), (1, 0), (2, 1), (3, 1)]);
    // One full square and a half one, of the three that there are.
    assert_eq!(area_under(&points), 3);
}

#[test]
fn equal_predictions_count_half() {
    assert_eq!(roc_auc(&[0.0, 0.0], &[1.0, 0.0]), 0.5);
    assert_eq!(roc_auc(&[0.0, 0.0], &[0.0, 1.0]), 0.5);
    assert_eq!(roc_auc(&[2.0; 5], &[0.0, 1.0, 1.0, 0.0, 1.0]), 0.5);
    // One pair in order, one tied.
    assert_eq!(roc_auc(&[1.0, 1.0, 0.0], &[1.0, 0.0, 0.0]), 0.75);
}

#[test]
fn ranks_keep_their_sum() {
    // Twice the ranks 1.5, 1.5, 3.5, 3.5, 5.
    assert_eq!(ranks(&[3.0, 1.0, 1.0, 7.0, 3.0]), vec![7, 3, 3, 10, 7]);
    for values in [vec![1.0, 2.0, 2.0, 2.0], vec![4.0; 7], vec![9.0, 8.0, 7.0]] {
        let n = values.len();
        assert_eq!(ranks(&values).iter().sum::<usize>(), n * (n + 1));
    }
}

#[test]
fn eras_group_their_rows() {
    match rank_groups(5, 5, Some(&[7, 3, 7, 7, 3])) {
        RankGroups::PerEra { groups } => assert_eq!(groups, vec![vec![0, 2, 3], vec![1, 4]]),
        _ => panic!("expected groups"),
    }
    assert!(matches!(rank_groups(5, 5, Some(&[1, 2])), RankGroups::NoRows));
    assert!(matches!(rank_groups(5, 4, None), RankGroups::NoRows));
    assert!(matches!(rank_groups(2, 2, None), RankGroups::AllRows));
}
