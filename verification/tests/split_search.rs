//! Split search: constraints, the scan over bins, and eras.

use treeboost::float::F32;
use treeboost::tree::era::{has_directional_agreement, EraEval};
use treeboost::tree::split::{
    InteractionConstraints, KernelCandidate, MonotonicConstraint, PartitionEval, SplitFinder, SplitInfo,
};

fn bits(value: f32) -> F32 {
    F32 { bits: value.to_bits() }
}

fn number(value: F32) -> f32 {
    f32::from_bits(value.bits)
}

/// Gradient sum, hessian sum and count per bin.
struct Histogram {
    gradients: Vec<f32>,
    hessians: Vec<f32>,
    counts: Vec<u32>,
}

impl Histogram {
    fn new() -> Histogram {
        Histogram { gradients: vec![0.0; 256], hessians: vec![0.0; 256], counts: vec![0; 256] }
    }

    fn accumulate(&mut self, bin: usize, gradient: f32, hessian: f32) {
        self.gradients[bin] += gradient;
        self.hessians[bin] += hessian;
        self.counts[bin] += 1;
    }
}

fn split_entropy(left: u32, right: u32, total: u32) -> f32 {
    if total == 0 || left == 0 || right == 0 {
        return 0.0;
    }
    let p = left as f32 / total as f32;
    let q = 1.0 - p;
    if p > 0.0 && q > 0.0 {
        -(p * p.log2() + q * q.log2())
    } else {
        0.0
    }
}

fn leaf_weight(gradient: f32, hessian: f32, lambda: f32) -> f32 {
    -gradient / (hessian + lambda)
}

/// What a cut with the given left side comes to.
fn evaluate(finder: &SplitFinder, left: (f32, f32, u32), total: (f32, f32, u32)) -> PartitionEval {
    let lambda = number(finder.lambda);
    let entropy_weight = number(finder.entropy_weight);
    let right = (total.0 - left.0, total.1 - left.1, total.2 - left.2);
    let score = |g: f32, h: f32| (g * g) / (h + lambda);
    let mut gain = 0.5 * (score(left.0, left.1) + score(right.0, right.1) - score(total.0, total.1));
    if entropy_weight > 0.0 {
        gain += entropy_weight * split_entropy(left.2, right.2, total.2);
    }
    PartitionEval {
        left_gradient: bits(left.0),
        left_hessian: bits(left.1),
        right_gradient: bits(right.0),
        right_hessian: bits(right.1),
        left_weight: bits(leaf_weight(left.0, left.1, lambda)),
        right_weight: bits(leaf_weight(right.0, right.1, lambda)),
        gain: bits(gain),
    }
}

/// The cuts of a histogram with missing values on the left and on the right.
fn evaluate_all(
    finder: &SplitFinder,
    histogram: &Histogram,
    total: (f32, f32, u32),
) -> (Vec<PartitionEval>, Vec<PartitionEval>) {
    let mut left = (0.0, 0.0, 0);
    let mut missing_left = Vec::new();
    let mut missing_right = Vec::new();
    for bin in 0..256 {
        left.0 += histogram.gradients[bin];
        left.1 += histogram.hessians[bin];
        left.2 += histogram.counts[bin];
        missing_left.push(evaluate(finder, left, total));
        let without = (
            left.0 - histogram.gradients[0],
            left.1 - histogram.hessians[0],
            left.2 - histogram.counts[0],
        );
        missing_right.push(evaluate(finder, without, total));
    }
    (missing_left, missing_right)
}

/// A plain scan in place of a vectorised one.
fn scan(finder: &SplitFinder, histogram: &Histogram, total: (f32, f32, u32)) -> Option<KernelCandidate> {
    let plain = SplitFinder::new()
        .with_lambda(finder.lambda)
        .with_min_samples_leaf(finder.min_samples_leaf)
        .with_min_hessian_leaf(finder.min_hessian_leaf);
    let (left, right) = evaluate_all(&plain, histogram, total);
    plain.find_best_split_for_feature_scalar(0, &histogram.counts, total.2, &left, &right).map(|split| {
        KernelCandidate {
            bin_threshold: split.bin_threshold,
            gain: split.gain,
            left_gradient: split.left_gradient,
            left_hessian: split.left_hessian,
            left_count: split.left_count,
            right_gradient: split.right_gradient,
            right_hessian: split.right_hessian,
            right_count: split.right_count,
        }
    })
}

fn find_best_split(finder: &SplitFinder, histograms: &[Histogram], total: (f32, f32, u32)) -> Option<SplitInfo> {
    let per_feature: Vec<Option<SplitInfo>> = histograms
        .iter()
        .enumerate()
        .map(|(feature, histogram)| {
            let (left, right) = evaluate_all(finder, histogram, total);
            let kernel = scan(finder, histogram, total);
            finder.find_best_split_for_feature(feature, &histogram.counts, total.2, &left, &right, kernel)
        })
        .collect();
    finder.find_best_split(&per_feature)
}

/// The cuts of one feature over eras: each era has a direction and a gain.
fn era_evals(
    finder: &SplitFinder,
    eras: &[Histogram],
    totals: &[(f32, f32, u32)],
    missing_left: bool,
) -> Vec<EraEval> {
    let all = totals.iter().fold((0.0, 0.0, 0), |sum, t| (sum.0 + t.0, sum.1 + t.1, sum.2 + t.2));
    let mut left = vec![(0.0f32, 0.0f32, 0u32); eras.len()];
    let mut evals = Vec::new();
    for bin in 0..255 {
        for (era, histogram) in eras.iter().enumerate().filter(|_| bin > 0 || missing_left) {
            left[era].0 += histogram.gradients[bin];
            left[era].1 += histogram.hessians[bin];
            left[era].2 += histogram.counts[bin];
        }
        let all_left = left.iter().fold((0.0, 0.0, 0), |sum, l| (sum.0 + l.0, sum.1 + l.1, sum.2 + l.2));
        let per_era: Vec<PartitionEval> =
            left.iter().zip(totals).map(|(l, t)| evaluate(finder, *l, *t)).collect();
        let present: Vec<&PartitionEval> =
            per_era.iter().zip(totals).filter(|(_, t)| t.2 > 0).map(|(e, _)| e).collect();
        let average = present.iter().map(|e| number(e.gain)).sum::<f32>() / present.len() as f32;
        evals.push(EraEval {
            aggregate: evaluate(finder, all_left, all),
            per_era,
            average_gain: bits(average),
        });
    }
    evals
}

fn find_best_split_with_eras(
    finder: &SplitFinder,
    eras: &[Histogram],
    totals: &[(f32, f32, u32)],
) -> Option<SplitInfo> {
    let counts: Vec<Vec<u32>> = eras.iter().map(|h| h.counts.clone()).collect();
    let era_totals: Vec<u32> = totals.iter().map(|t| t.2).collect();
    let missing_left = era_evals(finder, eras, totals, true);
    let missing_right = era_evals(finder, eras, totals, false);
    let split = finder.find_best_split_for_feature_era(0, &counts, &era_totals, &missing_left, &missing_right);
    finder.find_best_split_with_eras(eras.len(), &era_totals, &[split])
}

fn two_halves(left: f32, right: f32) -> Histogram {
    let mut histogram = Histogram::new();
    for bin in 0..128 {
        histogram.accumulate(bin, left, 1.0);
    }
    for bin in 128..=255 {
        histogram.accumulate(bin, right, 1.0);
    }
    histogram
}

#[test]
fn test_split_finder_basic() {
    // Bins 0-127 have negative gradients, 128-255 have positive ones.
    let histograms = vec![two_halves(-1.0, 1.0)];

    let finder = SplitFinder::new().with_lambda(bits(0.0));
    let split = find_best_split(&finder, &histograms, (0.0, 256.0, 256)).unwrap();

    assert_eq!(split.feature_idx, 0);
    assert_eq!(split.bin_threshold, 127);
    assert!(number(split.gain) > 0.0);
    // 0.5 * (128^2 / 128 + 128^2 / 128 - 0)
    assert_eq!(number(split.gain), 128.0);
    assert_eq!((split.left_count, split.right_count), (128, 128));
    assert!(split.default_left);
}

#[test]
fn test_entropy_regularization() {
    let mut histogram = Histogram::new();
    for _ in 0..10 {
        histogram.accumulate(0, -0.5, 1.0);
    }
    for _ in 0..90 {
        histogram.accumulate(255, 0.5, 1.0);
    }
    let histograms = vec![histogram];

    let finder_no_entropy = SplitFinder::new().with_lambda(bits(0.0));
    let split_no_entropy = find_best_split(&finder_no_entropy, &histograms, (40.0, 100.0, 100));

    let finder_entropy = SplitFinder::new().with_lambda(bits(0.0)).with_entropy_weight(bits(10.0));
    let split_entropy = find_best_split(&finder_entropy, &histograms, (40.0, 100.0, 100));

    assert!(split_no_entropy.is_some());
    assert!(split_entropy.is_some());
    assert!(number(split_no_entropy.unwrap().gain) < number(split_entropy.unwrap().gain));
}

#[test]
fn test_min_samples_constraint() {
    let mut histogram = Histogram::new();
    histogram.accumulate(0, -1.0, 1.0);
    for _ in 0..99 {
        histogram.accumulate(255, 1.0, 1.0);
    }
    let histograms = vec![histogram];

    let finder = SplitFinder::new().with_min_samples_leaf(5);
    let split = find_best_split(&finder, &histograms, (98.0, 100.0, 100));

    // The left side would have one row only.
    assert!(split.is_none());
}

#[test]
fn test_monotonic_increasing_constraint() {
    let histograms = vec![two_halves(-1.0, 1.0)];

    let finder_no_constraint = SplitFinder::new().with_lambda(bits(0.0));
    let split = find_best_split(&finder_no_constraint, &histograms, (0.0, 256.0, 256));
    assert!(split.is_some());

    // The left weight is 1, the right weight is -1.
    let finder_increasing = SplitFinder::new()
        .with_lambda(bits(0.0))
        .with_monotonic_constraints(vec![MonotonicConstraint::Increasing]);
    let split = find_best_split(&finder_increasing, &histograms, (0.0, 256.0, 256));
    assert!(split.is_none());
}

#[test]
fn test_monotonic_decreasing_constraint() {
    let histograms = vec![two_halves(-1.0, 1.0)];

    let finder_decreasing = SplitFinder::new()
        .with_lambda(bits(0.0))
        .with_monotonic_constraints(vec![MonotonicConstraint::Decreasing]);
    let split = find_best_split(&finder_decreasing, &histograms, (0.0, 256.0, 256));
    assert!(split.is_some());

    let finder_increasing = SplitFinder::new()
        .with_lambda(bits(0.0))
        .with_monotonic_constraints(vec![MonotonicConstraint::Increasing]);
    let split = find_best_split(&finder_increasing, &histograms, (0.0, 256.0, 256));
    assert!(split.is_none());
}

#[test]
fn test_monotonic_constraint_allows_valid_split() {
    // The left weight is 1, the right weight is 2.
    let histograms = vec![two_halves(-1.0, -2.0)];

    let finder = SplitFinder::new()
        .with_lambda(bits(0.0))
        .with_monotonic_constraints(vec![MonotonicConstraint::Increasing]);
    let split = find_best_split(&finder, &histograms, (-384.0, 256.0, 256));
    assert!(split.is_some());
}

#[test]
fn test_interaction_constraints_empty() {
    let constraints = InteractionConstraints::new();
    assert!(constraints.is_empty());

    let allowed = constraints.allowed_features(&[], 5);
    assert_eq!(allowed, vec![0, 1, 2, 3, 4]);

    let allowed = constraints.allowed_features(&[0, 2], 5);
    assert_eq!(allowed, vec![0, 1, 2, 3, 4]);
}

#[test]
fn test_interaction_constraints_basic() {
    let constraints = InteractionConstraints::from_groups(vec![vec![0, 1], vec![2, 3]], 5);

    let allowed = constraints.allowed_features(&[], 5);
    assert_eq!(allowed, vec![0, 1, 2, 3, 4]);

    let allowed = constraints.allowed_features(&[0], 5);
    assert_eq!(allowed, vec![0, 1, 4]);

    let allowed = constraints.allowed_features(&[2], 5);
    assert_eq!(allowed, vec![2, 3, 4]);
}

#[test]
fn test_interaction_constraints_unconstrained_always_allowed() {
    let constraints = InteractionConstraints::from_groups(vec![vec![0, 1]], 5);

    let allowed = constraints.allowed_features(&[0], 5);
    assert!(allowed.contains(&2));
    assert!(allowed.contains(&3));
    assert!(allowed.contains(&4));
    assert!(allowed.contains(&0));
    assert!(allowed.contains(&1));
    assert_eq!(allowed.len(), 5);
}

#[test]
fn test_noise_pruning_rejects_bad_validation_splits() {
    // Era 0 has a strong signal, era 1 has none.
    let mut validation = Histogram::new();
    for bin in 0..=255 {
        validation.accumulate(bin, 0.01, 1.0);
    }
    let eras = vec![two_halves(-2.0, 2.0), validation];
    let totals = vec![(-2.0 * 128.0 + 2.0 * 128.0, 256.0, 256), (0.01 * 256.0, 256.0, 256)];

    let finder_noise_pruning = SplitFinder::new()
        .with_lambda(bits(0.0))
        .with_min_gain(bits(0.0))
        .with_noise_pruning(true)
        .with_noise_pruning_threshold(bits(0.5));
    let split = find_best_split_with_eras(&finder_noise_pruning, &eras, &totals);
    assert!(split.is_none(), "Expected NO split with noise_pruning=true (validation has low gain)");

    let finder_des =
        SplitFinder::new().with_lambda(bits(0.0)).with_min_gain(bits(0.0)).with_noise_pruning(false);
    let _split_des = find_best_split_with_eras(&finder_des, &eras, &totals);
}

#[test]
fn test_noise_pruning_validation_with_missing_eras() {
    let single = vec![Histogram::new()];
    let totals_single = vec![(0.0, 256.0, 256)];

    let finder = SplitFinder::new().with_noise_pruning(true).with_noise_pruning_threshold(bits(-0.1));
    let split = find_best_split_with_eras(&finder, &single, &totals_single);
    assert!(split.is_none(), "Expected None when only 1 era provided");

    let mut train = Histogram::new();
    for bin in 0..128 {
        train.accumulate(bin, -1.0, 1.0);
    }
    let zero = vec![train, Histogram::new()];
    let totals_zero = vec![(-128.0, 128.0, 128), (0.0, 0.0, 0)];
    let split_zero = find_best_split_with_eras(&finder, &zero, &totals_zero);
    assert!(split_zero.is_none(), "Expected None when Era 1 has zero samples");
}

#[test]
fn test_noise_pruning_accepts_good_validation_splits() {
    let eras = vec![two_halves(-2.0, 2.0), two_halves(-2.0, 2.0)];
    let totals = vec![
        (-2.0 * 128.0 + 2.0 * 128.0, 256.0, 256),
        (-2.0 * 128.0 + 2.0 * 128.0, 256.0, 256),
    ];

    let finder = SplitFinder::new()
        .with_lambda(bits(0.0))
        .with_min_gain(bits(0.0))
        .with_noise_pruning(true)
        .with_noise_pruning_threshold(bits(-0.1));
    let split = find_best_split_with_eras(&finder, &eras, &totals);
    assert!(split.is_some(), "Expected split when both train and validation have positive gain");
    assert!(number(split.unwrap().gain) > 0.0, "Expected positive gain");

    // The gain is that of era 0: 0.5 * (256^2 / 128 + 256^2 / 128 - 0).
    assert_eq!(number(split.unwrap().gain), 512.0);
    assert_eq!(split.unwrap().bin_threshold, 127);
    assert_eq!((split.unwrap().left_count, split.unwrap().right_count), (256, 256));
}

#[test]
fn eras_that_disagree_allow_no_split() {
    let finder = SplitFinder::new().with_lambda(bits(0.0));
    let opposed = vec![two_halves(-2.0, 2.0), two_halves(2.0, -2.0)];
    let totals = vec![(0.0, 256.0, 256), (0.0, 256.0, 256)];
    assert_eq!(find_best_split_with_eras(&finder, &opposed, &totals), None);

    let agreed = vec![two_halves(-2.0, 2.0), two_halves(-1.0, 1.0)];
    let split = find_best_split_with_eras(&finder, &agreed, &totals).unwrap();
    // The average of 512 and 128.
    assert_eq!(number(split.gain), 320.0);
    assert_eq!(split.bin_threshold, 127);
}

#[test]
fn noise_pruning_compares_both_eras() {
    let finder = SplitFinder::new()
        .with_min_gain(bits(1.0))
        .with_noise_pruning(true)
        .with_noise_pruning_threshold(bits(0.5));
    let eval = |train: f32, validation: f32| EraEval {
        aggregate: evaluate(&finder, (0.0, 1.0, 1), (0.0, 2.0, 2)),
        per_era: [train, validation]
            .iter()
            .map(|gain| PartitionEval { gain: bits(*gain), ..evaluate(&finder, (0.0, 1.0, 1), (0.0, 2.0, 2)) })
            .collect(),
        average_gain: bits(0.0),
    };
    assert_eq!(finder.era_split_gain(&[1, 1], &eval(2.0, 0.75)), Some(bits(2.0)));
    assert_eq!(finder.era_split_gain(&[1, 1], &eval(1.0, 0.75)), None);
    assert_eq!(finder.era_split_gain(&[1, 1], &eval(2.0, 0.5)), None);
    assert_eq!(finder.era_split_gain(&[1, 0], &eval(2.0, 0.75)), None);
    assert_eq!(finder.era_split_gain(&[0, 0], &eval(2.0, 0.75)), None);
}

#[test]
fn eras_without_rows_have_no_say() {
    let finder = SplitFinder::new();
    let rising = evaluate(&finder, (2.0, 1.0, 1), (0.0, 2.0, 2));
    let falling = evaluate(&finder, (-2.0, 1.0, 1), (0.0, 2.0, 2));
    assert!(has_directional_agreement(&[rising, rising], &[3, 4]));
    assert!(!has_directional_agreement(&[rising, falling], &[3, 4]));
    assert!(has_directional_agreement(&[rising, falling, rising], &[3, 0, 4]));
    assert!(has_directional_agreement(&[], &[]));
}

#[test]
fn learned_directions_need_no_other_setting() {
    let mut histogram = Histogram::new();
    for _ in 0..2 {
        histogram.accumulate(0, 1.0, 1.0);
        histogram.accumulate(1, -1.0, 1.0);
        histogram.accumulate(2, 1.0, 1.0);
    }
    let learned = SplitFinder::new().with_lambda(bits(0.0)).with_missing_value_learning(true);
    assert!(!learned.can_use_simd(0));
    let split = find_best_split(&learned, &[histogram], (2.0, 6.0, 6)).unwrap();
    assert_eq!((split.bin_threshold, split.default_left), (1, false));
    assert_eq!((split.left_count, split.right_count), (2, 4));
}

#[test]
fn missing_values_go_where_they_gain_more_in_all_eras() {
    let era = || {
        let mut histogram = Histogram::new();
        for _ in 0..2 {
            histogram.accumulate(0, 1.0, 1.0);
            histogram.accumulate(1, -1.0, 1.0);
            histogram.accumulate(2, 1.0, 1.0);
        }
        histogram
    };
    let eras = [era(), era()];
    let totals = [(2.0, 6.0, 6), (2.0, 6.0, 6)];
    let fixed = SplitFinder::new().with_lambda(bits(0.0));
    let split = find_best_split_with_eras(&fixed, &eras, &totals).unwrap();
    assert!(split.default_left);
    let learned = SplitFinder::new().with_lambda(bits(0.0)).with_missing_value_learning(true);
    let split = find_best_split_with_eras(&learned, &eras, &totals).unwrap();
    assert_eq!((split.bin_threshold, split.default_left), (1, false));
    assert_eq!((split.left_count, split.right_count), (4, 8));
}

#[test]
fn missing_values_go_where_they_gain_more() {
    // Missing values (bin 0) look like the rows on the right.
    let mut histogram = Histogram::new();
    for _ in 0..10 {
        histogram.accumulate(0, 1.0, 1.0);
        histogram.accumulate(1, -1.0, 1.0);
        histogram.accumulate(2, 1.0, 1.0);
    }
    let histograms = vec![histogram];
    let total = (10.0, 30.0, 30);

    let fixed = SplitFinder::new().with_lambda(bits(0.0)).with_entropy_weight(bits(0.001));
    let split = find_best_split(&fixed, &histograms, total).unwrap();
    assert!(split.default_left);

    let learned = SplitFinder::new()
        .with_lambda(bits(0.0))
        .with_entropy_weight(bits(0.001))
        .with_missing_value_learning(true);
    let split = find_best_split(&learned, &histograms, total).unwrap();
    assert!(!split.default_left);
    assert_eq!(split.bin_threshold, 1);
    assert_eq!((split.left_count, split.right_count), (10, 20));
    assert_eq!(number(split.left_gradient), -10.0);
}

fn split_with(feature_idx: usize, gain: f32) -> SplitInfo {
    SplitInfo {
        feature_idx,
        gain: bits(gain),
        left_count: 1,
        right_count: 1,
        ..SplitInfo::default()
    }
}

#[test]
fn the_chosen_split_is_the_first_of_the_largest_gain() {
    let finder = SplitFinder::new();
    let per_feature =
        vec![Some(split_with(0, 1.0)), Some(split_with(1, 3.0)), None, Some(split_with(3, 3.0))];
    assert_eq!(finder.find_best_split(&per_feature).unwrap().feature_idx, 1);
    let masked = finder.find_best_split_with_features(&per_feature, Some(&[3, 9, 0, 1]));
    assert_eq!(masked.unwrap().feature_idx, 3);
    assert_eq!(finder.find_best_split_with_features(&per_feature, Some(&[2])), None);
    assert_eq!(finder.find_best_split_with_features(&per_feature, Some(&[])), None);
}

#[test]
fn splits_below_the_minimum_gain_are_not_taken() {
    let finder = SplitFinder::new().with_min_gain(bits(2.0));
    assert_eq!(finder.find_best_split(&[Some(split_with(0, 1.5))]), None);
    assert_eq!(finder.find_best_split(&[Some(split_with(0, 2.0))]), Some(split_with(0, 2.0)));
    let candidate = KernelCandidate {
        bin_threshold: 7,
        gain: bits(1.5),
        left_gradient: bits(0.0),
        left_hessian: bits(1.0),
        left_count: 3,
        right_gradient: bits(0.0),
        right_hessian: bits(1.0),
        right_count: 4,
    };
    assert_eq!(finder.find_best_split_for_feature_simd(0, Some(candidate)), None);
    assert_eq!(finder.find_best_split_for_feature_simd(0, None), None);
    let enough = KernelCandidate { gain: bits(2.0), ..candidate };
    let split = finder.find_best_split_for_feature_simd(4, Some(enough)).unwrap();
    assert_eq!((split.feature_idx, split.bin_threshold), (4, 7));
    assert_eq!((split.left_count, split.right_count), (3, 4));
}

#[test]
fn a_split_needs_rows_on_both_sides_and_a_gain() {
    assert!(!SplitInfo::default().is_valid());
    assert!(split_with(0, -1.0).is_valid());
    assert!(!SplitInfo { left_count: 0, ..split_with(0, 1.0) }.is_valid());
    assert!(!SplitInfo { right_count: 0, ..split_with(0, 1.0) }.is_valid());
    assert!(!split_with(0, f32::NAN).is_valid());
}

#[test]
fn constraints_past_the_list_are_absent() {
    let finder = SplitFinder::new().with_monotonic_constraints(vec![
        MonotonicConstraint::Unconstrained,
        MonotonicConstraint::Decreasing,
    ]);
    assert_eq!(finder.get_constraint(1), MonotonicConstraint::Decreasing);
    assert_eq!(finder.get_constraint(2), MonotonicConstraint::Unconstrained);
    assert!(finder.can_use_simd(0));
    assert!(!finder.can_use_simd(1));
    assert!(!SplitFinder::new().with_entropy_weight(bits(0.5)).can_use_simd(0));
    assert!(finder.satisfies_monotonic_constraint(1, bits(2.0), bits(2.0)));
    assert!(!finder.satisfies_monotonic_constraint(1, bits(1.0), bits(2.0)));
    assert!(!finder.satisfies_monotonic_constraint(1, bits(f32::NAN), bits(2.0)));
}

#[test]
fn masks_name_features() {
    let finder = SplitFinder::new();
    let per_feature = vec![Some(split_with(0, 1.0)), Some(split_with(1, 3.0)), Some(split_with(2, 2.0))];
    let search = |mask: &[usize]| finder.find_best_split_with_features(&per_feature, Some(mask));
    assert_eq!(search(&[0, 1, 2]), finder.find_best_split(&per_feature));
    assert_eq!(search(&[7, 2, 9, 0]), search(&[2, 0]));
    assert_eq!(search(&[7, 2, 9, 0]).unwrap().feature_idx, 2);
}

#[test]
fn a_feature_may_be_in_several_groups() {
    let constraints = InteractionConstraints::from_groups(vec![vec![0, 1], vec![1, 2]], 4);
    assert_eq!(constraints.allowed_features(&[0], 3), vec![0, 1]);
    assert_eq!(constraints.allowed_features(&[1], 4), vec![0, 1, 2, 3]);
    assert_eq!(constraints.allowed_features(&[2], 3), vec![1, 2]);
    assert_eq!(constraints.allowed_features(&[3], 3), vec![0, 1, 2]);
}

#[test]
fn groups_past_the_features_are_ignored() {
    let constraints = InteractionConstraints::from_groups(vec![vec![0, 9], vec![1]], 2);
    assert!(!constraints.is_empty());
    assert_eq!(constraints.groups().to_vec(), vec![vec![0, 9], vec![1]]);
    assert_eq!(constraints.allowed_features(&[0], 3), vec![0, 2]);
    assert_eq!(constraints.allowed_features(&[9], 3), vec![0, 1, 2]);
}
