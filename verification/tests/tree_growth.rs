//! Tree growth: nodes, row partitions, and the growth of whole trees.

use treeboost::dataset::BinnedDataset;
use treeboost::float::{F32, F64};
use treeboost::tree::grow::{CandidateSplit, ChildTask, TreeGrowth};
use treeboost::tree::grower::{store_gradients, TreeGrower};
use treeboost::tree::node::{Node, NodeType};
use treeboost::tree::partition::RowPartitioner;
use treeboost::tree::split::{InteractionConstraints, PartitionEval, SplitFinder, SplitInfo};

fn bits(value: f32) -> F32 {
    F32 { bits: value.to_bits() }
}

fn number(value: F32) -> f32 {
    f32::from_bits(value.bits)
}

fn bins_of(num_rows: usize, num_features: usize) -> Vec<u8> {
    let mut features = Vec::with_capacity(num_rows * num_features);
    for f in 0..num_features {
        for r in 0..num_rows {
            features.push(((r * 3 + f * 7) % 256) as u8);
        }
    }
    features
}

fn create_test_dataset(num_rows: usize, num_features: usize) -> BinnedDataset {
    BinnedDataset::new(num_rows, num_features, bins_of(num_rows, num_features))
}

fn leaf_weight(gradient: f32, hessian: f32, lambda: f32) -> f32 {
    -gradient / (hessian + lambda)
}

fn evaluate(lambda: f32, left: (f32, f32), total: (f32, f32)) -> PartitionEval {
    let right = (total.0 - left.0, total.1 - left.1);
    let score = |g: f32, h: f32| (g * g) / (h + lambda);
    PartitionEval {
        left_gradient: bits(left.0),
        left_hessian: bits(left.1),
        right_gradient: bits(right.0),
        right_hessian: bits(right.1),
        left_weight: bits(leaf_weight(left.0, left.1, lambda)),
        right_weight: bits(leaf_weight(right.0, right.1, lambda)),
        gain: bits(0.5 * (score(left.0, left.1) + score(right.0, right.1) - score(total.0, total.1))),
    }
}

struct Trainer<'a> {
    grower: &'a TreeGrower,
    finder: SplitFinder,
    dataset: &'a BinnedDataset,
    gradients: &'a [f32],
    hessians: &'a [f32],
}

impl Trainer<'_> {
    /// The best split of a set of rows below the given features.
    fn search(&self, rows: &[usize], total: (f32, f32), ancestors: &[usize]) -> Option<CandidateSplit> {
        let lambda = number(self.grower.lambda);
        let mut per_feature = Vec::new();
        for feature in 0..self.dataset.num_features() {
            let mut histogram = vec![(0.0f32, 0.0f32); 256];
            let mut counts = vec![0u32; 256];
            for &row in rows {
                let bin = self.dataset.get_bin(row, feature) as usize;
                histogram[bin].0 += self.gradients[row];
                histogram[bin].1 += self.hessians[row];
                counts[bin] += 1;
            }
            let mut left = (0.0, 0.0);
            let mut evals = Vec::new();
            let mut missing_right = Vec::new();
            for bin in 0..256 {
                left = (left.0 + histogram[bin].0, left.1 + histogram[bin].1);
                evals.push(evaluate(lambda, left, total));
                let without = (left.0 - histogram[0].0, left.1 - histogram[0].1);
                missing_right.push(evaluate(lambda, without, total));
            }
            per_feature.push(self.finder.find_best_split_for_feature_scalar(
                feature,
                &counts,
                rows.len() as u32,
                &evals,
                &missing_right,
            ));
        }
        let mask =
            self.grower.compute_effective_feature_mask(ancestors, None, self.dataset.num_features());
        let rate = number(self.grower.learning_rate);
        self.finder.find_best_split_with_features(&per_feature, mask.as_deref()).map(|info: SplitInfo| {
            CandidateSplit {
                info,
                split_value: F64 { bits: 0 },
                left_value: bits(leaf_weight(number(info.left_gradient), number(info.left_hessian), lambda) * rate),
                right_value: bits(
                    leaf_weight(number(info.right_gradient), number(info.right_hessian), lambda) * rate,
                ),
            }
        })
    }

    fn grow(&self, batch_size: usize, rows: Vec<usize>) -> (Vec<Node>, usize) {
        let sum = |values: &[f32]| rows.iter().map(|row| values[*row]).sum::<f32>();
        let total = (sum(self.gradients), sum(self.hessians));
        let root = self.search(&rows, total, &[]);
        let rate = number(self.grower.learning_rate);
        let value = leaf_weight(total.0, total.1, number(self.grower.lambda)) * rate;
        let mut growth = TreeGrowth::new(
            self.dataset,
            &self.grower.interaction_constraints,
            self.grower.limits(),
            rows,
            bits(value),
            bits(total.0),
            bits(total.1),
            root,
        );
        while growth.is_growing() && growth.collect_batch(batch_size) {
            let splits: Vec<_> = growth
                .pending()
                .iter()
                .map(|pending| {
                    let search = |task: &ChildTask| {
                        self.search(
                            growth.get_rows(task.row_start, task.row_end),
                            (number(task.gradient), number(task.hessian)),
                            &pending.ancestor_features,
                        )
                    };
                    (search(&pending.smaller), search(&pending.larger))
                })
                .collect();
            growth.finish_batch(&splits);
        }
        let leaves = growth.num_leaves();
        (growth.into_nodes(), leaves)
    }
}

fn grow(grower: &TreeGrower, dataset: &BinnedDataset, gradients: &[f32], hessians: &[f32]) -> (Vec<Node>, usize) {
    let trainer = Trainer { grower, finder: grower.create_split_finder(), dataset, gradients, hessians };
    trainer.grow(1, (0..dataset.num_rows()).collect())
}

fn max_depth(nodes: &[Node]) -> usize {
    nodes.iter().map(|node| node.depth).max().unwrap()
}

fn leaf_of(nodes: &[Node], dataset: &BinnedDataset, row: usize) -> usize {
    let mut at = 0;
    while let Some((feature, threshold, _, left, right, default_left, _)) = nodes[at].split_info() {
        let bin = dataset.get_bin(row, feature);
        at = if (bin == 0 && default_left) || (bin != 0 && bin <= threshold) { left } else { right };
    }
    at
}

#[test]
fn test_grow_single_leaf() {
    let dataset = create_test_dataset(100, 3);
    let gradients: Vec<f32> = vec![0.0; 100];
    let hessians: Vec<f32> = vec![1.0; 100];

    let grower = TreeGrower::new().with_max_depth(3).with_min_gain(bits(1000.0));
    let (nodes, leaves) = grow(&grower, &dataset, &gradients, &hessians);

    assert_eq!(leaves, 1);
    assert_eq!(nodes.len(), 1);
}

#[test]
fn test_grow_with_splits() {
    let dataset = create_test_dataset(1000, 5);
    let gradients: Vec<f32> = (0..1000).map(|i| if i < 500 { -1.0 } else { 1.0 }).collect();
    let hessians: Vec<f32> = vec![1.0; 1000];

    let grower = TreeGrower::new()
        .with_max_depth(4)
        .with_max_leaves(16)
        .with_min_samples_leaf(10)
        .with_learning_rate(bits(0.1));
    let (nodes, leaves) = grow(&grower, &dataset, &gradients, &hessians);

    assert!(nodes.len() > 1);
    assert!(leaves > 1);
    assert!(max_depth(&nodes) <= 4);
}

#[test]
fn test_max_depth_constraint() {
    let dataset = create_test_dataset(1000, 3);
    let gradients: Vec<f32> = (0..1000).map(|i| (i as f32) * 0.01 - 5.0).collect();
    let hessians: Vec<f32> = vec![1.0; 1000];

    let grower = TreeGrower::new().with_max_depth(2).with_max_leaves(100);
    let (nodes, _) = grow(&grower, &dataset, &gradients, &hessians);

    assert!(max_depth(&nodes) <= 2);
}

#[test]
fn test_max_leaves_constraint() {
    let dataset = create_test_dataset(1000, 3);
    let gradients: Vec<f32> = (0..1000).map(|i| (i as f32) * 0.01 - 5.0).collect();
    let hessians: Vec<f32> = vec![1.0; 1000];

    let grower = TreeGrower::new().with_max_depth(10).with_max_leaves(5);
    let (_, leaves) = grow(&grower, &dataset, &gradients, &hessians);

    assert!(leaves <= 5);
    assert_eq!(leaves, 5);
}

#[test]
fn test_leaf_node() {
    let node = Node::leaf(bits(0.5), 2, 100, bits(10.0), bits(20.0));

    assert!(node.is_leaf());
    assert_eq!(node.leaf_value(), Some(bits(0.5)));
    assert_eq!(node.split_info(), None);
    assert_eq!(node.depth, 2);
    assert_eq!(node.num_samples, 100);
}

#[test]
fn test_internal_node() {
    let value = F64 { bits: 5.5f64.to_bits() };
    let node = Node::internal(3, 128, value, 1, 2, true, bits(10.5), 1, 200, bits(15.0), bits(30.0));

    assert!(!node.is_leaf());
    assert_eq!(node.leaf_value(), None);
    let split = node.split_info();
    assert!(split.is_some());
    let (f, t, v, l, r, d, g) = split.unwrap();
    assert_eq!(f, 3);
    assert_eq!(t, 128);
    assert!((f64::from_bits(v.bits) - 5.5).abs() < 1e-10);
    assert_eq!(l, 1);
    assert_eq!(r, 2);
    assert!(d);
    assert!((number(g) - 10.5).abs() < 1e-6);
}

#[test]
fn every_row_lies_in_one_leaf() {
    let dataset = create_test_dataset(500, 4);
    let gradients: Vec<f32> = (0..500).map(|i| ((i * 37) % 101) as f32 - 50.0).collect();
    let hessians: Vec<f32> = vec![1.0; 500];
    let grower = TreeGrower::new().with_max_depth(5).with_max_leaves(12);
    let (nodes, leaves) = grow(&grower, &dataset, &gradients, &hessians);

    assert!((4..=12).contains(&leaves));
    assert_eq!(nodes.len(), 2 * leaves - 1);
    assert_eq!(nodes.iter().filter(|node| node.is_leaf()).count(), leaves);

    let mut counts = vec![0; nodes.len()];
    for row in 0..500 {
        counts[leaf_of(&nodes, &dataset, row)] += 1;
    }
    for (at, node) in nodes.iter().enumerate() {
        if let NodeType::Internal { left_child, right_child, .. } = node.node_type {
            assert_eq!(node.num_samples, nodes[left_child].num_samples + nodes[right_child].num_samples);
            assert_eq!(nodes[left_child].depth, node.depth + 1);
        } else {
            assert_eq!(node.num_samples, counts[at]);
        }
    }
}

#[test]
fn batches_keep_the_limits() {
    let dataset = create_test_dataset(400, 3);
    let gradients: Vec<f32> = (0..400).map(|i| ((i * 53) % 97) as f32 - 48.0).collect();
    let hessians: Vec<f32> = vec![1.0; 400];
    let grower = TreeGrower::new().with_max_depth(4).with_max_leaves(7).with_min_samples_leaf(20);
    let trainer = Trainer {
        grower: &grower,
        finder: grower.create_split_finder(),
        dataset: &dataset,
        gradients: &gradients,
        hessians: &hessians,
    };
    for batch_size in [1, 2, 32] {
        let (nodes, leaves) = trainer.grow(batch_size, (0..400).collect());
        assert!(leaves <= 7);
        assert!(max_depth(&nodes) <= 4);
        assert!(nodes.iter().all(|node| node.num_samples >= 20));
        assert_eq!(
            nodes.iter().filter(|node| node.is_leaf()).map(|node| node.num_samples).sum::<usize>(),
            400
        );
    }
}

#[test]
fn missing_values_go_where_the_split_says() {
    let dataset = BinnedDataset::new(6, 1, vec![0, 0, 1, 1, 2, 2]);
    let grower = TreeGrower::new()
        .with_lambda(bits(0.0))
        .with_learning_rate(bits(1.0))
        .with_max_leaves(2)
        .with_missing_value_learning(true);
    let gradients = [1.0, 1.0, -1.0, -1.0, 1.0, 1.0];
    let (nodes, leaves) = grow(&grower, &dataset, &gradients, &[1.0; 6]);
    assert_eq!(leaves, 2);
    let (_, threshold, _, left, right, default_left, _) = nodes[0].split_info().unwrap();
    assert_eq!((threshold, default_left), (1, false));
    assert_eq!((nodes[left].num_samples, nodes[right].num_samples), (2, 4));
    assert_eq!((leaf_of(&nodes, &dataset, 0), leaf_of(&nodes, &dataset, 2)), (right, left));
}

#[test]
fn rows_that_are_not_listed_have_no_influence() {
    let gradients: Vec<f32> = (0..300).map(|i| ((i * 41) % 89) as f32 - 44.0).collect();
    let hessians: Vec<f32> = vec![1.0; 300];
    let grower = TreeGrower::new().with_max_depth(4).with_max_leaves(9);
    let rows: Vec<usize> = (0..300).filter(|row| row % 3 != 0).collect();
    let bins = bins_of(300, 2);
    let mut other_bins = bins.clone();
    for at in 0..other_bins.len() {
        if (at % 300) % 3 == 0 {
            other_bins[at] = 255 - other_bins[at];
        }
    }
    let grown: Vec<Vec<Node>> = [bins, other_bins]
        .into_iter()
        .map(|bins| {
            let dataset = BinnedDataset::new(300, 2, bins);
            let trainer = Trainer {
                grower: &grower,
                finder: grower.create_split_finder(),
                dataset: &dataset,
                gradients: &gradients,
                hessians: &hessians,
            };
            trainer.grow(1, rows.clone()).0
        })
        .collect();
    assert!(grown[0].len() > 5);
    assert_eq!(grown[0], grown[1]);
}

#[test]
fn gradients_are_stored_at_their_rows() {
    let mut gradients = vec![bits(0.0); 5];
    let mut hessians = vec![bits(9.0); 5];
    let computed = [(bits(1.0), bits(2.0)), (bits(3.0), bits(4.0))];
    store_gradients(&[4, 1], &computed, &mut gradients, &mut hessians);
    let values = |list: &[F32]| list.iter().map(|value| number(*value)).collect::<Vec<f32>>();
    assert_eq!(values(&gradients), vec![0.0, 3.0, 0.0, 0.0, 1.0]);
    assert_eq!(values(&hessians), vec![9.0, 4.0, 9.0, 9.0, 2.0]);
}

#[test]
fn the_order_of_the_rows_has_no_influence_on_the_tree() {
    let dataset = create_test_dataset(200, 3);
    let gradients: Vec<f32> = (0..200).map(|i| ((i * 31) % 64) as f32 - 32.0).collect();
    let hessians: Vec<f32> = vec![1.0; 200];
    let grower = TreeGrower::new().with_max_depth(4).with_max_leaves(12);
    let trainer = Trainer {
        grower: &grower,
        finder: grower.create_split_finder(),
        dataset: &dataset,
        gradients: &gradients,
        hessians: &hessians,
    };
    // Whole gradients add up to the same sums in every order.
    for batch_size in [1, 4] {
        let forward = trainer.grow(batch_size, (0..200).collect());
        let backward = trainer.grow(batch_size, (0..200).rev().collect());
        assert!(forward.1 > 3);
        assert_eq!(forward, backward);
    }
}

#[test]
fn a_child_with_too_few_rows_is_not_made() {
    let dataset = BinnedDataset::new(4, 1, vec![1, 2, 2, 2]);
    let split = CandidateSplit {
        info: SplitInfo { gain: bits(5.0), bin_threshold: 1, left_count: 2, right_count: 2, ..SplitInfo::default() },
        split_value: F64 { bits: 0 },
        left_value: bits(0.0),
        right_value: bits(0.0),
    };
    let free = InteractionConstraints::new();
    for (fewest, leaves) in [(1, 2), (2, 1)] {
        let limits = TreeGrower::new().with_min_samples_leaf(fewest).limits();
        let rows = vec![0, 1, 2, 3];
        let zero = bits(0.0);
        let mut growth = TreeGrowth::new(&dataset, &free, limits, rows, zero, zero, zero, Some(split));
        growth.collect_batch(1);
        assert_eq!(growth.num_leaves(), leaves);
    }
}

#[test]
fn interaction_groups_hold_on_every_path() {
    let dataset = create_test_dataset(600, 4);
    let gradients: Vec<f32> = (0..600).map(|i| ((i * 29) % 113) as f32 - 56.0).collect();
    let hessians: Vec<f32> = vec![1.0; 600];
    let grower = TreeGrower::new()
        .with_max_depth(4)
        .with_max_leaves(16)
        .with_interaction_constraints(InteractionConstraints::from_groups(vec![vec![0, 1], vec![2, 3]], 4));
    let (nodes, leaves) = grow(&grower, &dataset, &gradients, &hessians);
    assert!(leaves > 4);
    for row in 0..600 {
        let mut groups = Vec::new();
        let mut at = 0;
        while let Some((feature, threshold, _, left, right, _, _)) = nodes[at].split_info() {
            groups.push(feature / 2);
            at = if dataset.get_bin(row, feature) <= threshold { left } else { right };
        }
        assert!(groups.windows(2).all(|pair| pair[0] == pair[1]));
    }
}

#[test]
fn masks_combine_interaction_and_column_sampling() {
    let free = TreeGrower::new();
    assert_eq!(free.compute_effective_feature_mask(&[0], None, 4), None);
    assert_eq!(free.compute_effective_feature_mask(&[0], Some(&[3, 1]), 4), Some(vec![3, 1]));
    let bound = TreeGrower::new()
        .with_interaction_constraints(InteractionConstraints::from_groups(vec![vec![0, 1], vec![2, 3]], 4));
    assert_eq!(bound.compute_effective_feature_mask(&[0], None, 4), Some(vec![0, 1]));
    // Without ancestors all features are allowed.
    assert_eq!(bound.compute_effective_feature_mask(&[], None, 4), None);
    assert_eq!(bound.compute_effective_feature_mask(&[], Some(&[3, 1]), 4), Some(vec![3, 1]));
    assert_eq!(bound.compute_effective_feature_mask(&[], Some(&[3, 1, 0, 2]), 4), None);
    assert_eq!(bound.compute_effective_feature_mask(&[0], Some(&[3, 1]), 4), Some(vec![1]));
    // Where nothing is left, the interaction constraints alone decide.
    assert_eq!(bound.compute_effective_feature_mask(&[0], Some(&[3, 2]), 4), Some(vec![0, 1]));
}

#[test]
fn rows_are_partitioned_in_place() {
    let dataset = BinnedDataset::new(6, 1, vec![5, 1, 9, 3, 7, 3]);
    assert_eq!(dataset.feature_column(0).to_vec(), vec![5, 1, 9, 3, 7, 3]);
    let mut partitioner = RowPartitioner::new(vec![0, 1, 2, 3, 4, 5]);
    let mid = partitioner.partition_in_place(&dataset, 1, 6, 0, 3, true);
    assert_eq!(mid, 4);
    assert_eq!(partitioner.get_rows(0, 1).to_vec(), vec![0]);
    let mut left = partitioner.get_rows(1, 4).to_vec();
    left.sort();
    assert_eq!(left, vec![1, 3, 5]);
    let mut right = partitioner.get_rows(4, 6).to_vec();
    right.sort();
    assert_eq!(right, vec![2, 4]);
    assert_eq!(partitioner.partition_in_place(&dataset, 0, 6, 0, 255, true), 6);
    assert_eq!(partitioner.partition_in_place(&dataset, 0, 6, 0, 0, true), 0);
    assert_eq!(partitioner.partition_in_place(&dataset, 2, 2, 0, 3, true), 2);

    // Missing values go where they are sent, whatever the threshold.
    let dataset = BinnedDataset::new(6, 1, vec![0, 0, 1, 1, 2, 2]);
    let mut partitioner = RowPartitioner::new(vec![0, 1, 2, 3, 4, 5]);
    assert_eq!(partitioner.partition_in_place(&dataset, 0, 6, 0, 1, true), 4);
    assert_eq!(partitioner.partition_in_place(&dataset, 0, 6, 0, 1, false), 2);
    let mut left = partitioner.get_rows(0, 2).to_vec();
    left.sort();
    assert_eq!(left, vec![2, 3]);
}

#[test]
fn settings_decide_batches_limits_and_eras() {
    let grower = TreeGrower::new().with_gpu_batch_size(32).with_max_leaves(9).with_min_samples_leaf(4);
    assert_eq!(grower.effective_batch_size(true), 32);
    assert_eq!(grower.effective_batch_size(false), 1);
    assert_eq!(TreeGrower::new().with_gpu_batch_size(0).effective_batch_size(true), 1);
    assert_eq!(grower.limits().min_child_rows, 4);
    assert_eq!(grower.limits().max_leaves, 9);
    assert_eq!(TreeGrower::column_seed(2), 62674);
    assert_eq!(TreeGrower::column_seed(usize::MAX), 0u64.wrapping_sub(31337));
    assert!(!grower.grows_over_eras(true));
    let over_eras = TreeGrower::new().with_era_splitting(true).with_noise_pruning(true);
    assert!(over_eras.grows_over_eras(true));
    assert!(!over_eras.grows_over_eras(false));
    assert!(over_eras.era_splitting() && over_eras.noise_pruning());
    assert!(over_eras.create_split_finder().noise_pruning);
}
