//! Settings of tree growth, and the features that a node may be split on.

use crate::backend::BackendType;
use crate::defaults::DEFAULT_LEARNING_RATE;
use crate::float::{F32, F32_ONE, F32_ZERO};
use crate::seqs::ascending_where;
use crate::tree::grow::GrowthLimits;
use crate::tree::split::{
    in_feature_order, law_split_is_in_the_mask, masked, InteractionConstraints, MonotonicConstraint, SplitFinder,
    SplitInfo, NOISE_PRUNING_THRESHOLD,
};
use vstd::prelude::*;

verus! {

/// Settings of tree growth.
#[derive(Debug)]
pub struct TreeGrower {
    /// Largest depth of a leaf.
    pub max_depth: usize,
    /// Largest number of leaves.
    pub max_leaves: usize,
    /// L2 regularization.
    pub lambda: F32,
    /// Fewest rows in a leaf.
    pub min_samples_leaf: usize,
    /// Smallest hessian sum in a leaf.
    pub min_hessian_leaf: F32,
    /// Weight of the entropy bonus on balanced cuts.
    pub entropy_weight: F32,
    /// Smallest gain of a split.
    pub min_gain: F32,
    /// Factor on leaf predictions.
    pub learning_rate: F32,
    /// Share of the features that a tree may use.
    pub colsample: F32,
    /// One monotonic constraint per feature.
    pub monotonic_constraints: Vec<MonotonicConstraint>,
    /// Which features may appear together.
    pub interaction_constraints: InteractionConstraints,
    /// Histogram backend.
    pub backend_type: BackendType,
    /// How many histograms a graphics card builds at a time.
    pub gpu_batch_size: usize,
    /// Whether graphics cards use subgroups.
    pub use_gpu_subgroups: bool,
    /// Whether eras have to agree on splits.
    pub era_splitting: bool,
    /// Whether a second era validates splits.
    pub noise_pruning: bool,
    /// Validation gain at or below which a split is pruned.
    pub noise_pruning_threshold: F32,
    /// Whether missing values are tried on both sides of a cut.
    pub use_missing_value_learning: bool,
}

/// Whether settings are the default ones.
pub open spec fn default_grower(grower: TreeGrower) -> bool {
    &&& grower.max_depth == 6
    &&& grower.max_leaves == 31
    &&& grower.lambda == (F32 { bits: F32_ONE })
    &&& grower.min_samples_leaf == 1
    &&& grower.min_hessian_leaf == (F32 { bits: F32_ONE })
    &&& grower.entropy_weight == (F32 { bits: F32_ZERO })
    &&& grower.min_gain == (F32 { bits: F32_ZERO })
    &&& grower.learning_rate == (F32 { bits: DEFAULT_LEARNING_RATE })
    &&& grower.colsample == (F32 { bits: F32_ONE })
    &&& grower.monotonic_constraints@ == Seq::<MonotonicConstraint>::empty()
    &&& grower.interaction_constraints.group_list() == Seq::<Seq<usize>>::empty()
    &&& grower.backend_type == BackendType::Auto
    &&& grower.gpu_batch_size == 32
    &&& !grower.use_gpu_subgroups
    &&& !grower.era_splitting
    &&& !grower.noise_pruning
    &&& grower.noise_pruning_threshold == (F32 { bits: NOISE_PRUNING_THRESHOLD })
    &&& !grower.use_missing_value_learning
}

/// The features that a node may be split on: those that the interaction
/// constraints allow below its ancestors and that are in the sample of
/// columns. `None` stands for all features. Where no feature is in both, the
/// allowed ones are taken.
pub open spec fn usable_features(
    constraints: InteractionConstraints,
    ancestors: Seq<usize>,
    sampled: Option<Seq<usize>>,
    num_features: nat,
) -> Option<Seq<usize>> {
    let allowed = ascending_where(num_features, |f: int| constraints.allows(ancestors, f as usize));
    if constraints.group_list().len() == 0 {
        sampled
    } else {
        match sampled {
            None => Some(allowed),
            Some(mask) => {
                let both = mask.filter(|f: usize| allowed.contains(f));
                if both.len() == 0 {
                    Some(allowed)
                } else {
                    Some(both)
                }
            },
        }
    }
}

/// Whether a list holds all features.
pub open spec fn holds_all(list: Seq<usize>, num_features: nat) -> bool {
    forall|f: usize| f < num_features ==> #[trigger] list.contains(f)
}

/// The mask of a node: the features that it may be split on, or `None` where
/// these are all.
pub open spec fn effective_mask(
    constraints: InteractionConstraints,
    ancestors: Seq<usize>,
    sampled: Option<Seq<usize>>,
    num_features: nat,
) -> Option<Seq<usize>> {
    match usable_features(constraints, ancestors, sampled, num_features) {
        None => None,
        Some(usable) => if holds_all(usable, num_features) {
            None
        } else {
            Some(usable)
        },
    }
}

/// The view of an optional list.
pub open spec fn list_view(list: Option<Vec<usize>>) -> Option<Seq<usize>> {
    match list {
        None => None,
        Some(items) => Some(items@),
    }
}

/// Where interaction constraints are set, every feature of the mask may be
/// used below the node's ancestors; without a mask every feature may.
pub proof fn law_mask_keeps_interaction_constraints(
    constraints: InteractionConstraints,
    ancestors: Seq<usize>,
    sampled: Option<Seq<usize>>,
    num_features: usize,
    feature: usize,
)
    requires
        constraints.group_list().len() > 0,
        match effective_mask(constraints, ancestors, sampled, num_features as nat) {
            Some(mask) => mask.contains(feature),
            None => feature < num_features,
        },
    ensures
        feature < num_features,
        constraints.allows(ancestors, feature),
{
    let usable = usable_features(constraints, ancestors, sampled, num_features as nat);
    assert(usable->0.contains(feature));
    let keep = |f: int| constraints.allows(ancestors, f as usize);
    let allowed = ascending_where(num_features as nat, keep);
    crate::seqs::lemma_ascending_where(num_features as nat, keep);
    if let Some(mask) = sampled {
        let both = mask.filter(|f: usize| allowed.contains(f));
        if both.len() > 0 {
            let i = choose|i: int| 0 <= i < both.len() && both[i] == feature;
            assert(allowed.contains(both[i]));
        }
    }
    assert(allowed.contains(feature));
}

/// A split that is chosen under the mask of a node is one that the node's leaf
/// may take: its feature exists and is allowed below the node's ancestors.
pub proof fn law_chosen_split_keeps_interaction_constraints(
    finder: SplitFinder,
    constraints: InteractionConstraints,
    ancestors: Seq<usize>,
    sampled: Option<Seq<usize>>,
    per_feature: Seq<Option<SplitInfo>>,
)
    requires
        per_feature.len() <= usize::MAX,
        in_feature_order(per_feature),
        finder.chosen(
            masked(per_feature, effective_mask(constraints, ancestors, sampled, per_feature.len())),
        ) is Some,
    ensures
        ({
            let mask = effective_mask(constraints, ancestors, sampled, per_feature.len());
            let split = finder.chosen(masked(per_feature, mask))->0;
            &&& split.feature_idx < per_feature.len()
            &&& constraints.allows(ancestors, split.feature_idx)
        }),
{
    let mask = effective_mask(constraints, ancestors, sampled, per_feature.len());
    let split = finder.chosen(masked(per_feature, mask))->0;
    law_split_is_in_the_mask(finder, per_feature, mask);
    if constraints.group_list().len() > 0 {
        law_mask_keeps_interaction_constraints(
            constraints,
            ancestors,
            sampled,
            per_feature.len() as usize,
            split.feature_idx,
        );
    }
}

fn contains_index(list: &Vec<usize>, item: usize) -> (found: bool)
    ensures
        found == list@.contains(item),
{
    let count: usize = list.len();
    let mut i: usize = 0;
    while i < count
        invariant
            i <= count == list@.len(),
            forall|j: int| 0 <= j < i ==> #[trigger] list@[j] != item,
        decreases count - i,
    {
        if list[i] == item {
            assert(list@[i as int] == item);
            return true;
        }
        i = i + 1;
    }
    false
}

fn lists_all(list: &Vec<usize>, num_features: usize) -> (all: bool)
    ensures
        all == holds_all(list@, num_features as nat),
{
    let mut f: usize = 0;
    while f < num_features
        invariant
            f <= num_features,
            forall|g: usize| g < f ==> #[trigger] list@.contains(g),
        decreases num_features - f,
    {
        if !contains_index(list, f) {
            return false;
        }
        f = f + 1;
    }
    true
}

fn copy_slice(items: &[usize]) -> (copy: Vec<usize>)
    ensures
        copy@ == items@,
{
    let count: usize = items.len();
    let mut copy: Vec<usize> = Vec::new();
    let mut i: usize = 0;
    while i < count
        invariant
            i <= count == items@.len(),
            copy@ == items@.take(i as int),
        decreases count - i,
    {
        copy.push(items[i]);
        i = i + 1;
        assert(copy@ =~= items@.take(i as int));
    }
    assert(items@.take(count as int) =~= items@);
    copy
}

fn copy_constraints(items: &Vec<MonotonicConstraint>) -> (copy: Vec<MonotonicConstraint>)
    ensures
        copy@ == items@,
{
    let count: usize = items.len();
    let mut copy: Vec<MonotonicConstraint> = Vec::new();
    let mut i: usize = 0;
    while i < count
        invariant
            i <= count == items@.len(),
            copy@ == items@.take(i as int),
        decreases count - i,
    {
        copy.push(items[i]);
        i = i + 1;
        assert(copy@ =~= items@.take(i as int));
    }
    assert(items@.take(count as int) =~= items@);
    copy
}

impl TreeGrower {
    /// The features that a node may be split on; `None` where these are all.
    pub fn compute_effective_feature_mask(
        &self,
        ancestor_features: &[usize],
        colsample_mask: Option<&[usize]>,
        num_features: usize,
    ) -> (mask: Option<Vec<usize>>)
        ensures
            list_view(mask) == effective_mask(
                self.interaction_constraints,
                ancestor_features@,
                crate::tree::split::mask_view(colsample_mask),
                num_features as nat,
            ),
    {
        let usable: Option<Vec<usize>> = self.usable(ancestor_features, colsample_mask, num_features);
        match usable {
            None => None,
            Some(list) => if lists_all(&list, num_features) {
                None
            } else {
                Some(list)
            },
        }
    }

    fn usable(&self, ancestor_features: &[usize], colsample_mask: Option<&[usize]>, num_features: usize) -> (usable: Option<
        Vec<usize>,
    >)
        ensures
            list_view(usable) == usable_features(
                self.interaction_constraints,
                ancestor_features@,
                crate::tree::split::mask_view(colsample_mask),
                num_features as nat,
            ),
    {
        if self.interaction_constraints.is_empty() {
            return match colsample_mask {
                None => None,
                Some(mask) => Some(copy_slice(mask)),
            };
        }
        let allowed: Vec<usize> = self.interaction_constraints.allowed_features(ancestor_features, num_features);
        match colsample_mask {
            None => Some(allowed),
            Some(mask) => {
                let ghost keep = |f: usize| allowed@.contains(f);
                let count: usize = mask.len();
                let mut both: Vec<usize> = Vec::new();
                let mut i: usize = 0;
                assert(mask@.take(0).filter(keep) =~= Seq::empty()) by {
                    reveal(Seq::filter);
                }
                while i < count
                    invariant
                        i <= count == mask@.len(),
                        keep == (|f: usize| allowed@.contains(f)),
                        both@ == mask@.take(i as int).filter(keep),
                    decreases count - i,
                {
                    let feature: usize = mask[i];
                    let keeps: bool = contains_index(&allowed, feature);
                    proof {
                        reveal(Seq::filter);
                        assert(mask@.take(i + 1).drop_last() =~= mask@.take(i as int));
                        assert(mask@.take(i + 1).last() == feature);
                    }
                    if keeps {
                        both.push(feature);
                    }
                    i = i + 1;
                }
                assert(mask@.take(count as int) =~= mask@);
                if both.len() == 0 {
                    Some(allowed)
                } else {
                    Some(both)
                }
            },
        }
    }

    /// How many leaves are split before their children are searched: the batch
    /// size of a graphics card that takes batches, else one.
    pub fn effective_batch_size(&self, takes_batches: bool) -> (size: usize)
        ensures
            size == (if self.gpu_batch_size > 1 && takes_batches {
                self.gpu_batch_size
            } else {
                1
            }),
    {
        if self.gpu_batch_size > 1 && takes_batches {
            self.gpu_batch_size
        } else {
            1
        }
    }

    /// The limits of growth.
    pub fn limits(&self) -> (limits: GrowthLimits)
        ensures
            limits == (GrowthLimits {
                max_depth: self.max_depth,
                max_leaves: self.max_leaves,
                min_child_rows: self.min_samples_leaf,
            }),
    {
        GrowthLimits {
            max_depth: self.max_depth,
            max_leaves: self.max_leaves,
            min_child_rows: self.min_samples_leaf,
        }
    }

    /// The seed of the column sample of a tree over `num_rows` rows.
    pub fn column_seed(num_rows: usize) -> (seed: u64)
        ensures
            seed == (num_rows as nat * 31337) % 0x1_0000_0000_0000_0000,
    {
        (num_rows as u64).wrapping_mul(31337)
    }

    /// Whether growth over eras is to be used on data that has eras or not.
    pub fn grows_over_eras(&self, has_eras: bool) -> (over_eras: bool)
        ensures
            over_eras == (self.era_splitting && has_eras),
    {
        self.era_splitting && has_eras
    }

    /// The split finder of these settings.
    pub fn create_split_finder(&self) -> (finder: SplitFinder)
        ensures
            finder.lambda == self.lambda,
            finder.min_samples_leaf == self.min_samples_leaf,
            finder.min_hessian_leaf == self.min_hessian_leaf,
            finder.entropy_weight == self.entropy_weight,
            finder.min_gain == self.min_gain,
            finder.monotonic_constraints@ == self.monotonic_constraints@,
            finder.use_missing_value_learning == self.use_missing_value_learning,
            finder.noise_pruning == self.noise_pruning,
            finder.noise_pruning_threshold == self.noise_pruning_threshold,
    {
        SplitFinder::new().with_lambda(self.lambda).with_min_samples_leaf(
            self.min_samples_leaf,
        ).with_min_hessian_leaf(self.min_hessian_leaf).with_entropy_weight(self.entropy_weight).with_min_gain(
            self.min_gain,
        ).with_monotonic_constraints(copy_constraints(&self.monotonic_constraints)).with_missing_value_learning(
            self.use_missing_value_learning,
        ).with_noise_pruning(self.noise_pruning).with_noise_pruning_threshold(self.noise_pruning_threshold)
    }
}

impl Default for TreeGrower {
    fn default() -> (grower: Self)
        ensures
            default_grower(grower),
    {
        TreeGrower {
            max_depth: 6,
            max_leaves: 31,
            lambda: F32 { bits: F32_ONE },
            min_samples_leaf: 1,
            min_hessian_leaf: F32 { bits: F32_ONE },
            entropy_weight: F32 { bits: F32_ZERO },
            min_gain: F32 { bits: F32_ZERO },
            learning_rate: F32 { bits: DEFAULT_LEARNING_RATE },
            colsample: F32 { bits: F32_ONE },
            monotonic_constraints: Vec::new(),
            interaction_constraints: InteractionConstraints::new(),
            backend_type: BackendType::Auto,
            gpu_batch_size: 32,
            use_gpu_subgroups: false,
            era_splitting: false,
            noise_pruning: false,
            noise_pruning_threshold: F32 { bits: NOISE_PRUNING_THRESHOLD },
            use_missing_value_learning: false,
        }
    }
}

impl TreeGrower {
    /// Default settings.
    pub fn new() -> (grower: TreeGrower)
        ensures
            default_grower(grower),
    {
        TreeGrower::default()
    }

    /// The histogram backend.
    pub fn backend_type(&self) -> (backend: BackendType)
        ensures
            backend == self.backend_type,
    {
        self.backend_type
    }

    /// Whether eras have to agree on splits.
    pub fn era_splitting(&self) -> (enabled: bool)
        ensures
            enabled == self.era_splitting,
    {
        self.era_splitting
    }

    /// Whether a second era validates splits.
    pub fn noise_pruning(&self) -> (enabled: bool)
        ensures
            enabled == self.noise_pruning,
    {
        self.noise_pruning
    }

    /// Sets the largest depth of a leaf.
    pub fn with_max_depth(self, max_depth: usize) -> (grower: TreeGrower)
        ensures
            grower == (TreeGrower { max_depth, ..self }),
    {
        TreeGrower { max_depth, ..self }
    }

    /// Sets the largest number of leaves.
    pub fn with_max_leaves(self, max_leaves: usize) -> (grower: TreeGrower)
        ensures
            grower == (TreeGrower { max_leaves, ..self }),
    {
        TreeGrower { max_leaves, ..self }
    }

    /// Sets the L2 regularization.
    pub fn with_lambda(self, lambda: F32) -> (grower: TreeGrower)
        ensures
            grower == (TreeGrower { lambda, ..self }),
    {
        TreeGrower { lambda, ..self }
    }

    /// Sets the fewest rows in a leaf.
    pub fn with_min_samples_leaf(self, min_samples: usize) -> (grower: TreeGrower)
        ensures
            grower == (TreeGrower { min_samples_leaf: min_samples, ..self }),
    {
        TreeGrower { min_samples_leaf: min_samples, ..self }
    }

    /// Sets the smallest hessian sum in a leaf.
    pub fn with_min_hessian_leaf(self, min_hessian: F32) -> (grower: TreeGrower)
        ensures
            grower == (TreeGrower { min_hessian_leaf: min_hessian, ..self }),
    {
        TreeGrower { min_hessian_leaf: min_hessian, ..self }
    }

    /// Sets the weight of the entropy bonus.
    pub fn with_entropy_weight(self, weight: F32) -> (grower: TreeGrower)
        ensures
            grower == (TreeGrower { entropy_weight: weight, ..self }),
    {
        TreeGrower { entropy_weight: weight, ..self }
    }

    /// Sets the smallest gain of a split.
    pub fn with_min_gain(self, min_gain: F32) -> (grower: TreeGrower)
        ensures
            grower == (TreeGrower { min_gain, ..self }),
    {
        TreeGrower { min_gain, ..self }
    }

    /// Sets the factor on leaf predictions.
    pub fn with_learning_rate(self, lr: F32) -> (grower: TreeGrower)
        ensures
            grower == (TreeGrower { learning_rate: lr, ..self }),
    {
        TreeGrower { learning_rate: lr, ..self }
    }

    /// Sets the share of the features that a tree may use.
    pub fn with_colsample(self, colsample: F32) -> (grower: TreeGrower)
        ensures
            grower == (TreeGrower { colsample, ..self }),
    {
        TreeGrower { colsample, ..self }
    }

    /// Sets one monotonic constraint per feature; features past the list have none.
    pub fn with_monotonic_constraints(self, constraints: Vec<MonotonicConstraint>) -> (grower: TreeGrower)
        ensures
            grower == (TreeGrower { monotonic_constraints: constraints, ..self }),
    {
        TreeGrower { monotonic_constraints: constraints, ..self }
    }

    /// Sets which features may appear together.
    pub fn with_interaction_constraints(self, constraints: InteractionConstraints) -> (grower: TreeGrower)
        ensures
            grower == (TreeGrower { interaction_constraints: constraints, ..self }),
    {
        TreeGrower { interaction_constraints: constraints, ..self }
    }

    /// Sets the histogram backend.
    pub fn with_backend(self, backend_type: BackendType) -> (grower: TreeGrower)
        ensures
            grower == (TreeGrower { backend_type, ..self }),
    {
        TreeGrower { backend_type, ..self }
    }

    /// Sets how many histograms a graphics card builds at a time; 0 for one by one.
    pub fn with_gpu_batch_size(self, batch_size: usize) -> (grower: TreeGrower)
        ensures
            grower == (TreeGrower { gpu_batch_size: batch_size, ..self }),
    {
        TreeGrower { gpu_batch_size: batch_size, ..self }
    }

    /// Sets whether graphics cards use subgroups.
    pub fn with_gpu_subgroups(self, enabled: bool) -> (grower: TreeGrower)
        ensures
            grower == (TreeGrower { use_gpu_subgroups: enabled, ..self }),
    {
        TreeGrower { use_gpu_subgroups: enabled, ..self }
    }

    /// Sets whether eras have to agree on splits.
    pub fn with_era_splitting(self, enabled: bool) -> (grower: TreeGrower)
        ensures
            grower == (TreeGrower { era_splitting: enabled, ..self }),
    {
        TreeGrower { era_splitting: enabled, ..self }
    }

    /// Sets whether a second era validates splits.
    pub fn with_noise_pruning(self, enabled: bool) -> (grower: TreeGrower)
        ensures
            grower == (TreeGrower { noise_pruning: enabled, ..self }),
    {
        TreeGrower { noise_pruning: enabled, ..self }
    }

    /// Sets the validation gain at or below which a split is pruned.
    pub fn with_noise_pruning_threshold(self, threshold: F32) -> (grower: TreeGrower)
        ensures
            grower == (TreeGrower { noise_pruning_threshold: threshold, ..self }),
    {
        TreeGrower { noise_pruning_threshold: threshold, ..self }
    }

    /// Sets whether missing values are tried on both sides of a cut.
    pub fn with_missing_value_learning(self, enabled: bool) -> (grower: TreeGrower)
        ensures
            grower == (TreeGrower { use_missing_value_learning: enabled, ..self }),
    {
        TreeGrower { use_missing_value_learning: enabled, ..self }
    }
}

/// A buffer in which the first `n` values were written at their rows, one after
/// the other.
pub open spec fn stored(buffer: Seq<F32>, rows: Seq<usize>, values: Seq<F32>, n: nat) -> Seq<F32>
    decreases n,
{
    if n == 0 {
        buffer
    } else {
        stored(buffer, rows, values, (n - 1) as nat).update(rows[n - 1] as int, values[n - 1])
    }
}

/// Writes the gradient and the hessian of every listed row into the buffers that
/// hold those of all rows. `computed` holds them in the order of `rows`.
pub fn store_gradients(rows: &[usize], computed: &[(F32, F32)], gradients: &mut Vec<F32>, hessians: &mut Vec<F32>)
    requires
        computed@.len() == rows@.len(),
        old(gradients)@.len() == old(hessians)@.len(),
        forall|k: int| 0 <= k < rows@.len() ==> #[trigger] rows@[k] < old(gradients)@.len(),
    ensures
        final(gradients)@ == stored(
            old(gradients)@,
            rows@,
            computed@.map_values(|pair: (F32, F32)| pair.0),
            rows@.len(),
        ),
        final(hessians)@ == stored(
            old(hessians)@,
            rows@,
            computed@.map_values(|pair: (F32, F32)| pair.1),
            rows@.len(),
        ),
{
    let count: usize = rows.len();
    let ghost first = computed@.map_values(|pair: (F32, F32)| pair.0);
    let ghost second = computed@.map_values(|pair: (F32, F32)| pair.1);
    let mut k: usize = 0;
    while k < count
        invariant
            k <= count == rows@.len(),
            computed@.len() == count,
            gradients@.len() == hessians@.len() == old(gradients)@.len(),
            forall|j: int| 0 <= j < count ==> #[trigger] rows@[j] < gradients@.len(),
            first == computed@.map_values(|pair: (F32, F32)| pair.0),
            second == computed@.map_values(|pair: (F32, F32)| pair.1),
            gradients@ == stored(old(gradients)@, rows@, first, k as nat),
            hessians@ == stored(old(hessians)@, rows@, second, k as nat),
        decreases count - k,
    {
        let pair: (F32, F32) = computed[k];
        assert(rows@[k as int] < gradients@.len());
        gradients.set(rows[k], pair.0);
        hessians.set(rows[k], pair.1);
        k = k + 1;
    }
}

/// Where the values follow from their rows, the buffer then holds the value of
/// every listed row, and what it held of every other one.
pub proof fn law_listed_rows_are_stored(
    buffer: Seq<F32>,
    rows: Seq<usize>,
    values: Seq<F32>,
    value_of: spec_fn(usize) -> F32,
    n: nat,
)
    requires
        n <= rows.len() == values.len(),
        forall|k: int| 0 <= k < rows.len() ==> #[trigger] rows[k] < buffer.len(),
        forall|k: int| 0 <= k < rows.len() ==> #[trigger] values[k] == value_of(rows[k]),
    ensures
        stored(buffer, rows, values, n).len() == buffer.len(),
        forall|row: usize|
            row < buffer.len() ==> #[trigger] stored(buffer, rows, values, n)[row as int] == if rows.take(
                n as int,
            ).contains(row) {
                value_of(row)
            } else {
                buffer[row as int]
            },
    decreases n,
{
    if n > 0 {
        let before = stored(buffer, rows, values, (n - 1) as nat);
        let last = rows[n - 1];
        law_listed_rows_are_stored(buffer, rows, values, value_of, (n - 1) as nat);
        assert forall|row: usize| row < buffer.len() implies #[trigger] stored(buffer, rows, values, n)[row as int]
            == if rows.take(n as int).contains(row) {
            value_of(row)
        } else {
            buffer[row as int]
        } by {
            assert(values[n - 1] == value_of(last));
            let shorter = rows.take(n - 1);
            let longer = rows.take(n as int);
            assert(longer[n - 1] == last);
            if shorter.contains(row) {
                let k = choose|k: int| 0 <= k < shorter.len() && shorter[k] == row;
                assert(longer[k] == row);
            } else if row != last && longer.contains(row) {
                let k = choose|k: int| 0 <= k < longer.len() && longer[k] == row;
                assert(shorter[k] == row);
            }
            assert(before[row as int] == if shorter.contains(row) {
                value_of(row)
            } else {
                buffer[row as int]
            });
        }
    }
}

} // verus!
