//! Choosing splits: constraints on features, the candidates of one feature,
//! and the best candidate of a node.

use crate::float::{F32, F64, F32_NEG_INFINITY, F32_ONE, F32_ZERO, F64_ZERO};
use crate::seqs::{ascending_where, lemma_ascending_where};
use crate::tree::split_laws::law_scalar_split_keeps_the_limits;
use vstd::prelude::*;

verus! {

/// In which direction predictions may move with a feature.
#[derive(Debug, Clone, Copy, PartialEq, Eq, Structural)]
pub enum MonotonicConstraint {
    /// No constraint.
    Unconstrained,
    /// Predictions must not fall as the feature grows.
    Increasing,
    /// Predictions must not rise as the feature grows.
    Decreasing,
}

/// Which features may appear together on a path of a tree.
///
/// Features of one group may; features that share no group may not; features
/// without a group may appear with any other. A feature may be in several
/// groups.
#[derive(Debug)]
pub struct InteractionConstraints {
    groups: Vec<Vec<usize>>,
    num_features: usize,
}

impl InteractionConstraints {
    /// The groups as they were given.
    pub closed spec fn group_list(&self) -> Seq<Seq<usize>> {
        self.groups@.map_values(|group: Vec<usize>| group@)
    }

    /// How many features the groups were given for.
    pub closed spec fn known_features(&self) -> nat {
        self.num_features as nat
    }

    /// Whether group `g` holds a feature. Features that were not known are in
    /// no group.
    pub open spec fn in_group(&self, g: int, feature: usize) -> bool {
        &&& 0 <= g < self.group_list().len()
        &&& feature < self.known_features()
        &&& self.group_list()[g].contains(feature)
    }

    /// Whether a feature is in a group.
    pub open spec fn has_group(&self, feature: usize) -> bool {
        exists|g: int| #[trigger] self.in_group(g, feature)
    }

    /// Whether some group holds both features.
    pub open spec fn shares_group(&self, a: usize, b: usize) -> bool {
        exists|g: int| #[trigger] self.in_group(g, a) && self.in_group(g, b)
    }

    /// Whether a feature may be used below a path that uses `ancestors`: it is
    /// in no group, no ancestor is in a group, or some group holds both it and
    /// an ancestor.
    pub open spec fn allows(&self, ancestors: Seq<usize>, feature: usize) -> bool {
        ||| !self.has_group(feature)
        ||| forall|i: int| 0 <= i < ancestors.len() ==> !self.has_group(#[trigger] ancestors[i])
        ||| exists|i: int| 0 <= i < ancestors.len() && self.shares_group(feature, #[trigger] ancestors[i])
    }

    /// Whether no feature is in two groups.
    pub open spec fn disjoint(&self) -> bool {
        forall|g: int, h: int, feature: usize|
            #[trigger] self.in_group(g, feature) && #[trigger] self.in_group(h, feature) ==> g == h
    }

    /// No constraints: all features may appear together.
    pub fn new() -> (constraints: InteractionConstraints)
        ensures
            constraints.group_list() == Seq::<Seq<usize>>::empty(),
            constraints.known_features() == 0,
    {
        let constraints = InteractionConstraints { groups: Vec::new(), num_features: 0 };
        assert(constraints.group_list() =~= Seq::empty());
        constraints
    }

    /// Constraints from groups of feature indices. Indices past the number of
    /// features are ignored.
    pub fn from_groups(groups: Vec<Vec<usize>>, num_features: usize) -> (constraints: InteractionConstraints)
        ensures
            constraints.group_list() == groups@.map_values(|group: Vec<usize>| group@),
            constraints.known_features() == num_features,
    {
        InteractionConstraints { groups, num_features }
    }

    /// Whether there are no groups.
    pub fn is_empty(&self) -> (empty: bool)
        ensures
            empty == (self.group_list().len() == 0),
    {
        self.groups.len() == 0
    }

    /// The groups as they were given.
    pub fn groups(&self) -> (groups: &[Vec<usize>])
        ensures
            groups@.map_values(|group: Vec<usize>| group@) == self.group_list(),
    {
        self.groups.as_slice()
    }

    /// Whether group `g` holds a feature.
    fn holds(&self, g: usize, feature: usize) -> (held: bool)
        requires
            g < self.group_list().len(),
        ensures
            held == self.in_group(g as int, feature),
    {
        if feature >= self.num_features {
            return false;
        }
        let group: &Vec<usize> = &self.groups[g];
        assert(self.group_list()[g as int] == group@);
        let size: usize = group.len();
        let mut k: usize = 0;
        while k < size
            invariant
                k <= size == group@.len(),
                g < self.group_list().len(),
                self.group_list()[g as int] == group@,
                feature < self.known_features(),
                forall|i: int| 0 <= i < k ==> #[trigger] group@[i] != feature,
            decreases size - k,
        {
            if group[k] == feature {
                assert(group@[k as int] == feature);
                return true;
            }
            k = k + 1;
        }
        false
    }

    /// Which groups hold one of some features.
    fn groups_of(&self, features: &[usize]) -> (used: Vec<bool>)
        ensures
            used@.len() == self.group_list().len(),
            forall|g: int|
                0 <= g < used@.len() ==> #[trigger] used@[g] == exists|i: int|
                    0 <= i < features@.len() && self.in_group(g, #[trigger] features@[i]),
    {
        let count: usize = self.groups.len();
        let steps: usize = features.len();
        let mut used: Vec<bool> = Vec::new();
        let mut g: usize = 0;
        while g < count
            invariant
                g <= count == self.group_list().len(),
                steps == features@.len(),
                used@.len() == g,
                forall|h: int|
                    0 <= h < g ==> #[trigger] used@[h] == exists|i: int|
                        0 <= i < features@.len() && self.in_group(h, #[trigger] features@[i]),
            decreases count - g,
        {
            let mut found: bool = false;
            let mut k: usize = 0;
            while k < steps
                invariant
                    g < count == self.group_list().len(),
                    k <= steps == features@.len(),
                    found == exists|i: int| 0 <= i < k && self.in_group(g as int, #[trigger] features@[i]),
                decreases steps - k,
            {
                let ghost before = found;
                let here: bool = self.holds(g, features[k]);
                proof {
                    if before {
                        let i = choose|i: int| 0 <= i < k && self.in_group(g as int, #[trigger] features@[i]);
                        assert(0 <= i < k + 1 && self.in_group(g as int, features@[i]));
                    }
                    if here {
                        assert(self.in_group(g as int, features@[k as int]));
                    }
                }
                found = found || here;
                k = k + 1;
            }
            used.push(found);
            g = g + 1;
        }
        used
    }

    /// Whether a feature is allowed below features whose groups are `used`.
    fn permits(&self, used: &Vec<bool>, any_used: bool, feature: usize) -> (permitted: bool)
        requires
            used@.len() == self.group_list().len(),
        ensures
            permitted == (!any_used || !self.has_group(feature) || exists|g: int|
                #[trigger] self.in_group(g, feature) && used@[g]),
    {
        let count: usize = self.groups.len();
        let mut grouped: bool = false;
        let mut g: usize = 0;
        while g < count
            invariant
                g <= count == self.group_list().len() == used@.len(),
                grouped == exists|h: int| 0 <= h < g && #[trigger] self.in_group(h, feature),
                forall|h: int| 0 <= h < g && #[trigger] self.in_group(h, feature) ==> !used@[h],
            decreases count - g,
        {
            let ghost before = grouped;
            if self.holds(g, feature) {
                assert(self.in_group(g as int, feature));
                if used[g] {
                    return true;
                }
                grouped = true;
            }
            proof {
                if before {
                    let h = choose|h: int| 0 <= h < g && #[trigger] self.in_group(h, feature);
                    assert(0 <= h < g + 1 && self.in_group(h, feature));
                }
            }
            g = g + 1;
        }
        assert(grouped == self.has_group(feature));
        !grouped || !any_used
    }

    /// The features below `num_features` that may be used below a path that
    /// uses `ancestor_features`, in ascending order.
    pub fn allowed_features(&self, ancestor_features: &[usize], num_features: usize) -> (allowed: Vec<usize>)
        ensures
            allowed@ == ascending_where(num_features as nat, |f: int| self.allows(ancestor_features@, f as usize)),
            forall|f: usize|
                #[trigger] allowed@.contains(f) <==> f < num_features && self.allows(ancestor_features@, f),
    {
        let used: Vec<bool> = self.groups_of(ancestor_features);
        let count: usize = used.len();
        let mut any: bool = false;
        let mut g: usize = 0;
        while g < count
            invariant
                g <= count == used@.len(),
                any == exists|h: int| 0 <= h < g && #[trigger] used@[h],
            decreases count - g,
        {
            let ghost before = any;
            proof {
                if before {
                    let h = choose|h: int| 0 <= h < g && #[trigger] used@[h];
                    assert(0 <= h < g + 1 && used@[h]);
                }
            }
            any = any || used[g];
            g = g + 1;
        }
        let mut allowed: Vec<usize> = Vec::new();
        let ghost keep = |f: int| self.allows(ancestor_features@, f as usize);
        let mut f: usize = 0;
        while f < num_features
            invariant
                f <= num_features,
                used@.len() == self.group_list().len(),
                any == exists|h: int| 0 <= h < used@.len() && #[trigger] used@[h],
                forall|g: int|
                    0 <= g < used@.len() ==> #[trigger] used@[g] == exists|i: int|
                        0 <= i < ancestor_features@.len() && self.in_group(g, #[trigger] ancestor_features@[i]),
                keep == (|f: int| self.allows(ancestor_features@, f as usize)),
                allowed@ == ascending_where(f as nat, keep),
            decreases num_features - f,
        {
            let permitted: bool = self.permits(&used, any, f);
            proof {
                lemma_used_groups_decide(*self, ancestor_features@, used@, any, f);
            }
            assert(permitted == keep(f as int));
            if permitted {
                allowed.push(f);
            }
            f = f + 1;
        }
        proof {
            lemma_ascending_where(num_features as nat, keep);
        }
        allowed
    }
}

/// Which groups the ancestors use decides what is allowed below them.
proof fn lemma_used_groups_decide(
    constraints: InteractionConstraints,
    ancestors: Seq<usize>,
    used: Seq<bool>,
    any: bool,
    feature: usize,
)
    requires
        used.len() == constraints.group_list().len(),
        any == exists|h: int| 0 <= h < used.len() && #[trigger] used[h],
        forall|g: int|
            0 <= g < used.len() ==> #[trigger] used[g] == exists|i: int|
                0 <= i < ancestors.len() && constraints.in_group(g, #[trigger] ancestors[i]),
    ensures
        constraints.allows(ancestors, feature) == (!any || !constraints.has_group(feature) || exists|g: int|
            #[trigger] constraints.in_group(g, feature) && used[g]),
{
    if any {
        let g = choose|g: int| 0 <= g < used.len() && #[trigger] used[g];
        let i = choose|i: int| 0 <= i < ancestors.len() && constraints.in_group(g, #[trigger] ancestors[i]);
        assert(constraints.has_group(ancestors[i]));
    } else {
        assert forall|i: int| 0 <= i < ancestors.len() implies !constraints.has_group(#[trigger] ancestors[i]) by {
            if constraints.has_group(ancestors[i]) {
                let g = choose|g: int| #[trigger] constraints.in_group(g, ancestors[i]);
                assert(used[g]);
            }
        }
    }
    if exists|g: int| #[trigger] constraints.in_group(g, feature) && used[g] {
        let g = choose|g: int| #[trigger] constraints.in_group(g, feature) && used[g];
        let i = choose|i: int| 0 <= i < ancestors.len() && constraints.in_group(g, #[trigger] ancestors[i]);
        assert(constraints.in_group(g, ancestors[i]));
        assert(constraints.shares_group(feature, ancestors[i]));
    }
    if exists|i: int| 0 <= i < ancestors.len() && constraints.shares_group(feature, #[trigger] ancestors[i]) {
        let i = choose|i: int| 0 <= i < ancestors.len() && constraints.shares_group(feature, #[trigger] ancestors[i]);
        let g = choose|g: int|
            #[trigger] constraints.in_group(g, feature) && constraints.in_group(g, ancestors[i]);
        assert(used[g]);
    }
}

/// Whether the feature at step `k` of a path was allowed below the ones before.
pub open spec fn step_allowed(constraints: InteractionConstraints, path: Seq<usize>, k: int) -> bool {
    constraints.allows(path.take(k), path[k])
}

/// Whether every feature of a path was allowed below the ones before it.
pub open spec fn path_allowed(constraints: InteractionConstraints, path: Seq<usize>) -> bool {
    forall|k: int| 0 <= k < path.len() ==> #[trigger] step_allowed(constraints, path, k)
}

/// A path that is continued with an allowed feature stays one on which every
/// feature was allowed.
pub proof fn lemma_path_continues(constraints: InteractionConstraints, path: Seq<usize>, feature: usize)
    requires
        path_allowed(constraints, path),
        constraints.allows(path, feature),
    ensures
        path_allowed(constraints, path.push(feature)),
{
    let longer = path.push(feature);
    assert forall|k: int| 0 <= k < longer.len() implies #[trigger] step_allowed(constraints, longer, k) by {
        if k < path.len() {
            assert(step_allowed(constraints, path, k));
            assert(longer.take(k) =~= path.take(k));
        } else {
            assert(longer.take(k) =~= path);
        }
    }
}

/// On a path on which every feature was allowed, a feature of a group that is
/// not the first such feature shares a group with one above it.
pub proof fn law_path_keeps_to_shared_groups(constraints: InteractionConstraints, path: Seq<usize>, i: int, j: int)
    requires
        path_allowed(constraints, path),
        0 <= i < j < path.len(),
        constraints.has_group(path[i]),
        constraints.has_group(path[j]),
    ensures
        exists|k: int| 0 <= k < j && constraints.shares_group(path[j], #[trigger] path[k]),
{
    let before = path.take(j);
    assert(step_allowed(constraints, path, j));
    assert(before[i] == path[i]);
    let k = choose|k: int| 0 <= k < before.len() && constraints.shares_group(path[j], #[trigger] before[k]);
    assert(before[k] == path[k]);
}

/// Features of different groups never meet: where no feature is in two groups,
/// any two features of a path that are in groups share one.
pub proof fn law_path_stays_in_one_group(constraints: InteractionConstraints, path: Seq<usize>, i: int, j: int)
    requires
        path_allowed(constraints, path),
        constraints.disjoint(),
        0 <= i < path.len(),
        0 <= j < path.len(),
        constraints.has_group(path[i]),
        constraints.has_group(path[j]),
    ensures
        constraints.shares_group(path[i], path[j]),
{
    let first = choose|g: int| #[trigger] constraints.in_group(g, path[i]);
    let second = choose|g: int| #[trigger] constraints.in_group(g, path[j]);
    if i <= j {
        lemma_one_group(constraints, path, i, j, first, second);
    } else {
        lemma_one_group(constraints, path, j, i, second, first);
    }
    assert(constraints.in_group(first, path[i]) && constraints.in_group(first, path[j]));
}

proof fn lemma_one_group(constraints: InteractionConstraints, path: Seq<usize>, i: int, j: int, g: int, h: int)
    requires
        path_allowed(constraints, path),
        constraints.disjoint(),
        0 <= i <= j < path.len(),
        constraints.in_group(g, path[i]),
        constraints.in_group(h, path[j]),
    ensures
        g == h,
    decreases j,
{
    if i < j {
        assert(constraints.has_group(path[i]) && constraints.has_group(path[j]));
        law_path_keeps_to_shared_groups(constraints, path, i, j);
        let k = choose|k: int| 0 <= k < j && constraints.shares_group(path[j], #[trigger] path[k]);
        let shared = choose|s: int| #[trigger] constraints.in_group(s, path[j]) && constraints.in_group(s, path[k]);
        assert(constraints.in_group(shared, path[k]));
        assert(shared == h);
        if i <= k {
            lemma_one_group(constraints, path, i, k, g, shared);
        } else {
            lemma_one_group(constraints, path, k, i, shared, g);
        }
    }
}

/// A split of a node: where it cuts and what lies on either side.
#[derive(Debug, Clone, Copy, PartialEq, Eq, Structural)]
pub struct SplitInfo {
    /// Feature index.
    pub feature_idx: usize,
    /// Rows whose bin is at most this go left.
    pub bin_threshold: u8,
    /// Rows whose raw value is at most this go left.
    pub split_value: F64,
    /// How much the split gains; larger is better.
    pub gain: F32,
    /// Gradient sum on the left.
    pub left_gradient: F32,
    /// Hessian sum on the left.
    pub left_hessian: F32,
    /// Number of rows on the left.
    pub left_count: u32,
    /// Gradient sum on the right.
    pub right_gradient: F32,
    /// Hessian sum on the right.
    pub right_hessian: F32,
    /// Number of rows on the right.
    pub right_count: u32,
    /// Whether missing values (bin 0) go left.
    pub default_left: bool,
}

/// The split that every other split beats.
pub open spec fn no_split(feature_idx: usize) -> SplitInfo {
    SplitInfo {
        feature_idx,
        bin_threshold: 0,
        split_value: F64 { bits: F64_ZERO },
        gain: F32 { bits: F32_NEG_INFINITY },
        left_gradient: F32 { bits: F32_ZERO },
        left_hessian: F32 { bits: F32_ZERO },
        left_count: 0,
        right_gradient: F32 { bits: F32_ZERO },
        right_hessian: F32 { bits: F32_ZERO },
        right_count: 0,
        default_left: true,
    }
}

impl Default for SplitInfo {
    fn default() -> (split: Self)
        ensures
            split == no_split(0),
    {
        empty_split(0)
    }
}

fn empty_split(feature_idx: usize) -> (split: SplitInfo)
    ensures
        split == no_split(feature_idx),
{
    SplitInfo {
        feature_idx,
        bin_threshold: 0,
        split_value: F64 { bits: F64_ZERO },
        gain: F32 { bits: F32_NEG_INFINITY },
        left_gradient: F32 { bits: F32_ZERO },
        left_hessian: F32 { bits: F32_ZERO },
        left_count: 0,
        right_gradient: F32 { bits: F32_ZERO },
        right_hessian: F32 { bits: F32_ZERO },
        right_count: 0,
        default_left: true,
    }
}

impl SplitInfo {
    /// Whether the split has a gain and rows on both sides.
    pub open spec fn valid(&self) -> bool {
        &&& (F32 { bits: F32_NEG_INFINITY }).less(self.gain)
        &&& self.left_count > 0
        &&& self.right_count > 0
    }

    /// Whether the split has a gain and rows on both sides.
    pub fn is_valid(&self) -> (valid: bool)
        ensures
            valid == self.valid(),
    {
        let floor: F32 = F32 { bits: F32_NEG_INFINITY };
        floor.lt(self.gain) && self.left_count > 0 && self.right_count > 0
    }
}

/// The better of a split and a candidate: the candidate only if its gain is
/// strictly larger.
pub open spec fn better(best: SplitInfo, candidate: Option<SplitInfo>) -> SplitInfo {
    match candidate {
        Some(split) => if best.gain.less(split.gain) {
            split
        } else {
            best
        },
        None => best,
    }
}

/// The best of the first `n` candidates, starting from `start`.
pub open spec fn best_of(start: SplitInfo, candidates: Seq<Option<SplitInfo>>, n: nat) -> SplitInfo
    decreases n,
{
    if n == 0 {
        start
    } else {
        better(best_of(start, candidates, (n - 1) as nat), candidates[n - 1])
    }
}

/// A split if it is valid.
pub open spec fn if_valid(split: SplitInfo) -> Option<SplitInfo> {
    if split.valid() {
        Some(split)
    } else {
        None
    }
}

/// The best candidate is the first one of the largest gain: it is the start or
/// one of the candidates, none has a larger gain, and those before it have
/// smaller ones.
pub proof fn law_best_is_first_maximum(start: SplitInfo, candidates: Seq<Option<SplitInfo>>, n: nat)
    requires
        n <= candidates.len(),
        !start.gain.nan(),
    ensures
        ({
            let best = best_of(start, candidates, n);
            &&& !best.gain.nan()
            &&& start.gain.at_most(best.gain)
            &&& forall|i: int|
                0 <= i < n && (#[trigger] candidates[i]) is Some ==> !best.gain.less(candidates[i]->0.gain)
            &&& best == start || exists|k: int|
                0 <= k < n && #[trigger] candidates[k] == Some(best) && start.gain.less(best.gain) && forall|i: int|
                    0 <= i < k && (#[trigger] candidates[i]) is Some && !candidates[i]->0.gain.nan()
                        ==> candidates[i]->0.gain.less(best.gain)
        }),
    decreases n,
{
    if n > 0 {
        let before = best_of(start, candidates, (n - 1) as nat);
        let best = best_of(start, candidates, n);
        law_best_is_first_maximum(start, candidates, (n - 1) as nat);
        let newest = candidates[n - 1];
        if newest is Some && before.gain.less(newest->0.gain) {
            assert(candidates[n - 1] == Some(best));
            assert forall|i: int|
                0 <= i < n - 1 && (#[trigger] candidates[i]) is Some
                    && !candidates[i]->0.gain.nan() implies candidates[i]->0.gain.less(best.gain) by {
                assert(!before.gain.less(candidates[i]->0.gain));
            }
        } else if before != start {
            let k = choose|k: int|
                0 <= k < n - 1 && #[trigger] candidates[k] == Some(before) && start.gain.less(before.gain)
                    && forall|i: int|
                    0 <= i < k && (#[trigger] candidates[i]) is Some && !candidates[i]->0.gain.nan()
                        ==> candidates[i]->0.gain.less(before.gain);
            assert(0 <= k < n && candidates[k] == Some(best));
        }
    }
}

/// What the two sides of a cut come to: sums, leaf weights and the gain, as
/// computed from the histogram.
#[derive(Debug, Clone, Copy, PartialEq, Eq, Structural)]
pub struct PartitionEval {
    /// Gradient sum on the left.
    pub left_gradient: F32,
    /// Hessian sum on the left.
    pub left_hessian: F32,
    /// Gradient sum on the right.
    pub right_gradient: F32,
    /// Hessian sum on the right.
    pub right_hessian: F32,
    /// Leaf weight that the left side would get.
    pub left_weight: F32,
    /// Leaf weight that the right side would get.
    pub right_weight: F32,
    /// The gain of the cut.
    pub gain: F32,
}

/// The sum of the first `n` counts.
pub open spec fn count_sum(counts: Seq<u32>, n: nat) -> nat
    decreases n,
{
    if n == 0 {
        0
    } else {
        count_sum(counts, (n - 1) as nat) + counts[n - 1] as nat
    }
}

/// Sums of counts only grow.
pub proof fn lemma_count_sum_grows(counts: Seq<u32>, a: nat, b: nat)
    requires
        a <= b,
    ensures
        count_sum(counts, a) <= count_sum(counts, b),
    decreases b,
{
    if a < b {
        lemma_count_sum_grows(counts, a, (b - 1) as nat);
    }
}

/// Picks splits: the rules that a cut has to meet, and which of the cuts that
/// meet them is taken.
#[derive(Debug)]
pub struct SplitFinder {
    /// L2 regularization.
    pub lambda: F32,
    /// Fewest rows that a side may have.
    pub min_samples_leaf: usize,
    /// Smallest hessian sum that a side may have.
    pub min_hessian_leaf: F32,
    /// Weight of the entropy bonus on balanced cuts.
    pub entropy_weight: F32,
    /// Smallest gain of a split that is taken.
    pub min_gain: F32,
    /// One constraint per feature; features past the end have none.
    pub monotonic_constraints: Vec<MonotonicConstraint>,
    /// Whether missing values are tried on both sides of a cut.
    pub use_missing_value_learning: bool,
    /// Whether a second era validates the splits found on the first.
    pub noise_pruning: bool,
    /// A split is pruned when its validation gain is at most this.
    pub noise_pruning_threshold: F32,
}

impl SplitFinder {
    /// The constraint of a feature.
    pub open spec fn constraint(&self, feature_idx: usize) -> MonotonicConstraint {
        if feature_idx < self.monotonic_constraints@.len() {
            self.monotonic_constraints@[feature_idx as int]
        } else {
            MonotonicConstraint::Unconstrained
        }
    }

    /// Whether leaf weights on the two sides keep to a feature's constraint.
    pub open spec fn keeps_direction(&self, feature_idx: usize, left_weight: F32, right_weight: F32) -> bool {
        match self.constraint(feature_idx) {
            MonotonicConstraint::Unconstrained => true,
            MonotonicConstraint::Increasing => left_weight.at_most(right_weight),
            MonotonicConstraint::Decreasing => right_weight.at_most(left_weight),
        }
    }

    /// Whether both sides are large enough for a leaf.
    pub open spec fn sides_large_enough(&self, left: nat, right: nat, eval: PartitionEval) -> bool {
        &&& left >= self.min_samples_leaf
        &&& right >= self.min_samples_leaf
        &&& !eval.left_hessian.less(self.min_hessian_leaf)
        &&& !eval.right_hessian.less(self.min_hessian_leaf)
    }

    /// The split behind bin `bin`, with missing values on the left or on the
    /// right; `None` where the rules forbid it.
    pub open spec fn cut(
        &self,
        feature_idx: usize,
        counts: Seq<u32>,
        total: u32,
        evals: Seq<PartitionEval>,
        bin: int,
        missing_left: bool,
    ) -> Option<SplitInfo> {
        let seen = count_sum(counts, (bin + 1) as nat);
        let left = if missing_left {
            seen as int
        } else {
            seen - counts[0]
        };
        let eval = evals[bin];
        if counts[bin] == 0 || (!missing_left && !self.use_missing_value_learning) {
            None
        } else if self.sides_large_enough(left as nat, (total - left) as nat, eval) && self.keeps_direction(
            feature_idx,
            eval.left_weight,
            eval.right_weight,
        ) {
            Some(
                SplitInfo {
                    feature_idx,
                    bin_threshold: bin as u8,
                    split_value: F64 { bits: F64_ZERO },
                    gain: eval.gain,
                    left_gradient: eval.left_gradient,
                    left_hessian: eval.left_hessian,
                    left_count: left as u32,
                    right_gradient: eval.right_gradient,
                    right_hessian: eval.right_hessian,
                    right_count: (total - left) as u32,
                    default_left: missing_left,
                },
            )
        } else {
            None
        }
    }

    /// The cuts of a feature in the order in which they are tried: bin by bin,
    /// with missing values first on the left, then on the right.
    pub open spec fn cuts(
        &self,
        feature_idx: usize,
        counts: Seq<u32>,
        total: u32,
        missing_left: Seq<PartitionEval>,
        missing_right: Seq<PartitionEval>,
    ) -> Seq<Option<SplitInfo>> {
        Seq::new(
            2 * counts.len(),
            |i: int|
                if i % 2 == 0 {
                    self.cut(feature_idx, counts, total, missing_left, i / 2, true)
                } else {
                    self.cut(feature_idx, counts, total, missing_right, i / 2, false)
                },
        )
    }

    /// The best cut of a feature: the first of the largest gain.
    pub open spec fn scalar_split(
        &self,
        feature_idx: usize,
        counts: Seq<u32>,
        total: u32,
        missing_left: Seq<PartitionEval>,
        missing_right: Seq<PartitionEval>,
    ) -> Option<SplitInfo> {
        if_valid(
            best_of(
                no_split(feature_idx),
                self.cuts(feature_idx, counts, total, missing_left, missing_right),
                2 * counts.len(),
            ),
        )
    }

    /// The constraint of a feature; features past the list have none.
    pub fn get_constraint(&self, feature_idx: usize) -> (constraint: MonotonicConstraint)
        ensures
            constraint == self.constraint(feature_idx),
    {
        if feature_idx < self.monotonic_constraints.len() {
            self.monotonic_constraints[feature_idx]
        } else {
            MonotonicConstraint::Unconstrained
        }
    }

    /// Whether the vectorised search can serve a feature: there is no entropy
    /// bonus and no constraint, and missing values stay on the left.
    pub open spec fn vectorised(&self, feature_idx: usize) -> bool {
        &&& self.entropy_weight.same(F32 { bits: F32_ZERO })
        &&& self.constraint(feature_idx) == MonotonicConstraint::Unconstrained
        &&& !self.use_missing_value_learning
    }

    /// Whether the vectorised search can serve a feature: there is no entropy
    /// bonus and no constraint, and missing values stay on the left.
    pub fn can_use_simd(&self, feature_idx: usize) -> (can: bool)
        ensures
            can == self.vectorised(feature_idx),
    {
        let zero: F32 = F32 { bits: F32_ZERO };
        self.entropy_weight.eq_value(zero) && self.get_constraint(feature_idx) == MonotonicConstraint::Unconstrained
            && !self.use_missing_value_learning
    }

    /// Whether leaf weights on the two sides keep to a feature's constraint.
    pub fn satisfies_monotonic_constraint(
        &self,
        feature_idx: usize,
        left_weight: F32,
        right_weight: F32,
    ) -> (satisfied: bool)
        ensures
            satisfied == self.keeps_direction(feature_idx, left_weight, right_weight),
    {
        match self.get_constraint(feature_idx) {
            MonotonicConstraint::Unconstrained => true,
            MonotonicConstraint::Increasing => left_weight.le(right_weight),
            MonotonicConstraint::Decreasing => right_weight.le(left_weight),
        }
    }

    pub(crate) fn admits_sides(&self, feature_idx: usize, left: u32, right: u32, eval: PartitionEval) -> (admitted: bool)
        ensures
            admitted == (self.sides_large_enough(left as nat, right as nat, eval) && self.keeps_direction(
                feature_idx,
                eval.left_weight,
                eval.right_weight,
            )),
    {
        (left as u64) >= (self.min_samples_leaf as u64) && (right as u64) >= (self.min_samples_leaf as u64)
            && !eval.left_hessian.lt(self.min_hessian_leaf) && !eval.right_hessian.lt(self.min_hessian_leaf)
            && self.satisfies_monotonic_constraint(feature_idx, eval.left_weight, eval.right_weight)
    }

    /// The best cut of one feature: the first of the largest gain among those
    /// that keep both sides large enough and keep to the feature's constraint.
    ///
    /// `counts` holds the rows per bin. `missing_left` and `missing_right` hold
    /// what a cut behind each bin comes to with missing values (bin 0) on the
    /// left and on the right; the second is read only when missing values are
    /// tried on both sides.
    pub fn find_best_split_for_feature_scalar(
        &self,
        feature_idx: usize,
        counts: &[u32],
        total_count: u32,
        missing_left: &[PartitionEval],
        missing_right: &[PartitionEval],
    ) -> (split: Option<SplitInfo>)
        requires
            counts@.len() <= 256,
            missing_left@.len() == counts@.len(),
            self.use_missing_value_learning ==> missing_right@.len() == counts@.len(),
            count_sum(counts@, counts@.len()) <= total_count,
        ensures
            split == self.scalar_split(feature_idx, counts@, total_count, missing_left@, missing_right@),
            split matches Some(found) ==> found.feature_idx == feature_idx,
            split matches Some(found) ==> {
                &&& found.left_count >= self.min_samples_leaf
                &&& found.right_count >= self.min_samples_leaf
                &&& !found.left_hessian.less(self.min_hessian_leaf)
                &&& !found.right_hessian.less(self.min_hessian_leaf)
            },
    {
        let bins: usize = counts.len();
        let ghost cuts = self.cuts(feature_idx, counts@, total_count, missing_left@, missing_right@);
        let mut best: SplitInfo = empty_split(feature_idx);
        let mut seen: u32 = 0;
        let mut bin: usize = 0;
        while bin < bins
            invariant
                bin <= bins == counts@.len(),
                bins <= 256,
                missing_left@.len() == bins,
                self.use_missing_value_learning ==> missing_right@.len() == bins,
                count_sum(counts@, bins as nat) <= total_count,
                seen == count_sum(counts@, bin as nat),
                cuts == self.cuts(feature_idx, counts@, total_count, missing_left@, missing_right@),
                best == best_of(no_split(feature_idx), cuts, 2 * bin as nat),
            decreases bins - bin,
        {
            let ghost even = 2 * bin as int;
            assert(even % 2 == 0 && even / 2 == bin);
            assert((even + 1) % 2 == 1 && (even + 1) / 2 == bin);
            assert(cuts[even] == self.cut(feature_idx, counts@, total_count, missing_left@, bin as int, true));
            assert(cuts[even + 1] == self.cut(feature_idx, counts@, total_count, missing_right@, bin as int, false));
            proof {
                lemma_count_sum_grows(counts@, (bin + 1) as nat, bins as nat);
                lemma_count_sum_grows(counts@, 1, (bin + 1) as nat);
                assert(count_sum(counts@, 0) == 0);
            }
            if counts[bin] > 0 {
                seen = seen + counts[bin];
                let eval: PartitionEval = missing_left[bin];
                if self.admits_sides(feature_idx, seen, total_count - seen, eval) && best.gain.lt(eval.gain) {
                    best = split_from(feature_idx, bin as u8, seen, total_count - seen, eval, true);
                }
                assert(best == better(best_of(no_split(feature_idx), cuts, even as nat), cuts[even]));
                assert(best == best_of(no_split(feature_idx), cuts, (even + 1) as nat));
                if self.use_missing_value_learning {
                    let left: u32 = seen - counts[0];
                    let right: u32 = total_count - left;
                    let eval: PartitionEval = missing_right[bin];
                    if self.admits_sides(feature_idx, left, right, eval) && best.gain.lt(eval.gain) {
                        best = split_from(feature_idx, bin as u8, left, right, eval, false);
                    }
                }
                assert(best == best_of(no_split(feature_idx), cuts, (even + 2) as nat));
            } else {
                assert(cuts[even] is None && cuts[even + 1] is None);
                assert(best == best_of(no_split(feature_idx), cuts, (even + 1) as nat));
                assert(best == best_of(no_split(feature_idx), cuts, (even + 2) as nat));
            }
            bin = bin + 1;
        }
        proof {
            lemma_best_keeps_feature(no_split(feature_idx), cuts, 2 * bins as nat, feature_idx);
            law_scalar_split_keeps_the_limits(
                *self,
                feature_idx,
                counts@,
                total_count,
                missing_left@,
                missing_right@,
            );
        }
        if best.is_valid() {
            Some(best)
        } else {
            None
        }
    }
}

/// The best of candidates of one feature is of that feature.
pub proof fn lemma_best_keeps_feature(start: SplitInfo, candidates: Seq<Option<SplitInfo>>, n: nat, feature: usize)
    requires
        n <= candidates.len(),
        start.feature_idx == feature,
        forall|i: int| 0 <= i < n && (#[trigger] candidates[i]) is Some ==> candidates[i]->0.feature_idx == feature,
    ensures
        best_of(start, candidates, n).feature_idx == feature,
    decreases n,
{
    if n > 0 {
        lemma_best_keeps_feature(start, candidates, (n - 1) as nat, feature);
    }
}

fn split_from(
    feature_idx: usize,
    bin: u8,
    left_count: u32,
    right_count: u32,
    eval: PartitionEval,
    default_left: bool,
) -> (split: SplitInfo)
    ensures
        split == (SplitInfo {
            feature_idx,
            bin_threshold: bin,
            split_value: F64 { bits: F64_ZERO },
            gain: eval.gain,
            left_gradient: eval.left_gradient,
            left_hessian: eval.left_hessian,
            left_count,
            right_gradient: eval.right_gradient,
            right_hessian: eval.right_hessian,
            right_count,
            default_left,
        }),
{
    SplitInfo {
        feature_idx,
        bin_threshold: bin,
        split_value: F64 { bits: F64_ZERO },
        gain: eval.gain,
        left_gradient: eval.left_gradient,
        left_hessian: eval.left_hessian,
        left_count,
        right_gradient: eval.right_gradient,
        right_hessian: eval.right_hessian,
        right_count,
        default_left,
    }
}

/// What the vectorised search over one feature's histogram found.
#[derive(Debug, Clone, Copy, PartialEq, Eq, Structural)]
pub struct KernelCandidate {
    /// Rows whose bin is at most this go left.
    pub bin_threshold: u8,
    /// The gain of the cut.
    pub gain: F32,
    /// Gradient sum on the left.
    pub left_gradient: F32,
    /// Hessian sum on the left.
    pub left_hessian: F32,
    /// Number of rows on the left.
    pub left_count: u32,
    /// Gradient sum on the right.
    pub right_gradient: F32,
    /// Hessian sum on the right.
    pub right_hessian: F32,
    /// Number of rows on the right.
    pub right_count: u32,
}

/// The splits to choose from, in the order in which they are looked at: those
/// of the features in the mask, or of all features without one. Features that
/// do not exist are passed over.
pub open spec fn masked(per_feature: Seq<Option<SplitInfo>>, feature_mask: Option<Seq<usize>>) -> Seq<
    Option<SplitInfo>,
> {
    match feature_mask {
        None => per_feature,
        Some(features) => features.map_values(
            |feature: usize|
                if feature < per_feature.len() {
                    per_feature[feature as int]
                } else {
                    None
                },
        ),
    }
}

/// The view of an optional slice.
pub open spec fn mask_view(feature_mask: Option<&[usize]>) -> Option<Seq<usize>> {
    match feature_mask {
        None => None,
        Some(features) => Some(features@),
    }
}

impl SplitFinder {
    /// The best of some splits, if it is valid and gains enough.
    pub open spec fn chosen(&self, candidates: Seq<Option<SplitInfo>>) -> Option<SplitInfo> {
        let best = best_of(no_split(0), candidates, candidates.len());
        if best.valid() && self.min_gain.at_most(best.gain) {
            Some(best)
        } else {
            None
        }
    }

    /// The best split of a node: the first of the largest gain among the best
    /// splits of the features in the mask, if it gains at least the minimum.
    pub fn find_best_split_with_features(
        &self,
        per_feature: &[Option<SplitInfo>],
        feature_mask: Option<&[usize]>,
    ) -> (split: Option<SplitInfo>)
        ensures
            split == self.chosen(masked(per_feature@, mask_view(feature_mask))),
    {
        let ghost candidates = masked(per_feature@, mask_view(feature_mask));
        let known: usize = per_feature.len();
        let count: usize = match feature_mask {
            None => known,
            Some(features) => features.len(),
        };
        let mut best: SplitInfo = SplitInfo::default();
        let mut i: usize = 0;
        while i < count
            invariant
                i <= count == candidates.len(),
                known == per_feature@.len(),
                candidates == masked(per_feature@, mask_view(feature_mask)),
                best == best_of(no_split(0), candidates, i as nat),
            decreases count - i,
        {
            let feature: usize = match feature_mask {
                None => i,
                Some(features) => features[i],
            };
            if feature < known {
                if let Some(split) = per_feature[feature] {
                    if best.gain.lt(split.gain) {
                        best = split;
                    }
                }
            }
            i = i + 1;
        }
        if best.is_valid() && self.min_gain.le(best.gain) {
            Some(best)
        } else {
            None
        }
    }

    /// The best split of a node over all features.
    pub fn find_best_split(&self, per_feature: &[Option<SplitInfo>]) -> (split: Option<SplitInfo>)
        ensures
            split == self.chosen(per_feature@),
    {
        self.find_best_split_with_features(per_feature, None)
    }

    /// What the vectorised search found for a feature, unless it gains less
    /// than the minimum. Missing values go left.
    pub open spec fn vectorised_split(&self, feature_idx: usize, candidate: Option<KernelCandidate>) -> Option<
        SplitInfo,
    > {
        match candidate {
            None => None,
            Some(found) => if found.gain.less(self.min_gain) {
                None
            } else {
                Some(
                    SplitInfo {
                        feature_idx,
                        bin_threshold: found.bin_threshold,
                        split_value: F64 { bits: F64_ZERO },
                        gain: found.gain,
                        left_gradient: found.left_gradient,
                        left_hessian: found.left_hessian,
                        left_count: found.left_count,
                        right_gradient: found.right_gradient,
                        right_hessian: found.right_hessian,
                        right_count: found.right_count,
                        default_left: true,
                    },
                )
            },
        }
    }

    /// Takes what the vectorised search found for a feature, unless it gains
    /// less than the minimum. Missing values go left.
    pub fn find_best_split_for_feature_simd(
        &self,
        feature_idx: usize,
        candidate: Option<KernelCandidate>,
    ) -> (split: Option<SplitInfo>)
        ensures
            split == self.vectorised_split(feature_idx, candidate),
            split matches Some(found) ==> found.feature_idx == feature_idx,
    {
        match candidate {
            None => None,
            Some(found) => {
                if found.gain.lt(self.min_gain) {
                    None
                } else {
                    Some(
                        SplitInfo {
                            feature_idx,
                            bin_threshold: found.bin_threshold,
                            split_value: F64 { bits: F64_ZERO },
                            gain: found.gain,
                            left_gradient: found.left_gradient,
                            left_hessian: found.left_hessian,
                            left_count: found.left_count,
                            right_gradient: found.right_gradient,
                            right_hessian: found.right_hessian,
                            right_count: found.right_count,
                            default_left: true,
                        },
                    )
                }
            },
        }
    }
}

impl SplitFinder {
    /// The best cut of one feature: what the vectorised search found where that
    /// search can serve the feature, else the best of all cuts that the rules
    /// permit. The counts and sums are read only in the second case, `kernel`
    /// only in the first.
    pub fn find_best_split_for_feature(
        &self,
        feature_idx: usize,
        counts: &[u32],
        total_count: u32,
        missing_left: &[PartitionEval],
        missing_right: &[PartitionEval],
        kernel: Option<KernelCandidate>,
    ) -> (split: Option<SplitInfo>)
        requires
            !self.vectorised(feature_idx) ==> {
                &&& counts@.len() <= 256
                &&& missing_left@.len() == counts@.len()
                &&& self.use_missing_value_learning ==> missing_right@.len() == counts@.len()
                &&& count_sum(counts@, counts@.len()) <= total_count
            },
        ensures
            split == (if self.vectorised(feature_idx) {
                self.vectorised_split(feature_idx, kernel)
            } else {
                self.scalar_split(feature_idx, counts@, total_count, missing_left@, missing_right@)
            }),
            split matches Some(found) ==> found.feature_idx == feature_idx,
    {
        if self.can_use_simd(feature_idx) {
            self.find_best_split_for_feature_simd(feature_idx, kernel)
        } else {
            self.find_best_split_for_feature_scalar(
                feature_idx,
                counts,
                total_count,
                missing_left,
                missing_right,
            )
        }
    }
}

/// Where missing values are learned, the best cut of a feature is at least as
/// good as every permitted cut with missing values on either side.
pub proof fn law_missing_values_take_the_better_side(
    finder: SplitFinder,
    feature_idx: usize,
    counts: Seq<u32>,
    total: u32,
    missing_left: Seq<PartitionEval>,
    missing_right: Seq<PartitionEval>,
    bin: int,
)
    requires
        finder.use_missing_value_learning,
        0 <= bin < counts.len(),
    ensures
        !finder.vectorised(feature_idx),
        finder.scalar_split(feature_idx, counts, total, missing_left, missing_right) matches Some(best) ==> {
            &&& finder.cut(feature_idx, counts, total, missing_left, bin, true) matches Some(left)
                ==> !best.gain.less(left.gain)
            &&& finder.cut(feature_idx, counts, total, missing_right, bin, false) matches Some(right)
                ==> !best.gain.less(right.gain)
        },
{
    let cuts = finder.cuts(feature_idx, counts, total, missing_left, missing_right);
    law_best_is_first_maximum(no_split(feature_idx), cuts, 2 * counts.len());
    assert((2 * bin) % 2 == 0 && (2 * bin) / 2 == bin);
    assert((2 * bin + 1) % 2 == 1 && (2 * bin + 1) / 2 == bin);
    assert(cuts[2 * bin] == finder.cut(feature_idx, counts, total, missing_left, bin, true));
    assert(cuts[2 * bin + 1] == finder.cut(feature_idx, counts, total, missing_right, bin, false));
}

/// Whether each split of a list is of the feature at whose place it stands.
pub open spec fn in_feature_order(per_feature: Seq<Option<SplitInfo>>) -> bool {
    forall|f: int|
        0 <= f < per_feature.len() && (#[trigger] per_feature[f]) is Some ==> per_feature[f]->0.feature_idx == f
}

/// A split that is chosen under a mask is the best one of a feature in the mask
/// that exists.
pub proof fn law_split_is_in_the_mask(
    finder: SplitFinder,
    per_feature: Seq<Option<SplitInfo>>,
    feature_mask: Option<Seq<usize>>,
)
    requires
        in_feature_order(per_feature),
        finder.chosen(masked(per_feature, feature_mask)) is Some,
    ensures
        ({
            let split = finder.chosen(masked(per_feature, feature_mask))->0;
            &&& split.feature_idx < per_feature.len()
            &&& per_feature[split.feature_idx as int] == Some(split)
            &&& feature_mask matches Some(features) ==> features.contains(split.feature_idx)
        }),
{
    let candidates = masked(per_feature, feature_mask);
    let split = finder.chosen(candidates)->0;
    law_best_is_first_maximum(no_split(0), candidates, candidates.len());
    let k = choose|k: int| 0 <= k < candidates.len() && #[trigger] candidates[k] == Some(split);
    if let Some(features) = feature_mask {
        assert(per_feature[features[k] as int] == Some(split));
        assert(features[k] == split.feature_idx);
    } else {
        assert(per_feature[k] == Some(split));
    }
}

/// A mask of all features in order chooses what no mask chooses.
pub proof fn law_full_mask_is_no_mask(finder: SplitFinder, per_feature: Seq<Option<SplitInfo>>)
    requires
        per_feature.len() <= usize::MAX,
    ensures
        finder.chosen(masked(per_feature, Some(Seq::new(per_feature.len(), |f: int| f as usize)))) == finder.chosen(
            masked(per_feature, None),
        ),
{
    assert(masked(per_feature, Some(Seq::new(per_feature.len(), |f: int| f as usize))) =~= per_feature);
}

/// Features in a mask that do not exist change nothing.
pub proof fn law_unknown_features_change_nothing(
    finder: SplitFinder,
    per_feature: Seq<Option<SplitInfo>>,
    features: Seq<usize>,
)
    ensures
        finder.chosen(masked(per_feature, Some(features))) == finder.chosen(
            masked(per_feature, Some(features.filter(|f: usize| f < per_feature.len()))),
        ),
{
    lemma_unknown_features(per_feature, features);
}

proof fn lemma_unknown_features(per_feature: Seq<Option<SplitInfo>>, features: Seq<usize>)
    ensures
        ({
            let all = masked(per_feature, Some(features));
            let known = masked(per_feature, Some(features.filter(|f: usize| f < per_feature.len())));
            best_of(no_split(0), all, all.len()) == best_of(no_split(0), known, known.len())
        }),
    decreases features.len(),
{
    let exists_at = |f: usize| f < per_feature.len();
    reveal(Seq::filter);
    if features.len() > 0 {
        let fewer = features.drop_last();
        lemma_unknown_features(per_feature, fewer);
        let all = masked(per_feature, Some(features));
        let known = masked(per_feature, Some(features.filter(exists_at)));
        let all_before = masked(per_feature, Some(fewer));
        let known_before = masked(per_feature, Some(fewer.filter(exists_at)));
        assert(all =~= all_before.push(all.last()));
        lemma_best_of_prefix(all_before, all, all_before.len());
        if exists_at(features.last()) {
            assert(known =~= known_before.push(all.last()));
            lemma_best_of_prefix(known_before, known, known_before.len());
        } else {
            assert(known =~= known_before);
        }
    }
}

/// The best of the first candidates does not depend on later ones.
proof fn lemma_best_of_prefix(a: Seq<Option<SplitInfo>>, b: Seq<Option<SplitInfo>>, n: nat)
    requires
        n <= a.len(),
        n <= b.len(),
        forall|i: int| 0 <= i < n ==> #[trigger] a[i] == b[i],
    ensures
        best_of(no_split(0), a, n) == best_of(no_split(0), b, n),
    decreases n,
{
    if n > 0 {
        lemma_best_of_prefix(a, b, (n - 1) as nat);
    }
}

/// A split that is chosen is one of the candidates, is valid, gains at least
/// the minimum, and no candidate gains more.
pub proof fn law_chosen_split_is_best(finder: SplitFinder, candidates: Seq<Option<SplitInfo>>, i: int)
    requires
        finder.chosen(candidates) is Some,
        0 <= i < candidates.len(),
        candidates[i] is Some,
    ensures
        ({
            let split = finder.chosen(candidates)->0;
            &&& candidates.contains(Some(split))
            &&& split.valid()
            &&& finder.min_gain.at_most(split.gain)
            &&& !split.gain.less(candidates[i]->0.gain)
        }),
{
    law_best_is_first_maximum(no_split(0), candidates, candidates.len());
}

impl Default for SplitFinder {
    fn default() -> (finder: Self)
        ensures
            finder.lambda == (F32 { bits: F32_ONE }),
            finder.min_samples_leaf == 1,
            finder.min_hessian_leaf == (F32 { bits: F32_ONE }),
            finder.entropy_weight == (F32 { bits: F32_ZERO }),
            finder.min_gain == (F32 { bits: F32_ZERO }),
            finder.monotonic_constraints@ == Seq::<MonotonicConstraint>::empty(),
            !finder.use_missing_value_learning,
            !finder.noise_pruning,
            finder.noise_pruning_threshold == (F32 { bits: NOISE_PRUNING_THRESHOLD }),
    {
        SplitFinder {
            lambda: F32 { bits: F32_ONE },
            min_samples_leaf: 1,
            min_hessian_leaf: F32 { bits: F32_ONE },
            entropy_weight: F32 { bits: F32_ZERO },
            min_gain: F32 { bits: F32_ZERO },
            monotonic_constraints: Vec::new(),
            use_missing_value_learning: false,
            noise_pruning: false,
            noise_pruning_threshold: F32 { bits: NOISE_PRUNING_THRESHOLD },
        }
    }
}

/// The bits of -0.1, the default pruning threshold: small losses on the
/// validation era are tolerated.
pub const NOISE_PRUNING_THRESHOLD: u32 = 0xbdcc_cccd;

impl SplitFinder {
    /// A finder with default settings.
    pub fn new() -> (finder: SplitFinder)
        ensures
            finder.lambda == (F32 { bits: F32_ONE }),
            finder.min_samples_leaf == 1,
            finder.min_hessian_leaf == (F32 { bits: F32_ONE }),
            finder.entropy_weight == (F32 { bits: F32_ZERO }),
            finder.min_gain == (F32 { bits: F32_ZERO }),
            finder.monotonic_constraints@ == Seq::<MonotonicConstraint>::empty(),
            !finder.use_missing_value_learning,
            !finder.noise_pruning,
            finder.noise_pruning_threshold == (F32 { bits: NOISE_PRUNING_THRESHOLD }),
    {
        SplitFinder::default()
    }

    /// Sets the L2 regularization.
    pub fn with_lambda(self, lambda: F32) -> (finder: SplitFinder)
        ensures
            finder == (SplitFinder { lambda, ..self }),
    {
        SplitFinder { lambda, ..self }
    }

    /// Sets the fewest rows that a side may have.
    pub fn with_min_samples_leaf(self, min_samples: usize) -> (finder: SplitFinder)
        ensures
            finder == (SplitFinder { min_samples_leaf: min_samples, ..self }),
    {
        SplitFinder { min_samples_leaf: min_samples, ..self }
    }

    /// Sets the smallest hessian sum that a side may have.
    pub fn with_min_hessian_leaf(self, min_hessian: F32) -> (finder: SplitFinder)
        ensures
            finder == (SplitFinder { min_hessian_leaf: min_hessian, ..self }),
    {
        SplitFinder { min_hessian_leaf: min_hessian, ..self }
    }

    /// Sets the weight of the entropy bonus.
    pub fn with_entropy_weight(self, weight: F32) -> (finder: SplitFinder)
        ensures
            finder == (SplitFinder { entropy_weight: weight, ..self }),
    {
        SplitFinder { entropy_weight: weight, ..self }
    }

    /// Sets the smallest gain of a split that is taken.
    pub fn with_min_gain(self, min_gain: F32) -> (finder: SplitFinder)
        ensures
            finder == (SplitFinder { min_gain, ..self }),
    {
        SplitFinder { min_gain, ..self }
    }

    /// Sets one monotonic constraint per feature.
    pub fn with_monotonic_constraints(self, constraints: Vec<MonotonicConstraint>) -> (finder: SplitFinder)
        ensures
            finder == (SplitFinder { monotonic_constraints: constraints, ..self }),
    {
        SplitFinder { monotonic_constraints: constraints, ..self }
    }

    /// Sets whether missing values are tried on both sides of a cut.
    pub fn with_missing_value_learning(self, enable: bool) -> (finder: SplitFinder)
        ensures
            finder == (SplitFinder { use_missing_value_learning: enable, ..self }),
    {
        SplitFinder { use_missing_value_learning: enable, ..self }
    }

    /// Sets whether a second era validates the splits found on the first.
    pub fn with_noise_pruning(self, enable: bool) -> (finder: SplitFinder)
        ensures
            finder == (SplitFinder { noise_pruning: enable, ..self }),
    {
        SplitFinder { noise_pruning: enable, ..self }
    }

    /// Sets the validation gain at or below which a split is pruned.
    pub fn with_noise_pruning_threshold(self, threshold: F32) -> (finder: SplitFinder)
        ensures
            finder == (SplitFinder { noise_pruning_threshold: threshold, ..self }),
    {
        SplitFinder { noise_pruning_threshold: threshold, ..self }
    }
}

} // verus!
