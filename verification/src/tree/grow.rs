//! Best-first growth of a tree: the leaf whose split gains most is split next,
//! until leaves, depth or splits run out.
//!
//! A [`TreeGrowth`] makes every decision and keeps rows and nodes. Between two
//! batches its user computes what needs histograms: the split that each new
//! leaf would take, if any.

use crate::dataset::BinnedDataset;
use crate::float::{F32, F64, F32_NEG_INFINITY};
use crate::seqs::count_where;
use crate::tree::node::{Node, NodeType};
use crate::tree::partition::{goes_left, reordered, RowPartitioner};
use crate::tree::shape::{
    law_leaves_share_no_rows, law_rows_lie_in_their_leaf, leaf_count, leaf_of, leaf_placed, lemma_reorder_keeps_tree,
    lemma_split_adds_a_leaf, lemma_split_keeps_tree, node_fits, split_facts, split_fields_ok, split_nodes, tree_ok,
    NodeFacts,
};
use crate::tree::split::{
    law_path_keeps_to_shared_groups, law_path_stays_in_one_group, lemma_path_continues, path_allowed,
    InteractionConstraints, SplitInfo,
};
use vstd::prelude::*;

verus! {

/// A split that a leaf could take, with what its two children would predict.
#[derive(Debug, Clone, Copy, PartialEq, Eq, Structural)]
pub struct CandidateSplit {
    /// The split.
    pub info: SplitInfo,
    /// Raw value at the threshold.
    pub split_value: F64,
    /// Prediction of the left child.
    pub left_value: F32,
    /// Prediction of the right child.
    pub right_value: F32,
}

/// A leaf that waits to be split.
#[derive(Debug)]
pub struct SplitCandidate {
    /// Index of the leaf.
    pub node_idx: usize,
    /// Where its rows start.
    pub row_start: usize,
    /// Where its rows end.
    pub row_end: usize,
    /// The split that it would take.
    pub split: Option<CandidateSplit>,
    /// Features of the splits above it, root first.
    pub ancestor_features: Vec<usize>,
}

impl SplitCandidate {
    /// The gain of the split; negative infinity without one.
    pub open spec fn expected_gain(&self) -> F32 {
        match self.split {
            Some(split) => split.info.gain,
            None => F32 { bits: F32_NEG_INFINITY },
        }
    }

    /// The gain of the split; negative infinity without one.
    pub fn gain(&self) -> (gain: F32)
        ensures
            gain == self.expected_gain(),
    {
        match self.split {
            Some(split) => split.info.gain,
            None => F32 { bits: F32_NEG_INFINITY },
        }
    }
}

/// A new leaf whose split is to be searched.
#[derive(Debug, Clone, Copy, PartialEq, Eq, Structural)]
pub struct ChildTask {
    /// Index of the leaf.
    pub node_idx: usize,
    /// Where its rows start.
    pub row_start: usize,
    /// Where its rows end.
    pub row_end: usize,
    /// Gradient sum of its rows.
    pub gradient: F32,
    /// Hessian sum of its rows.
    pub hessian: F32,
}

/// A leaf that was split and whose children's splits are to be searched. The
/// histograms of the smaller child are built from its rows, those of the
/// larger one by subtraction.
#[derive(Debug)]
pub struct PendingSplit {
    /// Index of the node that was split.
    pub parent: usize,
    /// Features of the splits above the children, root first.
    pub ancestor_features: Vec<usize>,
    /// The child with fewer rows; the left one where they have the same number.
    pub smaller: ChildTask,
    /// The other child.
    pub larger: ChildTask,
}

/// How far a tree may grow.
#[derive(Debug, Clone, Copy, PartialEq, Eq, Structural)]
pub struct GrowthLimits {
    /// Largest depth of a leaf.
    pub max_depth: usize,
    /// Largest number of leaves.
    pub max_leaves: usize,
    /// Fewest rows that a child may get when its parent is split.
    pub min_child_rows: usize,
}

/// A tree that grows.
pub struct TreeGrowth<'a> {
    data: &'a BinnedDataset,
    constraints: &'a InteractionConstraints,
    limits: GrowthLimits,
    partitioner: RowPartitioner,
    nodes: Vec<Node>,
    candidates: Vec<SplitCandidate>,
    pending: Vec<PendingSplit>,
    num_leaves: usize,
    facts: Ghost<Seq<NodeFacts>>,
    initial: Ghost<Seq<usize>>,
}

/// Whether a split's feature exists and may be used below the given features.
pub open spec fn split_fits(
    split: CandidateSplit,
    features: nat,
    constraints: InteractionConstraints,
    path: Seq<usize>,
) -> bool {
    &&& split.info.feature_idx < features
    &&& constraints.allows(path, split.info.feature_idx)
}

/// Whether a candidate stands for a leaf of the tree.
pub open spec fn candidate_ok(
    nodes: Seq<Node>,
    facts: Seq<NodeFacts>,
    features: nat,
    constraints: InteractionConstraints,
    candidate: SplitCandidate,
) -> bool {
    let c = candidate.node_idx as int;
    &&& c < nodes.len()
    &&& nodes[c].node_type is Leaf
    &&& candidate.row_start == facts[c].start
    &&& candidate.row_end == facts[c].end
    &&& candidate.ancestor_features@ == facts[c].path
    &&& candidate.split matches Some(split) ==> split_fits(split, features, constraints, facts[c].path)
}

/// Whether a task stands for a leaf of the tree below the given features.
pub open spec fn task_ok(nodes: Seq<Node>, facts: Seq<NodeFacts>, task: ChildTask, path: Seq<usize>) -> bool {
    let c = task.node_idx as int;
    &&& c < nodes.len()
    &&& nodes[c].node_type is Leaf
    &&& task.row_start == facts[c].start
    &&& task.row_end == facts[c].end
    &&& facts[c].path == path
}

/// Whether a pending split stands for two leaves of the tree.
pub open spec fn pending_ok(nodes: Seq<Node>, facts: Seq<NodeFacts>, pending: PendingSplit) -> bool {
    &&& task_ok(nodes, facts, pending.smaller, pending.ancestor_features@)
    &&& task_ok(nodes, facts, pending.larger, pending.ancestor_features@)
    &&& pending.smaller.node_idx != pending.larger.node_idx
}

/// Whether a pending split is about a given leaf.
pub open spec fn concerns(pending: PendingSplit, node: usize) -> bool {
    pending.smaller.node_idx == node || pending.larger.node_idx == node
}

/// Whether no leaf is in the lists twice.
pub open spec fn all_distinct(candidates: Seq<SplitCandidate>, pending: Seq<PendingSplit>) -> bool {
    &&& forall|i: int, j: int|
        0 <= i < j < candidates.len() ==> (#[trigger] candidates[i]).node_idx != (#[trigger] candidates[j]).node_idx
    &&& forall|i: int, j: int|
        0 <= i < candidates.len() && 0 <= j < pending.len() ==> !concerns(
            #[trigger] pending[j],
            (#[trigger] candidates[i]).node_idx,
        )
    &&& forall|i: int, j: int|
        0 <= i < j < pending.len() ==> !concerns(#[trigger] pending[i], (#[trigger] pending[j]).smaller.node_idx)
            && !concerns(pending[i], pending[j].larger.node_idx)
}

/// How many rows of a candidate its split would send left.
pub open spec fn rows_left(data: BinnedDataset, rows: Seq<usize>, candidate: SplitCandidate) -> nat {
    let split = candidate.split->0.info;
    count_where(
        rows.subrange(candidate.row_start as int, candidate.row_end as int),
        |row: usize| goes_left(data, split.feature_idx as int, split.bin_threshold, split.default_left, row),
    )
}

/// Whether a candidate is split when its turn comes: it has a valid split, its
/// leaf is not at the largest depth, and both children get enough rows.
pub open spec fn splittable(
    data: BinnedDataset,
    limits: GrowthLimits,
    nodes: Seq<Node>,
    rows: Seq<usize>,
    candidate: SplitCandidate,
) -> bool {
    &&& candidate.split is Some
    &&& candidate.split->0.info.valid()
    &&& nodes[candidate.node_idx as int].depth < limits.max_depth
    &&& rows_left(data, rows, candidate) >= limits.min_child_rows
    &&& candidate.row_end - candidate.row_start - rows_left(data, rows, candidate) >= limits.min_child_rows
}

/// The node that a candidate's leaf turns into, with its children appended at
/// `left_child` and behind it.
pub open spec fn split_node(leaf: Node, split: CandidateSplit, left_child: int) -> Node {
    Node {
        node_type: NodeType::Internal {
            feature_idx: split.info.feature_idx,
            bin_threshold: split.info.bin_threshold,
            split_value: split.split_value,
            left_child: left_child as usize,
            right_child: (left_child + 1) as usize,
            default_left: split.info.default_left,
            gain: split.info.gain,
        },
        ..leaf
    }
}

/// The left child of a split leaf.
pub open spec fn left_node(leaf: Node, split: CandidateSplit, rows: nat) -> Node {
    Node {
        node_type: NodeType::Leaf { value: split.left_value },
        depth: (leaf.depth + 1) as usize,
        num_samples: rows as usize,
        sum_gradients: split.info.left_gradient,
        sum_hessians: split.info.left_hessian,
    }
}

/// The right child of a split leaf.
pub open spec fn right_node(leaf: Node, split: CandidateSplit, rows: nat) -> Node {
    Node {
        node_type: NodeType::Leaf { value: split.right_value },
        depth: (leaf.depth + 1) as usize,
        num_samples: rows as usize,
        sum_gradients: split.info.right_gradient,
        sum_hessians: split.info.right_hessian,
    }
}

/// The nodes after a candidate's leaf was split and `left` of its rows went
/// left.
pub open spec fn grown_nodes(nodes: Seq<Node>, candidate: SplitCandidate, left: nat) -> Seq<Node> {
    let leaf = nodes[candidate.node_idx as int];
    let split = candidate.split->0;
    split_nodes(
        nodes,
        candidate.node_idx as int,
        split_node(leaf, split, nodes.len() as int),
        left_node(leaf, split, left),
        right_node(leaf, split, (candidate.row_end - candidate.row_start - left) as nat),
    )
}

impl<'a> TreeGrowth<'a> {
    /// The nodes so far; the root is the first.
    pub closed spec fn tree_nodes(&self) -> Seq<Node> {
        self.nodes@
    }

    /// The row indices, in the order of the leaves.
    pub closed spec fn rows(&self) -> Seq<usize> {
        self.partitioner@
    }

    /// What is known of the nodes.
    pub closed spec fn node_facts(&self) -> Seq<NodeFacts> {
        self.facts@
    }

    /// The rows that the tree was started with.
    pub closed spec fn initial_rows(&self) -> Seq<usize> {
        self.initial@
    }

    /// The leaves that wait to be split.
    pub closed spec fn waiting(&self) -> Seq<SplitCandidate> {
        self.candidates@
    }

    /// The splits whose children are to be searched.
    pub closed spec fn to_search(&self) -> Seq<PendingSplit> {
        self.pending@
    }

    /// The number of leaves.
    pub closed spec fn leaves(&self) -> nat {
        self.num_leaves as nat
    }

    /// How far the tree may grow.
    pub closed spec fn growth_limits(&self) -> GrowthLimits {
        self.limits
    }

    /// The data that the tree grows on.
    pub closed spec fn dataset(&self) -> BinnedDataset {
        *self.data
    }

    /// Which features may appear together.
    pub closed spec fn interaction(&self) -> InteractionConstraints {
        *self.constraints
    }

    /// Whether the state is one that growth can be in: nodes and rows form a
    /// tree within its limits, no node below the root has fewer rows than
    /// allowed, every path keeps to the interaction constraints, and the lists
    /// hold leaves.
    pub open spec fn wf(&self) -> bool {
        let nodes = self.tree_nodes();
        let facts = self.node_facts();
        let limits = self.growth_limits();
        &&& self.dataset().wf()
        &&& tree_ok(self.dataset(), nodes, facts, self.rows(), limits.max_depth as nat)
        &&& leaf_count(nodes) == self.leaves()
        &&& nodes.len() == 2 * self.leaves() - 1
        &&& self.leaves() <= limits.max_leaves || self.leaves() == 1
        &&& 2 * limits.max_leaves <= usize::MAX
        &&& self.rows().len() <= usize::MAX
        &&& self.rows().to_multiset() == self.initial_rows().to_multiset()
        &&& forall|i: int|
            1 <= i < nodes.len() ==> (#[trigger] nodes[i]).num_samples >= limits.min_child_rows
        &&& forall|i: int| 0 <= i < nodes.len() ==> path_allowed(self.interaction(), (#[trigger] facts[i]).path)
        &&& forall|i: int|
            0 <= i < self.waiting().len() ==> candidate_ok(
                nodes,
                facts,
                self.dataset().features(),
                self.interaction(),
                #[trigger] self.waiting()[i],
            )
        &&& forall|i: int|
            0 <= i < self.to_search().len() ==> pending_ok(nodes, facts, #[trigger] self.to_search()[i])
        &&& all_distinct(self.waiting(), self.to_search())
    }

    /// Whether there is a leaf to look at and room for another one.
    pub open spec fn can_grow(&self) -> bool {
        self.waiting().len() > 0 && self.leaves() < self.growth_limits().max_leaves
    }

    /// Whether the tree is a single leaf, which waits for all rows to be split.
    pub open spec fn starts_with(&self, root: Node, split: Option<CandidateSplit>) -> bool {
        &&& self.leaves() == 1
        &&& self.tree_nodes() == seq![root]
        &&& self.to_search().len() == 0
        &&& self.waiting().len() == 1
        &&& self.waiting()[0].node_idx == 0
        &&& self.waiting()[0].row_start == 0
        &&& self.waiting()[0].row_end == self.rows().len()
        &&& self.waiting()[0].split == split
        &&& self.waiting()[0].ancestor_features@ == Seq::<usize>::empty()
    }

    /// A tree of one leaf that holds all `rows`, waiting to take `root_split`.
    pub fn new(
        data: &'a BinnedDataset,
        constraints: &'a InteractionConstraints,
        limits: GrowthLimits,
        rows: Vec<usize>,
        root_value: F32,
        total_gradient: F32,
        total_hessian: F32,
        root_split: Option<CandidateSplit>,
    ) -> (growth: TreeGrowth<'a>)
        requires
            data.wf(),
            2 * limits.max_leaves <= usize::MAX,
            forall|k: int| 0 <= k < rows@.len() ==> #[trigger] rows@[k] < data.rows(),
            root_split matches Some(split) ==> split.info.feature_idx < data.features(),
        ensures
            growth.wf(),
            growth.dataset() == *data,
            growth.interaction() == *constraints,
            growth.growth_limits() == limits,
            growth.rows() == rows@,
            growth.initial_rows() == rows@,
            growth.starts_with(
                (Node {
                    node_type: NodeType::Leaf { value: root_value },
                    depth: 0,
                    num_samples: rows@.len() as usize,
                    sum_gradients: total_gradient,
                    sum_hessians: total_hessian,
                }),
                root_split,
            ),
    {
        let count: usize = rows.len();
        let ghost initial_rows = rows@;
        let ghost root_facts = NodeFacts { start: 0, end: count as int, path: Seq::<usize>::empty() };
        let ghost all_facts = seq![root_facts];
        let mut nodes: Vec<Node> = Vec::new();
        nodes.push(Node::leaf(root_value, 0, count, total_gradient, total_hessian));
        let mut candidates: Vec<SplitCandidate> = Vec::new();
        candidates.push(
            SplitCandidate {
                node_idx: 0,
                row_start: 0,
                row_end: count,
                split: root_split,
                ancestor_features: Vec::new(),
            },
        );
        let growth = TreeGrowth {
            data,
            constraints,
            limits,
            partitioner: RowPartitioner::new(rows),
            nodes,
            candidates,
            pending: Vec::new(),
            num_leaves: 1,
            facts: Ghost(all_facts),
            initial: Ghost(initial_rows),
        };
        proof {
            let all = growth.nodes@;
            let facts = growth.facts@;
            assert(all =~= seq![all[0]]);
            assert(all.drop_last() =~= Seq::empty());
            reveal_with_fuel(count_where, 2);
            assert(leaf_count(all) == 1);
            assert(node_fits(all, facts, 0, count as int, limits.max_depth as nat));
            assert(path_allowed(*constraints, facts[0].path));
            assert(candidate_ok(all, facts, data.features(), *constraints, growth.candidates@[0]));
        }
        growth
    }
}

/// Whether no candidate of a list gains more than the one at `k`.
pub open spec fn gains_most(candidates: Seq<SplitCandidate>, k: int) -> bool {
    &&& 0 <= k < candidates.len()
    &&& forall|j: int|
        0 <= j < candidates.len() ==> !candidates[k].expected_gain().less(
            (#[trigger] candidates[j]).expected_gain(),
        )
}

/// Which of the first `n` candidates of a list is taken out: the first one whose
/// split gains most.
pub open spec fn best_place(candidates: Seq<SplitCandidate>, n: nat) -> int
    decreases n,
{
    if n <= 1 {
        0
    } else {
        let before = best_place(candidates, (n - 1) as nat);
        if candidates[before].expected_gain().less(candidates[n - 1].expected_gain()) {
            n - 1
        } else {
            before
        }
    }
}

/// What `n` candidates that are taken out of a list one after the other are, and
/// what is left of the list.
pub open spec fn drained(waiting: Seq<SplitCandidate>, n: nat) -> (Seq<SplitCandidate>, Seq<SplitCandidate>)
    decreases n,
{
    if n == 0 {
        (Seq::empty(), waiting)
    } else {
        let (taken, left) = drained(waiting, (n - 1) as nat);
        let k = best_place(left, left.len());
        (taken.push(left[k]), left.remove(k))
    }
}

/// Taking a candidate out leaves the rest distinct.
proof fn lemma_distinct_without(candidates: Seq<SplitCandidate>, pending: Seq<PendingSplit>, k: int)
    requires
        all_distinct(candidates, pending),
        0 <= k < candidates.len(),
    ensures
        all_distinct(candidates.remove(k), pending),
        forall|i: int|
            0 <= i < candidates.remove(k).len() ==> (#[trigger] candidates.remove(k)[i]).node_idx
                != candidates[k].node_idx,
{
    let rest = candidates.remove(k);
    assert forall|i: int, j: int| 0 <= i < j < rest.len() implies (#[trigger] rest[i]).node_idx != (
    #[trigger] rest[j]).node_idx by {
        let a = if i < k {
            i
        } else {
            i + 1
        };
        let b = if j < k {
            j
        } else {
            j + 1
        };
        assert(candidates[a].node_idx != candidates[b].node_idx);
    }
    assert forall|i: int, j: int| 0 <= i < rest.len() && 0 <= j < pending.len() implies !concerns(
        #[trigger] pending[j],
        (#[trigger] rest[i]).node_idx,
    ) by {
        let a = if i < k {
            i
        } else {
            i + 1
        };
        assert(rest[i] == candidates[a]);
    }
    assert forall|i: int| 0 <= i < rest.len() implies (#[trigger] rest[i]).node_idx != candidates[k].node_idx by {
        let a = if i < k {
            i
        } else {
            i + 1
        };
        assert(rest[i] == candidates[a]);
        if a < k {
            assert(candidates[a].node_idx != candidates[k].node_idx);
        } else {
            assert(candidates[k].node_idx != candidates[a].node_idx);
        }
    }
}

impl<'a> TreeGrowth<'a> {
    /// The first candidate whose split gains most.
    fn best_candidate(&self) -> (best: usize)
        requires
            self.waiting().len() > 0,
        ensures
            gains_most(self.waiting(), best as int),
            best == best_place(self.waiting(), self.waiting().len()),
    {
        let count: usize = self.candidates.len();
        let mut best: usize = 0;
        let mut i: usize = 1;
        while i < count
            invariant
                1 <= i <= count == self.candidates@.len(),
                best < i,
                best == best_place(self.candidates@, i as nat),
                forall|j: int|
                    0 <= j < i ==> !self.candidates@[best as int].expected_gain().less(
                        (#[trigger] self.candidates@[j]).expected_gain(),
                    ),
            decreases count - i,
        {
            if self.candidates[best].gain().lt(self.candidates[i].gain()) {
                best = i;
            }
            i = i + 1;
        }
        best
    }

    /// Takes the candidate out whose split gains most and splits its leaf,
    /// unless it has no valid split, is at the largest depth, or a child would
    /// get too few rows.
    fn split_best(&mut self) -> (step: (bool, Ghost<int>))
        requires
            old(self).wf(),
            old(self).can_grow(),
        ensures
            final(self).wf(),
            final(self).dataset() == old(self).dataset(),
            final(self).growth_limits() == old(self).growth_limits(),
            final(self).interaction() == old(self).interaction(),
            final(self).initial_rows() == old(self).initial_rows(),
            gains_most(old(self).waiting(), step.1@),
            step.1@ == best_place(old(self).waiting(), old(self).waiting().len()),
            final(self).waiting() == old(self).waiting().remove(step.1@),
            ({
                let candidate = old(self).waiting()[step.1@];
                let left = rows_left(old(self).dataset(), old(self).rows(), candidate);
                &&& step.0 == splittable(
                    old(self).dataset(),
                    old(self).growth_limits(),
                    old(self).tree_nodes(),
                    old(self).rows(),
                    candidate,
                )
                &&& reordered(
                    old(self).rows(),
                    final(self).rows(),
                    candidate.row_start as int,
                    candidate.row_end as int,
                )
                &&& !step.0 ==> {
                    &&& final(self).tree_nodes() == old(self).tree_nodes()
                    &&& final(self).node_facts() == old(self).node_facts()
                    &&& final(self).leaves() == old(self).leaves()
                    &&& final(self).to_search() == old(self).to_search()
                }
                &&& step.0 ==> {
                    &&& final(self).tree_nodes() == grown_nodes(old(self).tree_nodes(), candidate, left)
                    &&& final(self).tree_nodes()[old(self).tree_nodes().len() as int].node_type == (NodeType::Leaf {
                        value: candidate.split->0.left_value,
                    })
                    &&& final(self).tree_nodes()[old(self).tree_nodes().len() as int + 1].node_type == (NodeType::Leaf {
                        value: candidate.split->0.right_value,
                    })
                    &&& final(self).leaves() == old(self).leaves() + 1
                    &&& final(self).leaves() == final(self).growth_limits().max_leaves ==> final(self).to_search()
                        == old(self).to_search()
                    &&& final(self).leaves() < final(self).growth_limits().max_leaves ==> {
                        &&& final(self).to_search().len() == old(self).to_search().len() + 1
                        &&& final(self).to_search().drop_last() == old(self).to_search()
                        &&& pending_for(
                            final(self).to_search().last(),
                            candidate,
                            old(self).tree_nodes().len() as int,
                            left,
                        )
                    }
                }
            }),
    {
        let k: usize = self.best_candidate();
        let ghost nodes = self.nodes@;
        let ghost facts = self.facts@;
        let ghost rows = self.partitioner@;
        let ghost waiting = self.candidates@;
        let ghost searching = self.pending@;
        let ghost features = self.data.features();
        let ghost constraints = *self.constraints;
        let ghost depth_limit = self.limits.max_depth as nat;
        assert(candidate_ok(nodes, facts, features, constraints, waiting[k as int]));
        proof {
            lemma_distinct_without(waiting, searching, k as int);
        }
        let candidate: SplitCandidate = self.candidates.remove(k);
        assert forall|i: int| 0 <= i < self.candidates@.len() implies candidate_ok(
            nodes,
            facts,
            features,
            constraints,
            #[trigger] self.candidates@[i],
        ) by {
            let from = if i < k {
                i
            } else {
                i + 1
            };
            assert(self.candidates@[i] == waiting[from]);
        }
        let c: usize = candidate.node_idx;
        let start: usize = candidate.row_start;
        let end: usize = candidate.row_end;
        assert(reordered(rows, rows, start as int, end as int));
        assert(node_fits(nodes, facts, c as int, rows.len() as int, depth_limit));
        let split: CandidateSplit = match candidate.split {
            None => {
                return (false, Ghost(k as int));
            },
            Some(split) => split,
        };
        if !split.info.is_valid() {
            return (false, Ghost(k as int));
        }
        let leaf: Node = self.nodes[c];
        if leaf.depth >= self.limits.max_depth {
            return (false, Ghost(k as int));
        }
        let feature: usize = split.info.feature_idx;
        let threshold: u8 = split.info.bin_threshold;
        let mid: usize = self.partitioner.partition_in_place(
            self.data,
            start,
            end,
            feature,
            threshold,
            split.info.default_left,
        );
        let ghost left = rows_left(*self.data, rows, candidate);
        let ghost new_rows = self.partitioner@;
        proof {
            lemma_reorder_keeps_tree(*self.data, nodes, facts, rows, new_rows, depth_limit, c as int);
        }
        let left_count: usize = mid - start;
        let right_count: usize = end - mid;
        assert(left_count == left);
        if left_count < self.limits.min_child_rows || right_count < self.limits.min_child_rows {
            return (false, Ghost(k as int));
        }
        let left_idx: usize = self.nodes.len();
        let right_idx: usize = left_idx + 1;
        let left_leaf: Node = Node::leaf(
            split.left_value,
            leaf.depth + 1,
            left_count,
            split.info.left_gradient,
            split.info.left_hessian,
        );
        let right_leaf: Node = Node::leaf(
            split.right_value,
            leaf.depth + 1,
            right_count,
            split.info.right_gradient,
            split.info.right_hessian,
        );
        let inner: Node = Node::internal(
            feature,
            threshold,
            split.split_value,
            left_idx,
            right_idx,
            split.info.default_left,
            split.info.gain,
            leaf.depth,
            leaf.num_samples,
            leaf.sum_gradients,
            leaf.sum_hessians,
        );
        proof {
            assert(split_fields_ok(nodes, facts, features, c as int, mid as int, inner, left_leaf, right_leaf));
            lemma_split_keeps_tree(
                *self.data,
                nodes,
                facts,
                new_rows,
                depth_limit,
                c as int,
                mid as int,
                inner,
                left_leaf,
                right_leaf,
            );
            lemma_split_adds_a_leaf(nodes, c as int, inner, left_leaf, right_leaf);
        }
        self.nodes.set(c, inner);
        self.nodes.push(left_leaf);
        self.nodes.push(right_leaf);
        self.facts = Ghost(split_facts(facts, c as int, mid as int, feature));
        proof {
            lemma_path_continues(constraints, facts[c as int].path, feature);
        }
        self.num_leaves = self.num_leaves + 1;
        assert(self.nodes@ == split_nodes(nodes, c as int, inner, left_leaf, right_leaf));
        assert(inner == split_node(leaf, split, nodes.len() as int));
        proof {
            lemma_lists_survive(
                nodes,
                facts,
                self.nodes@,
                self.facts@,
                features,
                constraints,
                self.candidates@,
                searching,
                c as int,
            );
        }
        if self.num_leaves < self.limits.max_leaves {
            let mut path: Vec<usize> = candidate.ancestor_features;
            path.push(feature);
            let left_task: ChildTask = ChildTask {
                node_idx: left_idx,
                row_start: start,
                row_end: mid,
                gradient: split.info.left_gradient,
                hessian: split.info.left_hessian,
            };
            let right_task: ChildTask = ChildTask {
                node_idx: right_idx,
                row_start: mid,
                row_end: end,
                gradient: split.info.right_gradient,
                hessian: split.info.right_hessian,
            };
            let pending: PendingSplit = if left_count <= right_count {
                PendingSplit { parent: c, ancestor_features: path, smaller: left_task, larger: right_task }
            } else {
                PendingSplit { parent: c, ancestor_features: path, smaller: right_task, larger: left_task }
            };
            assert(pending_ok(self.nodes@, self.facts@, pending));
            self.pending.push(pending);
            proof {
                lemma_distinct_with_new(self.candidates@, searching, pending, nodes, facts, features, constraints);
                assert(self.pending@.drop_last() =~= searching);
            }
        }
        (true, Ghost(k as int))
    }
}

/// Whether a pending split is what comes of splitting a candidate whose
/// children were appended at `left_child` and `left` of whose rows went left.
pub open spec fn pending_for(pending: PendingSplit, candidate: SplitCandidate, left_child: int, left: nat) -> bool {
    let split = candidate.split->0.info;
    let start = candidate.row_start as int;
    let end = candidate.row_end as int;
    let left_task = ChildTask {
        node_idx: left_child as usize,
        row_start: candidate.row_start,
        row_end: (start + left) as usize,
        gradient: split.left_gradient,
        hessian: split.left_hessian,
    };
    let right_task = ChildTask {
        node_idx: (left_child + 1) as usize,
        row_start: (start + left) as usize,
        row_end: candidate.row_end,
        gradient: split.right_gradient,
        hessian: split.right_hessian,
    };
    let left_is_smaller = left <= end - start - left;
    &&& pending.parent == candidate.node_idx
    &&& pending.ancestor_features@ == candidate.ancestor_features@.push(split.feature_idx)
    &&& pending.smaller == if left_is_smaller {
        left_task
    } else {
        right_task
    }
    &&& pending.larger == if left_is_smaller {
        right_task
    } else {
        left_task
    }
}

/// Splitting one leaf leaves the other listed leaves as they are.
proof fn lemma_lists_survive(
    nodes: Seq<Node>,
    facts: Seq<NodeFacts>,
    new_nodes: Seq<Node>,
    new_facts: Seq<NodeFacts>,
    features: nat,
    constraints: InteractionConstraints,
    candidates: Seq<SplitCandidate>,
    pending: Seq<PendingSplit>,
    c: int,
)
    requires
        0 <= c < nodes.len(),
        nodes.len() == facts.len(),
        new_nodes.len() >= nodes.len(),
        forall|i: int| 0 <= i < nodes.len() && i != c ==> #[trigger] new_nodes[i] == nodes[i],
        forall|i: int| 0 <= i < nodes.len() ==> #[trigger] new_facts[i] == facts[i],
        forall|i: int|
            0 <= i < candidates.len() ==> candidate_ok(nodes, facts, features, constraints, #[trigger] candidates[i])
                && candidates[i].node_idx != c,
        forall|i: int|
            0 <= i < pending.len() ==> pending_ok(nodes, facts, #[trigger] pending[i]) && !concerns(
                pending[i],
                c as usize,
            ),
    ensures
        forall|i: int|
            0 <= i < candidates.len() ==> candidate_ok(
                new_nodes,
                new_facts,
                features,
                constraints,
                #[trigger] candidates[i],
            ),
        forall|i: int| 0 <= i < pending.len() ==> pending_ok(new_nodes, new_facts, #[trigger] pending[i]),
{
}

/// A pending split about new leaves is about none that was listed.
proof fn lemma_distinct_with_new(
    candidates: Seq<SplitCandidate>,
    pending: Seq<PendingSplit>,
    added: PendingSplit,
    nodes: Seq<Node>,
    facts: Seq<NodeFacts>,
    features: nat,
    constraints: InteractionConstraints,
)
    requires
        all_distinct(candidates, pending),
        forall|i: int|
            0 <= i < candidates.len() ==> candidate_ok(nodes, facts, features, constraints, #[trigger] candidates[i]),
        forall|i: int| 0 <= i < pending.len() ==> pending_ok(nodes, facts, #[trigger] pending[i]),
        added.smaller.node_idx >= nodes.len(),
        added.larger.node_idx >= nodes.len(),
    ensures
        all_distinct(candidates, pending.push(added)),
{
}

/// Those of some candidates that are split when their turn comes, in order.
pub open spec fn split_among(
    data: BinnedDataset,
    limits: GrowthLimits,
    nodes: Seq<Node>,
    rows: Seq<usize>,
    taken: Seq<SplitCandidate>,
) -> Seq<SplitCandidate>
    decreases taken.len(),
{
    if taken.len() == 0 {
        Seq::empty()
    } else {
        let before = split_among(data, limits, nodes, rows, taken.drop_last());
        if splittable(data, limits, nodes, rows, taken.last()) {
            before.push(taken.last())
        } else {
            before
        }
    }
}

/// The nodes after the leaves of some candidates were split one after the other.
pub open spec fn grown_by(
    data: BinnedDataset,
    nodes: Seq<Node>,
    rows: Seq<usize>,
    splits: Seq<SplitCandidate>,
) -> Seq<Node>
    decreases splits.len(),
{
    if splits.len() == 0 {
        nodes
    } else {
        grown_nodes(
            grown_by(data, nodes, rows, splits.drop_last()),
            splits.last(),
            rows_left(data, rows, splits.last()),
        )
    }
}

/// Whether candidates were taken out one after the other, each time one whose
/// split gains most.
pub open spec fn taken_in_order(
    waiting: Seq<SplitCandidate>,
    taken: Seq<SplitCandidate>,
    still_waiting: Seq<SplitCandidate>,
) -> bool {
    &&& waiting.to_multiset() == still_waiting.to_multiset().add(taken.to_multiset())
    &&& forall|i: int, j: int|
        0 <= i < j < taken.len() ==> !(#[trigger] taken[i]).expected_gain().less((#[trigger] taken[j]).expected_gain())
    &&& forall|i: int, j: int|
        0 <= i < taken.len() && 0 <= j < still_waiting.len() ==> !(#[trigger] taken[i]).expected_gain().less(
            (#[trigger] still_waiting[j]).expected_gain(),
        )
}

/// Whether the pending splits are those of the candidates that were split, in
/// order, from the first on. Their children stand behind the nodes that there
/// were before, two by two.
pub open spec fn pending_of(
    data: BinnedDataset,
    nodes: Seq<Node>,
    rows: Seq<usize>,
    splits: Seq<SplitCandidate>,
    pending: Seq<PendingSplit>,
) -> bool {
    &&& pending.len() <= splits.len()
    &&& forall|j: int|
        0 <= j < pending.len() ==> pending_for(
            #[trigger] pending[j],
            splits[j],
            nodes.len() + 2 * j,
            rows_left(data, rows, splits[j]),
        )
}

/// Whether a candidate sees the same node and rows as before a batch.
pub open spec fn untouched(
    nodes: Seq<Node>,
    rows: Seq<usize>,
    new_nodes: Seq<Node>,
    new_rows: Seq<usize>,
    candidate: SplitCandidate,
) -> bool {
    let start = candidate.row_start as int;
    let end = candidate.row_end as int;
    &&& new_nodes[candidate.node_idx as int] == nodes[candidate.node_idx as int]
    &&& new_rows.subrange(start, end) == rows.subrange(start, end)
}

/// Splitting the candidate at `k` leaves the rows of the others in place.
proof fn lemma_others_untouched(
    data: BinnedDataset,
    nodes: Seq<Node>,
    facts: Seq<NodeFacts>,
    rows: Seq<usize>,
    new_rows: Seq<usize>,
    max_depth: nat,
    constraints: InteractionConstraints,
    popped: SplitCandidate,
    other: SplitCandidate,
)
    requires
        tree_ok(data, nodes, facts, rows, max_depth),
        candidate_ok(nodes, facts, data.features(), constraints, popped),
        candidate_ok(nodes, facts, data.features(), constraints, other),
        popped.node_idx != other.node_idx,
        reordered(rows, new_rows, popped.row_start as int, popped.row_end as int),
    ensures
        new_rows.subrange(other.row_start as int, other.row_end as int) == rows.subrange(
            other.row_start as int,
            other.row_end as int,
        ),
{
    let a = popped.node_idx as int;
    let b = other.node_idx as int;
    assert(leaf_placed(nodes, facts, a, b));
    assert(node_fits(nodes, facts, a, rows.len() as int, max_depth));
    assert(node_fits(nodes, facts, b, rows.len() as int, max_depth));
    assert(new_rows.subrange(other.row_start as int, other.row_end as int) =~= rows.subrange(
        other.row_start as int,
        other.row_end as int,
    ));
}

impl<'a> TreeGrowth<'a> {
    /// Whether there is a leaf to look at and room for another one.
    pub fn is_growing(&self) -> (growing: bool)
        ensures
            growing == self.can_grow(),
    {
        self.candidates.len() > 0 && self.num_leaves < self.limits.max_leaves
    }

    /// Whether a batch goes on that took some candidates out of a state: fewer
    /// leaves than it wants were split, and there is a leaf to look at and room
    /// for another one.
    pub open spec fn goes_on(&self, batch_size: nat, taken: Seq<SplitCandidate>) -> bool {
        let splits = split_among(
            self.dataset(),
            self.growth_limits(),
            self.tree_nodes(),
            self.rows(),
            taken,
        );
        &&& splits.len() < batch_size
        &&& self.leaves() + splits.len() < self.growth_limits().max_leaves
        &&& taken.len() < self.waiting().len()
    }

    /// Whether a batch took some candidates out of a state and led to another
    /// one: of those that could be split the leaves were split, one after the
    /// other, and all but the one that filled the tree have children to be
    /// searched.
    pub open spec fn batch_leads_to(&self, after: &Self, taken: Seq<SplitCandidate>) -> bool {
        let splits = split_among(
            self.dataset(),
            self.growth_limits(),
            self.tree_nodes(),
            self.rows(),
            taken,
        );
        let full = after.leaves() == after.growth_limits().max_leaves;
        &&& taken_in_order(self.waiting(), taken, after.waiting())
        &&& drained(self.waiting(), taken.len()) == (taken, after.waiting())
        &&& after.tree_nodes() == grown_by(self.dataset(), self.tree_nodes(), self.rows(), splits)
        &&& after.leaves() == self.leaves() + splits.len()
        &&& pending_of(self.dataset(), self.tree_nodes(), self.rows(), splits, after.to_search())
        &&& after.to_search().len() == if full && splits.len() > 0 {
            splits.len() - 1
        } else {
            splits.len() as int
        }
    }

    /// Whether a batch of a given size leads from a state to another one over
    /// the same rows: it took candidates out for as long as it had to.
    pub open spec fn collects(&self, after: &Self, batch_size: nat, taken: Seq<SplitCandidate>) -> bool {
        &&& after.wf()
        &&& after.dataset() == self.dataset()
        &&& after.growth_limits() == self.growth_limits()
        &&& after.interaction() == self.interaction()
        &&& after.initial_rows() == self.initial_rows()
        &&& self.batch_leads_to(after, taken)
        &&& !self.goes_on(batch_size, taken)
        &&& forall|m: int| 0 <= m < taken.len() ==> self.goes_on(batch_size, #[trigger] taken.take(m))
    }

    /// Whether listing the children of the pending splits, each with the split
    /// that was found for it, leads from a state to another one.
    pub open spec fn finishes(&self, after: &Self, splits: Seq<ChildSplits>) -> bool {
        &&& after.wf()
        &&& after.dataset() == self.dataset()
        &&& after.growth_limits() == self.growth_limits()
        &&& after.interaction() == self.interaction()
        &&& after.initial_rows() == self.initial_rows()
        &&& after.tree_nodes() == self.tree_nodes()
        &&& after.node_facts() == self.node_facts()
        &&& after.rows() == self.rows()
        &&& after.leaves() == self.leaves()
        &&& after.to_search().len() == 0
        &&& splits.len() == self.to_search().len()
        &&& after.waiting().len() == self.waiting().len() + 2 * splits.len()
        &&& after.waiting().take(self.waiting().len() as int) == self.waiting()
        &&& forall|i: int|
            0 <= i < splits.len() ==> {
                let pending = #[trigger] self.to_search()[i];
                let at = self.waiting().len() + 2 * i;
                &&& candidate_for(
                    after.waiting()[at],
                    pending.smaller,
                    pending.ancestor_features@,
                    splits[i].0,
                )
                &&& candidate_for(
                    after.waiting()[at + 1],
                    pending.larger,
                    pending.ancestor_features@,
                    splits[i].1,
                )
            }
    }

    /// Splits leaves, those whose splits gain most first, until `batch_size`
    /// of them have children to be searched, no leaf waits any more, or the
    /// tree has as many leaves as it may have. Says whether there is anything
    /// to search.
    pub fn collect_batch(&mut self, batch_size: usize) -> (found: bool)
        requires
            old(self).wf(),
            old(self).to_search().len() == 0,
        ensures
            final(self).wf(),
            final(self).dataset() == old(self).dataset(),
            final(self).growth_limits() == old(self).growth_limits(),
            final(self).interaction() == old(self).interaction(),
            final(self).initial_rows() == old(self).initial_rows(),
            found == (final(self).to_search().len() > 0),
            final(self).to_search().len() <= batch_size,
            final(self).to_search().len() == batch_size || !final(self).can_grow(),
            exists|taken: Seq<SplitCandidate>| #[trigger] old(self).collects(final(self), batch_size as nat, taken),
            forall|j: int|
                0 <= j < final(self).waiting().len() ==> untouched(
                    old(self).tree_nodes(),
                    old(self).rows(),
                    final(self).tree_nodes(),
                    final(self).rows(),
                    #[trigger] final(self).waiting()[j],
                ),
    {
        let ghost nodes = self.nodes@;
        let ghost rows = self.partitioner@;
        let ghost waiting = self.candidates@;
        let ghost data = *self.data;
        let ghost limits = self.limits;
        let ghost constraints = *self.constraints;
        let ghost start_leaves = self.num_leaves as int;
        let ghost mut taken: Seq<SplitCandidate> = Seq::empty();
        proof {
            vstd::seq_lib::to_multiset_len(taken);
            assert(waiting.to_multiset().add(taken.to_multiset()) =~= waiting.to_multiset());
        }
        while self.pending.len() < batch_size && self.is_growing()
            invariant
                self.wf(),
                data == self.dataset(),
                limits == self.growth_limits(),
                constraints == self.interaction(),
                constraints == old(self).interaction(),
                self.initial_rows() == old(self).initial_rows(),
                data == old(self).dataset(),
                limits == old(self).growth_limits(),
                nodes == old(self).tree_nodes(),
                rows == old(self).rows(),
                waiting == old(self).waiting(),
                start_leaves == old(self).leaves(),
                nodes.len() == 2 * start_leaves - 1,
                self.to_search().len() <= batch_size,
                old(self).batch_leads_to(self, taken),
                self.waiting().len() + taken.len() == waiting.len(),
                forall|m: int|
                    0 <= m < taken.len() ==> old(self).goes_on(batch_size as nat, #[trigger] taken.take(m)),
                forall|j: int|
                    0 <= j < self.waiting().len() ==> untouched(
                        nodes,
                        rows,
                        self.tree_nodes(),
                        self.rows(),
                        #[trigger] self.waiting()[j],
                    ),
            decreases self.waiting().len(),
        {
            let ghost now_nodes = self.tree_nodes();
            let ghost now_facts = self.node_facts();
            let ghost now_rows = self.rows();
            let ghost now = self.waiting();
            let ghost now_pending = self.to_search();
            let ghost splits = split_among(data, limits, nodes, rows, taken);
            let ghost depth_limit = limits.max_depth as nat;
            let step: (bool, Ghost<int>) = self.split_best();
            let ghost k = step.1@;
            let ghost popped = now[k];
            let ghost rest = self.waiting();
            proof {
                assert(candidate_ok(now_nodes, now_facts, data.features(), constraints, popped));
                assert(untouched(nodes, rows, now_nodes, now_rows, popped));
                assert(rows_left(data, now_rows, popped) == rows_left(data, rows, popped));
                assert(splittable(data, limits, now_nodes, now_rows, popped) == splittable(
                    data,
                    limits,
                    nodes,
                    rows,
                    popped,
                ));
                assert forall|j: int| 0 <= j < rest.len() implies untouched(
                    nodes,
                    rows,
                    self.tree_nodes(),
                    self.rows(),
                    #[trigger] rest[j],
                ) by {
                    let from = if j < k {
                        j
                    } else {
                        j + 1
                    };
                    assert(rest[j] == now[from]);
                    assert(candidate_ok(now_nodes, now_facts, data.features(), constraints, now[from]));
                    if j < k {
                        assert(now[from].node_idx != now[k].node_idx);
                    } else {
                        assert(now[k].node_idx != now[from].node_idx);
                    }
                    lemma_others_untouched(
                        data,
                        now_nodes,
                        now_facts,
                        now_rows,
                        self.rows(),
                        depth_limit,
                        constraints,
                        popped,
                        now[from],
                    );
                }
                lemma_next_taken(waiting, taken, now, k);
                let more = taken.push(popped);
                assert(more.drop_last() =~= taken);
                assert(old(self).goes_on(batch_size as nat, taken));
                assert forall|m: int| 0 <= m < more.len() implies old(self).goes_on(
                    batch_size as nat,
                    #[trigger] more.take(m),
                ) by {
                    assert(more.take(m) =~= taken.take(m));
                    assert(taken.take(taken.len() as int) =~= taken);
                }
                if step.0 {
                    let all = splits.push(popped);
                    assert(all.drop_last() =~= splits);
                    assert(now_nodes.len() == nodes.len() + 2 * splits.len());
                    if self.leaves() < limits.max_leaves {
                        assert(self.to_search().drop_last() == now_pending);
                        assert forall|j: int| 0 <= j < self.to_search().len() implies pending_for(
                            #[trigger] self.to_search()[j],
                            all[j],
                            nodes.len() + 2 * j,
                            rows_left(data, rows, all[j]),
                        ) by {
                            if j < now_pending.len() {
                                assert(self.to_search()[j] == now_pending[j]);
                            }
                        }
                    }
                }
                taken = more;
            }
        }
        assert(old(self).collects(self, batch_size as nat, taken));
        self.pending.len() > 0
    }
}

/// Taking out one more candidate that gains most keeps the order.
proof fn lemma_next_taken(waiting: Seq<SplitCandidate>, taken: Seq<SplitCandidate>, now: Seq<SplitCandidate>, k: int)
    requires
        taken_in_order(waiting, taken, now),
        gains_most(now, k),
    ensures
        taken_in_order(waiting, taken.push(now[k]), now.remove(k)),
{
    let more = taken.push(now[k]);
    let rest = now.remove(k);
    vstd::seq_lib::to_multiset_build(taken, now[k]);
    vstd::seq_lib::to_multiset_remove(now, k);
    vstd::seq_lib::to_multiset_contains(now, now[k]);
    assert(now.contains(now[k]));
    assert(rest.to_multiset().add(more.to_multiset()) =~= now.to_multiset().add(taken.to_multiset()));
    assert forall|i: int, j: int| 0 <= i < more.len() && 0 <= j < rest.len() implies !(
    #[trigger] more[i]).expected_gain().less((#[trigger] rest[j]).expected_gain()) by {
        let from = if j < k {
            j
        } else {
            j + 1
        };
        assert(rest[j] == now[from]);
        if i < taken.len() {
            assert(more[i] == taken[i]);
        }
    }
    assert forall|i: int, j: int| 0 <= i < j < more.len() implies !(#[trigger] more[i]).expected_gain().less(
        (#[trigger] more[j]).expected_gain(),
    ) by {
        assert(more[i] == taken[i]);
        if j < taken.len() {
            assert(more[j] == taken[j]);
        }
    }
}

/// A copy of a list of indices.
fn copy_indices(indices: &Vec<usize>) -> (copy: Vec<usize>)
    ensures
        copy@ == indices@,
{
    let count: usize = indices.len();
    let mut copy: Vec<usize> = Vec::new();
    let mut i: usize = 0;
    while i < count
        invariant
            i <= count == indices@.len(),
            copy@ == indices@.take(i as int),
        decreases count - i,
    {
        copy.push(indices[i]);
        i = i + 1;
        assert(copy@ =~= indices@.take(i as int));
    }
    assert(indices@.take(count as int) =~= indices@);
    copy
}

/// What was found for the two children of a pending split: the split of the
/// smaller one and of the larger one.
pub type ChildSplits = (Option<CandidateSplit>, Option<CandidateSplit>);

/// Whether a candidate is the one that a task turns into.
pub open spec fn candidate_for(
    candidate: SplitCandidate,
    task: ChildTask,
    path: Seq<usize>,
    split: Option<CandidateSplit>,
) -> bool {
    &&& candidate.node_idx == task.node_idx
    &&& candidate.row_start == task.row_start
    &&& candidate.row_end == task.row_end
    &&& candidate.ancestor_features@ == path
    &&& candidate.split == split
}

/// Whether the features of two splits exist and may be used below the given
/// features.
pub open spec fn child_splits_ok(
    splits: ChildSplits,
    features: nat,
    constraints: InteractionConstraints,
    path: Seq<usize>,
) -> bool {
    &&& splits.0 matches Some(split) ==> split_fits(split, features, constraints, path)
    &&& splits.1 matches Some(split) ==> split_fits(split, features, constraints, path)
}

/// Listing the two leaves of a pending split keeps all lists distinct.
proof fn lemma_distinct_listed(
    candidates: Seq<SplitCandidate>,
    pending: Seq<PendingSplit>,
    i: int,
    smaller: SplitCandidate,
    larger: SplitCandidate,
)
    requires
        0 <= i < pending.len(),
        all_distinct(candidates, pending.skip(i)),
        smaller.node_idx == pending[i].smaller.node_idx,
        larger.node_idx == pending[i].larger.node_idx,
        smaller.node_idx != larger.node_idx,
    ensures
        all_distinct(candidates.push(smaller).push(larger), pending.skip(i + 1)),
{
    let rest = pending.skip(i);
    let next = pending.skip(i + 1);
    let more = candidates.push(smaller).push(larger);
    assert(rest[0] == pending[i]);
    assert forall|a: int, b: int| 0 <= a < b < more.len() implies (#[trigger] more[a]).node_idx != (
    #[trigger] more[b]).node_idx by {
        if b < candidates.len() {
            assert(candidates[a].node_idx != candidates[b].node_idx);
        } else if a < candidates.len() {
            assert(!concerns(rest[0], candidates[a].node_idx));
        }
    }
    assert forall|a: int, b: int| 0 <= a < more.len() && 0 <= b < next.len() implies !concerns(
        #[trigger] next[b],
        (#[trigger] more[a]).node_idx,
    ) by {
        assert(next[b] == rest[b + 1]);
        if a < candidates.len() {
            assert(!concerns(rest[b + 1], candidates[a].node_idx));
        } else {
            assert(!concerns(rest[0], rest[b + 1].smaller.node_idx));
            assert(!concerns(rest[0], rest[b + 1].larger.node_idx));
        }
    }
    assert forall|a: int, b: int| 0 <= a < b < next.len() implies !concerns(
        #[trigger] next[a],
        (#[trigger] next[b]).smaller.node_idx,
    ) && !concerns(next[a], next[b].larger.node_idx) by {
        assert(next[a] == rest[a + 1]);
        assert(next[b] == rest[b + 1]);
    }
}

impl<'a> TreeGrowth<'a> {
    /// The splits whose children are to be searched.
    pub fn pending(&self) -> (pending: &[PendingSplit])
        ensures
            pending@ == self.to_search(),
    {
        self.pending.as_slice()
    }

    /// The rows of a leaf that is to be searched, or of any other stretch.
    pub fn get_rows(&self, start: usize, end: usize) -> (rows: &[usize])
        requires
            start <= end <= self.rows().len(),
        ensures
            rows@ == self.rows().subrange(start as int, end as int),
    {
        self.partitioner.get_rows(start, end)
    }

    /// The number of leaves.
    pub fn num_leaves(&self) -> (leaves: usize)
        ensures
            leaves == self.leaves(),
    {
        self.num_leaves
    }

    /// The nodes so far; the root is the first.
    pub fn nodes(&self) -> (nodes: &[Node])
        ensures
            nodes@ == self.tree_nodes(),
    {
        self.nodes.as_slice()
    }

    /// The nodes of the tree.
    pub fn into_nodes(self) -> (nodes: Vec<Node>)
        ensures
            nodes@ == self.tree_nodes(),
    {
        self.nodes
    }

    /// Lists the children of the pending splits as leaves that wait to be
    /// split, each with the split that was found for it: of every pending
    /// split first the smaller child, then the larger one.
    pub fn finish_batch(&mut self, splits: &[ChildSplits])
        requires
            old(self).wf(),
            splits@.len() == old(self).to_search().len(),
            forall|i: int|
                0 <= i < splits@.len() ==> child_splits_ok(
                    #[trigger] splits@[i],
                    old(self).dataset().features(),
                    old(self).interaction(),
                    old(self).to_search()[i].ancestor_features@,
                ),
        ensures
            final(self).wf(),
            old(self).finishes(final(self), splits@),
    {
        let ghost nodes = self.nodes@;
        let ghost facts = self.facts@;
        let ghost features = self.data.features();
        let ghost constraints = *self.constraints;
        let ghost before = self.candidates@;
        let ghost searching = self.pending@;
        let mut pending: Vec<PendingSplit> = Vec::new();
        std::mem::swap(&mut pending, &mut self.pending);
        let count: usize = pending.len();
        let mut i: usize = 0;
        assert(searching.skip(0) =~= searching);
        while i < count
            invariant
                i <= count == pending@.len(),
                pending@ == searching,
                splits@.len() == count,
                searching == old(self).to_search(),
                before == old(self).waiting(),
                self.pending@.len() == 0,
                self.data == old(self).data,
                self.limits == old(self).limits,
                self.constraints == old(self).constraints,
                constraints == *self.constraints,
                self.initial == old(self).initial,
                self.partitioner == old(self).partitioner,
                self.num_leaves == old(self).num_leaves,
                nodes == self.nodes@,
                facts == self.facts@,
                features == self.data.features(),
                self.nodes@ == old(self).nodes@,
                self.facts == old(self).facts,
                forall|j: int|
                    0 <= j < splits@.len() ==> child_splits_ok(
                        #[trigger] splits@[j],
                        features,
                        constraints,
                        searching[j].ancestor_features@,
                    ),
                forall|j: int| 0 <= j < count ==> pending_ok(nodes, facts, #[trigger] searching[j]),
                self.candidates@.len() == before.len() + 2 * i,
                self.candidates@.take(before.len() as int) == before,
                forall|j: int|
                    0 <= j < self.candidates@.len() ==> candidate_ok(
                        nodes,
                        facts,
                        features,
                        constraints,
                        #[trigger] self.candidates@[j],
                    ),
                all_distinct(self.candidates@, searching.skip(i as int)),
                forall|j: int|
                    0 <= j < i ==> {
                        let done = #[trigger] searching[j];
                        let at = before.len() + 2 * j;
                        &&& candidate_for(
                            self.candidates@[at],
                            done.smaller,
                            done.ancestor_features@,
                            splits@[j].0,
                        )
                        &&& candidate_for(
                            self.candidates@[at + 1],
                            done.larger,
                            done.ancestor_features@,
                            splits@[j].1,
                        )
                    },
            decreases count - i,
        {
            let ghost now = self.candidates@;
            let split: &PendingSplit = &pending[i];
            let found: ChildSplits = splits[i];
            assert(pending_ok(nodes, facts, searching[i as int]));
            assert(child_splits_ok(
                splits@[i as int],
                features,
                constraints,
                searching[i as int].ancestor_features@,
            ));
            let smaller: SplitCandidate = SplitCandidate {
                node_idx: split.smaller.node_idx,
                row_start: split.smaller.row_start,
                row_end: split.smaller.row_end,
                split: found.0,
                ancestor_features: copy_indices(&split.ancestor_features),
            };
            let larger: SplitCandidate = SplitCandidate {
                node_idx: split.larger.node_idx,
                row_start: split.larger.row_start,
                row_end: split.larger.row_end,
                split: found.1,
                ancestor_features: copy_indices(&split.ancestor_features),
            };
            assert(candidate_ok(nodes, facts, features, constraints, smaller));
            assert(candidate_ok(nodes, facts, features, constraints, larger));
            proof {
                lemma_distinct_listed(now, searching, i as int, smaller, larger);
            }
            self.candidates.push(smaller);
            self.candidates.push(larger);
            assert(self.candidates@.take(before.len() as int) =~= now.take(before.len() as int));
            i = i + 1;
        }
        assert(searching.skip(count as int) =~= self.pending@);
    }
}

/// A tree never outgrows its limits: it has no more leaves than allowed (but
/// always the root), no leaf is deeper than allowed, no node below the root has
/// fewer rows than allowed, and it is a full binary tree, with one split less
/// than leaves.
pub proof fn law_growth_keeps_its_limits(growth: TreeGrowth<'_>, i: int)
    requires
        growth.wf(),
        0 <= i < growth.tree_nodes().len(),
    ensures
        growth.leaves() <= growth.growth_limits().max_leaves || growth.leaves() == 1,
        growth.leaves() == leaf_count(growth.tree_nodes()),
        growth.tree_nodes().len() == 2 * growth.leaves() - 1,
        growth.tree_nodes()[i].depth <= growth.growth_limits().max_depth,
        i > 0 ==> growth.tree_nodes()[i].num_samples >= growth.growth_limits().min_child_rows,
{
    assert(node_fits(
        growth.tree_nodes(),
        growth.node_facts(),
        i,
        growth.rows().len() as int,
        growth.growth_limits().max_depth as nat,
    ));
}

/// Every path of a tree keeps to the interaction constraints: a feature of a
/// group that is not the first such feature above a node shares a group with
/// one above it.
pub proof fn law_grown_paths_keep_to_shared_groups(growth: TreeGrowth<'_>, node: int, i: int, j: int)
    requires
        growth.wf(),
        0 <= node < growth.tree_nodes().len(),
        0 <= i < j < growth.node_facts()[node].path.len(),
        growth.interaction().has_group(growth.node_facts()[node].path[i]),
        growth.interaction().has_group(growth.node_facts()[node].path[j]),
    ensures
        exists|k: int|
            0 <= k < j && growth.interaction().shares_group(
                growth.node_facts()[node].path[j],
                #[trigger] growth.node_facts()[node].path[k],
            ),
{
    law_path_keeps_to_shared_groups(growth.interaction(), growth.node_facts()[node].path, i, j);
}

/// Where no feature is in two groups, no path of a tree splits on features of
/// two different groups.
pub proof fn law_grown_paths_stay_in_one_group(growth: TreeGrowth<'_>, node: int, i: int, j: int)
    requires
        growth.wf(),
        growth.interaction().disjoint(),
        0 <= node < growth.tree_nodes().len(),
        0 <= i < growth.node_facts()[node].path.len(),
        0 <= j < growth.node_facts()[node].path.len(),
        growth.interaction().has_group(growth.node_facts()[node].path[i]),
        growth.interaction().has_group(growth.node_facts()[node].path[j]),
    ensures
        growth.interaction().shares_group(growth.node_facts()[node].path[i], growth.node_facts()[node].path[j]),
{
    law_path_stays_in_one_group(growth.interaction(), growth.node_facts()[node].path, i, j);
}

/// Every row that growth started with is in exactly one leaf, the one that its
/// bins lead to from the root, and the rows are the ones it started with.
pub proof fn law_rows_are_shared_out(growth: TreeGrowth<'_>, k: int, leaf: int)
    requires
        growth.wf(),
        0 <= k < growth.rows().len(),
        0 <= leaf < growth.tree_nodes().len(),
        growth.tree_nodes()[leaf].node_type is Leaf,
    ensures
        growth.rows().to_multiset() == growth.initial_rows().to_multiset(),
        growth.node_facts()[leaf].start <= k < growth.node_facts()[leaf].end <==> leaf == leaf_of(
            growth.dataset(),
            growth.tree_nodes(),
            0,
            growth.rows()[k],
        ),
{
    let data = growth.dataset();
    let nodes = growth.tree_nodes();
    let facts = growth.node_facts();
    let depth = growth.growth_limits().max_depth as nat;
    law_rows_lie_in_their_leaf(data, nodes, facts, growth.rows(), depth, 0, k);
    let home = leaf_of(data, nodes, 0, growth.rows()[k]);
    if leaf != home {
        law_leaves_share_no_rows(data, nodes, facts, growth.rows(), depth, leaf, home, k);
    }
}

} // verus!
