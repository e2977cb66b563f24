//! What the leaves of a grown tree hold: the values and sums of the side of the
//! split on which their rows lie.

use crate::dataset::BinnedDataset;
use crate::seqs::count_where;
use crate::tree::grow::{
    best_place, candidate_ok, drained, grown_by, grown_nodes, pending_for, rows_left, split_among, splittable, taken_in_order,
    CandidateSplit, ChildSplits, GrowthLimits, PendingSplit, SplitCandidate, TreeGrowth,
};
use crate::tree::growth_laws::{grows_through, lemma_no_more_than_waiting, lemma_taken_was_waiting, one_batch};
use crate::tree::node::{Node, NodeType};
use crate::tree::partition::{goes_left, reordered};
use crate::tree::shape::{leaf_of, links_ok};
use vstd::prelude::*;

verus! {

/// A row goes left by its bin: with a missing value, bin 0, where the split sends
/// those, and otherwise when the bin does not lie above the threshold.
pub proof fn law_bins_decide_the_side(data: BinnedDataset, feature: int, threshold: u8, default_left: bool, row: usize)
    ensures
        data.bin(row as int, feature) == 0 ==> goes_left(data, feature, threshold, default_left, row) == default_left,
        data.bin(row as int, feature) > threshold ==> !goes_left(data, feature, threshold, false, row),
        0 < data.bin(row as int, feature) <= threshold ==> goes_left(data, feature, threshold, default_left, row),
        0 < data.bin(row as int, feature) ==> goes_left(data, feature, threshold, true, row) == goes_left(
            data,
            feature,
            threshold,
            false,
            row,
        ),
{
}

/// After a leaf is split, a row that goes left at the split comes from there to a
/// leaf with the value and the sums of the left side, and any other row to a leaf
/// with those of the right side. The split leaf keeps its rows, depth and sums,
/// and no other node changes.
pub proof fn law_split_gives_each_side_its_value(
    data: BinnedDataset,
    nodes: Seq<Node>,
    candidate: SplitCandidate,
    left: nat,
    row: usize,
)
    requires
        candidate.split is Some,
        candidate.node_idx < nodes.len(),
        nodes.len() + 1 <= usize::MAX,
        nodes[candidate.node_idx as int].depth < usize::MAX,
        candidate.row_start + left <= candidate.row_end,
    ensures
        ({
            let c = candidate.node_idx as int;
            let split = candidate.split->0;
            let after = grown_nodes(nodes, candidate, left);
            let bin = data.bin(row as int, split.info.feature_idx as int);
            let on_the_left = if bin == 0 {
                split.info.default_left
            } else {
                bin <= split.info.bin_threshold
            };
            let leaf = after[leaf_of(data, after, c, row)];
            &&& after.len() == nodes.len() + 2
            &&& forall|i: int| 0 <= i < nodes.len() && i != c ==> #[trigger] after[i] == nodes[i]
            &&& after[c].depth == nodes[c].depth
            &&& after[c].num_samples == nodes[c].num_samples
            &&& after[c].sum_gradients == nodes[c].sum_gradients
            &&& after[c].sum_hessians == nodes[c].sum_hessians
            &&& after[c].node_type == (NodeType::Internal {
                feature_idx: split.info.feature_idx,
                bin_threshold: split.info.bin_threshold,
                split_value: split.split_value,
                left_child: nodes.len() as usize,
                right_child: (nodes.len() + 1) as usize,
                default_left: split.info.default_left,
                gain: split.info.gain,
            })
            &&& leaf.depth == nodes[c].depth + 1
            &&& on_the_left ==> {
                &&& leaf.node_type == (NodeType::Leaf { value: split.left_value })
                &&& leaf.sum_gradients == split.info.left_gradient
                &&& leaf.sum_hessians == split.info.left_hessian
                &&& leaf.num_samples == left
            }
            &&& !on_the_left ==> {
                &&& leaf.node_type == (NodeType::Leaf { value: split.right_value })
                &&& leaf.sum_gradients == split.info.right_gradient
                &&& leaf.sum_hessians == split.info.right_hessian
                &&& leaf.num_samples == candidate.row_end - candidate.row_start - left
            }
        }),
{
    reveal_with_fuel(leaf_of, 2);
}

/// The rows on the left side of a candidate are counted one by one: those of its
/// stretch that have a bin up to the threshold, or a missing value where these go
/// left.
pub proof fn law_left_rows_are_counted(data: BinnedDataset, rows: Seq<usize>, candidate: SplitCandidate)
    requires
        candidate.split is Some,
        candidate.row_start <= candidate.row_end <= rows.len(),
    ensures
        ({
            let split = candidate.split->0.info;
            rows_left(data, rows, candidate) == rows.subrange(
                candidate.row_start as int,
                candidate.row_end as int,
            ).filter(
                |row: usize|
                    if data.bin(row as int, split.feature_idx as int) == 0 {
                        split.default_left
                    } else {
                        data.bin(row as int, split.feature_idx as int) <= split.bin_threshold
                    },
            ).len()
        }),
        rows_left(data, rows, candidate) <= candidate.row_end - candidate.row_start,
{
    let split = candidate.split->0.info;
    let here = rows.subrange(candidate.row_start as int, candidate.row_end as int);
    let keep = |row: usize|
        if data.bin(row as int, split.feature_idx as int) == 0 {
            split.default_left
        } else {
            data.bin(row as int, split.feature_idx as int) <= split.bin_threshold
        };
    let left = |row: usize|
        goes_left(data, split.feature_idx as int, split.bin_threshold, split.default_left, row);
    lemma_count_is_filter(here, left, keep);
}

/// Counting is filtering and taking the length.
proof fn lemma_count_is_filter(s: Seq<usize>, p: spec_fn(usize) -> bool, q: spec_fn(usize) -> bool)
    requires
        forall|row: usize| #[trigger] p(row) == q(row),
    ensures
        count_where(s, p) == s.filter(q).len(),
        count_where(s, p) <= s.len(),
    decreases s.len(),
{
    reveal(Seq::filter);
    if s.len() > 0 {
        lemma_count_is_filter(s.drop_last(), p, q);
        assert(p(s.last()) == q(s.last()));
    }
}

/// What is split: of the candidates that a batch takes, in their order, exactly
/// those that have a split with a gain and rows on both sides, stand above the
/// largest depth, and send at least as many rows to either side as a leaf needs.
pub proof fn law_only_worthy_candidates_are_split(
    data: BinnedDataset,
    limits: GrowthLimits,
    nodes: Seq<Node>,
    rows: Seq<usize>,
    taken: Seq<SplitCandidate>,
    candidate: SplitCandidate,
)
    requires
        taken.contains(candidate),
    ensures
        split_among(data, limits, nodes, rows, taken).contains(candidate) <==> {
            &&& candidate.split is Some
            &&& !candidate.split->0.info.gain.nan()
            &&& candidate.split->0.info.gain.bits != 0xff80_0000
            &&& candidate.split->0.info.left_count > 0
            &&& candidate.split->0.info.right_count > 0
            &&& nodes[candidate.node_idx as int].depth < limits.max_depth
            &&& rows_left(data, rows, candidate) >= limits.min_child_rows
            &&& candidate.row_end - candidate.row_start >= limits.min_child_rows + rows_left(data, rows, candidate)
        },
        split_among(data, limits, nodes, rows, taken).len() <= taken.len(),
{
    lemma_split_among(data, limits, nodes, rows, taken, candidate);
}

proof fn lemma_split_among(
    data: BinnedDataset,
    limits: GrowthLimits,
    nodes: Seq<Node>,
    rows: Seq<usize>,
    taken: Seq<SplitCandidate>,
    candidate: SplitCandidate,
)
    ensures
        split_among(data, limits, nodes, rows, taken).contains(candidate) <==> taken.contains(candidate) && splittable(
            data,
            limits,
            nodes,
            rows,
            candidate,
        ),
        split_among(data, limits, nodes, rows, taken).len() <= taken.len(),
    decreases taken.len(),
{
    let all = split_among(data, limits, nodes, rows, taken);
    if taken.len() > 0 {
        let shorter = taken.drop_last();
        let last = taken.last();
        lemma_split_among(data, limits, nodes, rows, shorter, candidate);
        let before = split_among(data, limits, nodes, rows, shorter);
        if taken.contains(candidate) && candidate != last {
            let i = choose|i: int| 0 <= i < taken.len() && taken[i] == candidate;
            assert(shorter[i] == candidate);
        }
        if shorter.contains(candidate) {
            let i = choose|i: int| 0 <= i < shorter.len() && shorter[i] == candidate;
            assert(taken[i] == candidate);
        }
        assert(taken[taken.len() - 1] == last);
        if before.contains(candidate) {
            let i = choose|i: int| 0 <= i < before.len() && before[i] == candidate;
            assert(all[i] == candidate);
        }
        if all.contains(candidate) && !before.contains(candidate) {
            let i = choose|i: int| 0 <= i < all.len() && all[i] == candidate;
            if i < before.len() {
                assert(before[i] == candidate);
            }
        }
        if splittable(data, limits, nodes, rows, last) {
            assert(all[before.len() as int] == last);
        }
    }
}

/// Of the candidates that wait, the first of those with the largest gain comes
/// next; a candidate without a split comes behind every one with a gain.
pub proof fn law_largest_gain_comes_next(waiting: Seq<SplitCandidate>, i: int)
    requires
        0 <= i < waiting.len(),
        forall|j: int|
            0 <= j < waiting.len() && (#[trigger] waiting[j]).split is Some ==> !waiting[j].split->0.info.gain.nan(),
    ensures
        ({
            let k = best_place(waiting, waiting.len());
            &&& 0 <= k < waiting.len()
            &&& waiting[i].split is Some && waiting[k].split is Some ==> {
                &&& waiting[i].split->0.info.gain.at_most(waiting[k].split->0.info.gain)
                &&& i < k ==> waiting[i].split->0.info.gain.less(waiting[k].split->0.info.gain)
            }
            &&& waiting[i].split is Some && waiting[k].split is None ==> waiting[i].split->0.info.gain.bits
                == 0xff80_0000
        }),
{
    lemma_largest_gain(waiting, waiting.len());
}

proof fn lemma_largest_gain(waiting: Seq<SplitCandidate>, n: nat)
    requires
        0 < n <= waiting.len(),
        forall|j: int|
            0 <= j < waiting.len() && (#[trigger] waiting[j]).split is Some ==> !waiting[j].split->0.info.gain.nan(),
    ensures
        0 <= best_place(waiting, n) < n,
        forall|i: int|
            0 <= i < n ==> (#[trigger] waiting[i]).expected_gain().at_most(
                waiting[best_place(waiting, n)].expected_gain(),
            ),
        forall|i: int|
            0 <= i < best_place(waiting, n) ==> (#[trigger] waiting[i]).expected_gain().less(
                waiting[best_place(waiting, n)].expected_gain(),
            ),
    decreases n,
{
    assert(forall|j: int| 0 <= j < waiting.len() ==> !(#[trigger] waiting[j]).expected_gain().nan());
    if n > 1 {
        lemma_largest_gain(waiting, (n - 1) as nat);
        assert(!waiting[n - 1].expected_gain().nan());
    } else {
        assert(!waiting[0].expected_gain().nan());
    }
}

/// The searches that a split asks for: one for each child, over the rows on its
/// side, with the sums of its side, and the smaller child first; both know the
/// features above them, the last of which is that of the split.
pub proof fn law_searches_are_for_the_children(
    pending: PendingSplit,
    candidate: SplitCandidate,
    left_child: int,
    left: nat,
)
    requires
        candidate.split is Some,
        candidate.row_start + left <= candidate.row_end,
        0 <= left_child,
        left_child + 1 <= usize::MAX,
        pending_for(pending, candidate, left_child, left),
    ensures
        ({
            let split = candidate.split->0.info;
            let left_task = if pending.smaller.node_idx == left_child {
                pending.smaller
            } else {
                pending.larger
            };
            let right_task = if pending.smaller.node_idx == left_child {
                pending.larger
            } else {
                pending.smaller
            };
            &&& pending.parent == candidate.node_idx
            &&& left_task.node_idx == left_child
            &&& right_task.node_idx == left_child + 1
            &&& left_task.row_start == candidate.row_start
            &&& left_task.row_end == candidate.row_start + left
            &&& right_task.row_start == candidate.row_start + left
            &&& right_task.row_end == candidate.row_end
            &&& left_task.gradient == split.left_gradient
            &&& left_task.hessian == split.left_hessian
            &&& right_task.gradient == split.right_gradient
            &&& right_task.hessian == split.right_hessian
            &&& pending.smaller.row_end - pending.smaller.row_start <= pending.larger.row_end
                - pending.larger.row_start
            &&& pending.ancestor_features@.len() == candidate.ancestor_features@.len() + 1
            &&& pending.ancestor_features@.last() == split.feature_idx
            &&& pending.ancestor_features@.drop_last() =~= candidate.ancestor_features@
        }),
{
}

/// Whether a node is the split that was handed in, and its children, where they
/// are leaves, hold the value and the sums of their side.
pub open spec fn holds_its_split(nodes: Seq<Node>, i: int, split: CandidateSplit) -> bool {
    let left = nodes[i].node_type->left_child as int;
    let right = nodes[i].node_type->right_child as int;
    &&& nodes[i].node_type->feature_idx == split.info.feature_idx
    &&& nodes[i].node_type->bin_threshold == split.info.bin_threshold
    &&& nodes[i].node_type->split_value == split.split_value
    &&& nodes[i].node_type->default_left == split.info.default_left
    &&& nodes[i].node_type->gain == split.info.gain
    &&& nodes[left].sum_gradients == split.info.left_gradient
    &&& nodes[left].sum_hessians == split.info.left_hessian
    &&& nodes[right].sum_gradients == split.info.right_gradient
    &&& nodes[right].sum_hessians == split.info.right_hessian
    &&& nodes[left].node_type is Leaf ==> nodes[left].node_type->value == split.left_value
    &&& nodes[right].node_type is Leaf ==> nodes[right].node_type->value == split.right_value
}

/// Whether every split of a tree was handed in and holds.
#[verifier::opaque]
spec fn splits_hold(nodes: Seq<Node>, handed: spec_fn(CandidateSplit) -> bool) -> bool {
    forall|i: int|
        0 <= i < nodes.len() && (#[trigger] nodes[i]).node_type is Internal ==> {
            &&& i < nodes[i].node_type->left_child < nodes.len()
            &&& i < nodes[i].node_type->right_child < nodes.len()
            &&& exists|split: CandidateSplit| #[trigger] handed(split) && holds_its_split(nodes, i, split)
        }
}

/// Splitting a leaf by a split that was handed in keeps that.
proof fn lemma_splits_hold_after(
    nodes: Seq<Node>,
    candidate: SplitCandidate,
    left: nat,
    handed: spec_fn(CandidateSplit) -> bool,
)
    requires
        splits_hold(nodes, handed),
        candidate.split is Some,
        handed(candidate.split->0),
        candidate.node_idx < nodes.len(),
        nodes[candidate.node_idx as int].node_type is Leaf,
        nodes.len() + 1 <= usize::MAX,
    ensures
        splits_hold(grown_nodes(nodes, candidate, left), handed),
{
    reveal(splits_hold);
    let c = candidate.node_idx as int;
    let after = grown_nodes(nodes, candidate, left);
    assert forall|i: int| 0 <= i < after.len() && (#[trigger] after[i]).node_type is Internal implies {
        &&& i < after[i].node_type->left_child < after.len()
        &&& i < after[i].node_type->right_child < after.len()
        &&& exists|split: CandidateSplit| #[trigger] handed(split) && holds_its_split(after, i, split)
    } by {
        if i == c {
            assert(holds_its_split(after, i, candidate.split->0));
        } else {
            assert(after[i] == nodes[i]);
            let split = choose|split: CandidateSplit| #[trigger] handed(split) && holds_its_split(nodes, i, split);
            assert(holds_its_split(after, i, split));
        }
    }
}

/// What a batch of splits leaves: nothing is split twice, nodes that are not
/// split stay, and the tree grows by two nodes for each split.
proof fn lemma_grown_by(
    data: BinnedDataset,
    nodes: Seq<Node>,
    rows: Seq<usize>,
    splits: Seq<SplitCandidate>,
    handed: spec_fn(CandidateSplit) -> bool,
)
    requires
        splits_hold(nodes, handed),
        nodes.len() + 2 * splits.len() <= usize::MAX,
        forall|j: int|
            0 <= j < splits.len() ==> {
                &&& (#[trigger] splits[j]).split is Some
                &&& handed(splits[j].split->0)
                &&& splits[j].node_idx < nodes.len()
                &&& nodes[splits[j].node_idx as int].node_type is Leaf
            },
        forall|j: int, k: int|
            0 <= j < k < splits.len() ==> (#[trigger] splits[j]).node_idx != (#[trigger] splits[k]).node_idx,
    ensures
        ({
            let after = grown_by(data, nodes, rows, splits);
            &&& splits_hold(after, handed)
            &&& after.len() == nodes.len() + 2 * splits.len()
            &&& forall|i: int|
                0 <= i < nodes.len() && (forall|j: int| 0 <= j < splits.len() ==> (#[trigger] splits[j]).node_idx != i)
                    ==> #[trigger] after[i] == nodes[i]
            &&& forall|j: int|
                0 <= j < splits.len() ==> after[(#[trigger] splits[j]).node_idx as int].node_type is Internal
        }),
    decreases splits.len(),
{
    if splits.len() > 0 {
        let fewer = splits.drop_last();
        let last = splits.last();
        assert forall|j: int| 0 <= j < fewer.len() implies {
            &&& (#[trigger] fewer[j]).split is Some
            &&& handed(fewer[j].split->0)
            &&& fewer[j].node_idx < nodes.len()
            &&& nodes[fewer[j].node_idx as int].node_type is Leaf
        } by {
            assert(fewer[j] == splits[j]);
        }
        assert forall|j: int, k: int| 0 <= j < k < fewer.len() implies (#[trigger] fewer[j]).node_idx != (
        #[trigger] fewer[k]).node_idx by {
            assert(fewer[j] == splits[j] && fewer[k] == splits[k]);
        }
        lemma_grown_by(data, nodes, rows, fewer, handed);
        let before = grown_by(data, nodes, rows, fewer);
        let c = last.node_idx as int;
        assert(splits[splits.len() - 1] == last);
        assert forall|j: int| 0 <= j < fewer.len() implies (#[trigger] fewer[j]).node_idx != c by {
            assert(fewer[j] == splits[j]);
        }
        assert(before[c] == nodes[c]);
        lemma_splits_hold_after(before, last, rows_left(data, rows, last), handed);
        let after = grown_by(data, nodes, rows, splits);
        assert forall|i: int|
            0 <= i < nodes.len() && (forall|j: int| 0 <= j < splits.len() ==> (#[trigger] splits[j]).node_idx
                != i) implies #[trigger] after[i] == nodes[i] by {
            assert(splits[splits.len() - 1].node_idx != i);
            assert forall|j: int| 0 <= j < fewer.len() implies (#[trigger] fewer[j]).node_idx != i by {
                assert(fewer[j] == splits[j]);
            }
            assert(before[i] == nodes[i]);
        }
        assert forall|j: int| 0 <= j < splits.len() implies after[(
        #[trigger] splits[j]).node_idx as int].node_type is Internal by {
            if j < fewer.len() {
                assert(fewer[j] == splits[j]);
                assert(before[fewer[j].node_idx as int].node_type is Internal);
            }
        }
    }
}

/// The splits that a growth was handed until a state: the one of the root, and
/// those that were found for the children of earlier batches.
pub open spec fn handed_in(
    root_split: Option<CandidateSplit>,
    found: Seq<Seq<ChildSplits>>,
    at: int,
    split: CandidateSplit,
) -> bool {
    ||| root_split == Some(split)
    ||| exists|j: int, i: int|
        0 <= j < at && 0 <= i < found[j].len() && (#[trigger] found[j][i].0 == Some(split) || found[j][i].1 == Some(
            split,
        ))
}

/// The place of the largest gain is one of the places.
proof fn lemma_place_in_range(waiting: Seq<SplitCandidate>, n: nat)
    requires
        0 < n <= waiting.len(),
    ensures
        0 <= best_place(waiting, n) < n,
    decreases n,
{
    if n > 1 {
        lemma_place_in_range(waiting, (n - 1) as nat);
    }
}

/// Whether no two candidates stand for one leaf.
spec fn separate(candidates: Seq<SplitCandidate>) -> bool {
    forall|i: int, j: int|
        0 <= i < j < candidates.len() ==> (#[trigger] candidates[i]).node_idx != (#[trigger] candidates[j]).node_idx
}

/// What is taken out and what is left were waiting, each for a leaf of its own.
proof fn lemma_drained_is_separate(waiting: Seq<SplitCandidate>, n: nat)
    requires
        n <= waiting.len(),
        separate(waiting),
    ensures
        ({
            let (taken, left) = drained(waiting, n);
            &&& taken.len() == n
            &&& left.len() == waiting.len() - n
            &&& separate(taken)
            &&& separate(left)
            &&& forall|i: int, j: int|
                0 <= i < taken.len() && 0 <= j < left.len() ==> (#[trigger] taken[i]).node_idx != (
                #[trigger] left[j]).node_idx
            &&& forall|i: int| 0 <= i < taken.len() ==> waiting.contains(#[trigger] taken[i])
            &&& forall|i: int| 0 <= i < left.len() ==> waiting.contains(#[trigger] left[i])
        }),
    decreases n,
{
    let (taken, left) = drained(waiting, n);
    if n == 0 {
        assert(forall|i: int| 0 <= i < left.len() ==> waiting.contains(#[trigger] left[i]));
    } else {
        lemma_drained_is_separate(waiting, (n - 1) as nat);
        let (before, rest) = drained(waiting, (n - 1) as nat);
        lemma_place_in_range(rest, rest.len());
        let k = best_place(rest, rest.len());
        assert(taken == before.push(rest[k]));
        assert(left == rest.remove(k));
        assert forall|i: int, j: int| 0 <= i < j < taken.len() implies (#[trigger] taken[i]).node_idx != (
        #[trigger] taken[j]).node_idx by {
            if j < before.len() {
                assert(before[i].node_idx != before[j].node_idx);
            } else {
                assert(before[i].node_idx != rest[k].node_idx);
            }
        }
        assert forall|i: int, j: int| 0 <= i < j < left.len() implies (#[trigger] left[i]).node_idx != (
        #[trigger] left[j]).node_idx by {
            let a = if i < k { i } else { i + 1 };
            let b = if j < k { j } else { j + 1 };
            assert(rest[a].node_idx != rest[b].node_idx);
        }
        assert forall|i: int, j: int| 0 <= i < taken.len() && 0 <= j < left.len() implies (
        #[trigger] taken[i]).node_idx != (#[trigger] left[j]).node_idx by {
            let b = if j < k { j } else { j + 1 };
            if i < before.len() {
                assert(before[i].node_idx != rest[b].node_idx);
            } else if b < k {
                assert(rest[b].node_idx != rest[k].node_idx);
            } else {
                assert(rest[k].node_idx != rest[b].node_idx);
            }
        }
        assert forall|i: int| 0 <= i < taken.len() implies waiting.contains(#[trigger] taken[i]) by {
            if i < before.len() {
                assert(waiting.contains(before[i]));
            } else {
                assert(waiting.contains(rest[k]));
            }
        }
        assert forall|i: int| 0 <= i < left.len() implies waiting.contains(#[trigger] left[i]) by {
            let a = if i < k { i } else { i + 1 };
            assert(waiting.contains(rest[a]));
        }
    }
}

/// What is split was taken, each for a leaf of its own.
proof fn lemma_split_is_separate(
    data: BinnedDataset,
    limits: GrowthLimits,
    nodes: Seq<Node>,
    rows: Seq<usize>,
    taken: Seq<SplitCandidate>,
)
    requires
        separate(taken),
    ensures
        separate(split_among(data, limits, nodes, rows, taken)),
        forall|j: int|
            0 <= j < split_among(data, limits, nodes, rows, taken).len() ==> {
                let candidate = #[trigger] split_among(data, limits, nodes, rows, taken)[j];
                taken.contains(candidate) && splittable(data, limits, nodes, rows, candidate)
            },
    decreases taken.len(),
{
    let splits = split_among(data, limits, nodes, rows, taken);
    assert forall|j: int| 0 <= j < splits.len() implies taken.contains(#[trigger] splits[j]) && splittable(
        data,
        limits,
        nodes,
        rows,
        splits[j],
    ) by {
        assert(splits.contains(splits[j]));
        lemma_split_among(data, limits, nodes, rows, taken, splits[j]);
    }
    if taken.len() > 0 {
        let shorter = taken.drop_last();
        let last = taken.last();
        assert forall|i: int, j: int| 0 <= i < j < shorter.len() implies (#[trigger] shorter[i]).node_idx != (
        #[trigger] shorter[j]).node_idx by {
            assert(taken[i].node_idx != taken[j].node_idx);
        }
        lemma_split_is_separate(data, limits, nodes, rows, shorter);
        let before = split_among(data, limits, nodes, rows, shorter);
        assert forall|i: int, j: int| 0 <= i < j < splits.len() implies (#[trigger] splits[i]).node_idx != (
        #[trigger] splits[j]).node_idx by {
            if j < before.len() {
                assert(before[i].node_idx != before[j].node_idx);
            } else {
                assert(shorter.contains(before[i]));
                let a = choose|a: int| 0 <= a < shorter.len() && shorter[a] == before[i];
                assert(taken[a].node_idx != taken[taken.len() - 1].node_idx);
            }
        }
    }
}

/// Whether a state has the splits that were handed in until then, and candidates
/// with no others.
#[verifier::opaque]
spec fn holds_until(
    growth: TreeGrowth<'_>,
    root: Node,
    root_split: Option<CandidateSplit>,
    found: Seq<Seq<ChildSplits>>,
    at: int,
) -> bool {
    &&& growth.wf()
    &&& splits_hold(growth.tree_nodes(), |split: CandidateSplit| handed_in(root_split, found, at, split))
    &&& growth.tree_nodes()[0].node_type is Leaf ==> growth.tree_nodes()[0] == root
    &&& forall|i: int|
        0 <= i < growth.waiting().len() && (#[trigger] growth.waiting()[i]).split is Some ==> handed_in(
            root_split,
            found,
            at,
            growth.waiting()[i].split->0,
        )
}

/// A batch keeps that.
proof fn lemma_batch_holds(
    before: TreeGrowth<'_>,
    after: TreeGrowth<'_>,
    batch_size: nat,
    taken: Seq<SplitCandidate>,
    root: Node,
    root_split: Option<CandidateSplit>,
    found: Seq<Seq<ChildSplits>>,
    at: int,
)
    requires
        before.collects(&after, batch_size, taken),
        holds_until(before, root, root_split, found, at),
    ensures
        holds_until(after, root, root_split, found, at),
{
    reveal(holds_until);
    let handed = |split: CandidateSplit| handed_in(root_split, found, at, split);
    let nodes = before.tree_nodes();
    let splits = split_among(before.dataset(), before.growth_limits(), nodes, before.rows(), taken);
    lemma_taken_was_waiting(before, after, taken);
    lemma_no_more_than_waiting(before.waiting(), taken, after.waiting());
    lemma_drained_is_separate(before.waiting(), taken.len());
    lemma_split_is_separate(before.dataset(), before.growth_limits(), nodes, before.rows(), taken);
    assert forall|j: int| 0 <= j < splits.len() implies {
        &&& (#[trigger] splits[j]).split is Some
        &&& handed(splits[j].split->0)
        &&& splits[j].node_idx < nodes.len()
        &&& nodes[splits[j].node_idx as int].node_type is Leaf
    } by {
        assert(taken.contains(splits[j]));
        let i = choose|i: int| 0 <= i < taken.len() && taken[i] == splits[j];
        assert(candidate_ok(nodes, before.node_facts(), before.dataset().features(), before.interaction(), taken[i]));
        assert(before.waiting().contains(taken[i]));
        let k = choose|k: int| 0 <= k < before.waiting().len() && before.waiting()[k] == taken[i];
        assert(before.waiting()[k].split is Some);
    }
    lemma_grown_by(before.dataset(), nodes, before.rows(), splits, handed);
    if after.tree_nodes()[0].node_type is Leaf {
        assert(forall|j: int| 0 <= j < splits.len() ==> (#[trigger] splits[j]).node_idx != 0);
        assert(after.tree_nodes()[0] == nodes[0]);
    }
    assert forall|i: int|
        0 <= i < after.waiting().len() && (#[trigger] after.waiting()[i]).split is Some implies handed_in(
        root_split,
        found,
        at,
        after.waiting()[i].split->0,
    ) by {
        assert(before.waiting().contains(after.waiting()[i]));
        let k = choose|k: int| 0 <= k < before.waiting().len() && before.waiting()[k] == after.waiting()[i];
        assert(before.waiting()[k].split is Some);
    }
}

/// Finishing a batch with the splits that were found keeps that.
proof fn lemma_finish_holds(
    before: TreeGrowth<'_>,
    after: TreeGrowth<'_>,
    root: Node,
    root_split: Option<CandidateSplit>,
    found: Seq<Seq<ChildSplits>>,
    at: int,
)
    requires
        0 <= at < found.len(),
        before.finishes(&after, found[at]),
        holds_until(before, root, root_split, found, at),
    ensures
        holds_until(after, root, root_split, found, at + 1),
{
    reveal(holds_until);
    reveal(splits_hold);
    let earlier = |split: CandidateSplit| handed_in(root_split, found, at, split);
    let handed = |split: CandidateSplit| handed_in(root_split, found, at + 1, split);
    let nodes = after.tree_nodes();
    assert(splits_hold(nodes, earlier));
    assert forall|i: int| 0 <= i < nodes.len() && (#[trigger] nodes[i]).node_type is Internal implies exists|
        split: CandidateSplit,
    | #[trigger]
        handed(split) && holds_its_split(nodes, i, split) by {
        let split = choose|split: CandidateSplit| #[trigger] earlier(split) && holds_its_split(nodes, i, split);
        assert(handed(split));
    }
    assert(splits_hold(nodes, handed));
    let n = before.waiting().len() as int;
    assert forall|i: int|
        0 <= i < after.waiting().len() && (#[trigger] after.waiting()[i]).split is Some implies handed_in(
        root_split,
        found,
        at + 1,
        after.waiting()[i].split->0,
    ) by {
        if i < n {
            assert(after.waiting().take(n)[i] == before.waiting()[i]);
            assert(before.waiting()[i].split is Some);
            assert(handed_in(root_split, found, at, before.waiting()[i].split->0));
        } else {
            let m = (i - n) / 2;
            let pending = before.to_search()[m];
            let here = n + 2 * m;
            assert(i == here || i == here + 1);
            let pair = found[at][m];
            assert(found[at][m].0 == pair.0);
        }
    }
}

/// A growth starts that way.
proof fn lemma_start_holds(
    growth: TreeGrowth<'_>,
    root: Node,
    root_split: Option<CandidateSplit>,
    found: Seq<Seq<ChildSplits>>,
)
    requires
        growth.wf(),
        growth.starts_with(root, root_split),
        root.node_type is Leaf,
    ensures
        holds_until(growth, root, root_split, found, 0),
{
    reveal(holds_until);
    reveal(splits_hold);
}

proof fn lemma_growth_holds(
    states: Seq<TreeGrowth<'_>>,
    collected: Seq<TreeGrowth<'_>>,
    batch_size: nat,
    found: Seq<Seq<ChildSplits>>,
    root: Node,
    root_split: Option<CandidateSplit>,
    at: int,
)
    requires
        grows_through(states, collected, batch_size, found),
        states[0].wf(),
        states[0].starts_with(root, root_split),
        root.node_type is Leaf,
        0 <= at < states.len(),
    ensures
        holds_until(states[at], root, root_split, found, at),
        at < collected.len() ==> holds_until(collected[at], root, root_split, found, at),
    decreases at,
{
    if at == 0 {
        lemma_start_holds(states[0], root, root_split, found);
    } else {
        lemma_growth_holds(states, collected, batch_size, found, root, root_split, at - 1);
        assert(collected[at - 1].finishes(&states[at], found[at - 1]));
        lemma_finish_holds(collected[at - 1], states[at], root, root_split, found, at - 1);
    }
    if at < collected.len() {
        assert(one_batch(states[at], collected[at], batch_size));
        let taken = choose|taken: Seq<SplitCandidate>| #[trigger]
            states[at].collects(&collected[at], batch_size, taken);
        lemma_batch_holds(states[at], collected[at], batch_size, taken, root, root_split, found, at);
    }
}

/// The node from which a row comes to its leaf.
proof fn lemma_last_step(data: BinnedDataset, nodes: Seq<Node>, i: int, row: usize) -> (parent: int)
    requires
        0 <= i < nodes.len(),
        forall|j: int|
            0 <= j < nodes.len() && (#[trigger] nodes[j]).node_type is Internal ==> j < nodes[j].node_type->left_child
                < nodes.len() && j < nodes[j].node_type->right_child < nodes.len(),
    ensures
        ({
            let leaf = leaf_of(data, nodes, i, row);
            &&& i <= leaf < nodes.len()
            &&& nodes[leaf].node_type is Leaf
            &&& leaf == i || {
                &&& i <= parent < leaf
                &&& nodes[parent].node_type is Internal
                &&& leaf == if goes_left(
                    data,
                    nodes[parent].node_type->feature_idx as int,
                    nodes[parent].node_type->bin_threshold,
                    nodes[parent].node_type->default_left,
                    row,
                ) {
                    nodes[parent].node_type->left_child
                } else {
                    nodes[parent].node_type->right_child
                }
            }
        }),
    decreases nodes.len() - i,
{
    if nodes[i].node_type is Internal {
        let next = if goes_left(
            data,
            nodes[i].node_type->feature_idx as int,
            nodes[i].node_type->bin_threshold,
            nodes[i].node_type->default_left,
            row,
        ) {
            nodes[i].node_type->left_child as int
        } else {
            nodes[i].node_type->right_child as int
        };
        let parent = lemma_last_step(data, nodes, next, row);
        if leaf_of(data, nodes, next, row) == next {
            i
        } else {
            parent
        }
    } else {
        i
    }
}

/// Whether the leaf of a row is the root, as it started, or hangs below a split
/// that was handed in, on the side on which the row lies, and holds the value and
/// the sums that were handed in for that side.
pub open spec fn leaf_is_told(
    data: BinnedDataset,
    nodes: Seq<Node>,
    row: usize,
    root: Node,
    root_split: Option<CandidateSplit>,
    found: Seq<Seq<ChildSplits>>,
    at: int,
) -> bool {
    let leaf = leaf_of(data, nodes, 0, row);
    &&& 0 <= leaf < nodes.len()
    &&& nodes[leaf].node_type is Leaf
    &&& leaf == 0 ==> nodes[leaf] == root
    &&& leaf != 0 ==> exists|parent: int, split: CandidateSplit|
        {
            let bin = data.bin(row as int, split.info.feature_idx as int);
            let on_the_left = if bin == 0 {
                split.info.default_left
            } else {
                bin <= split.info.bin_threshold
            };
            let node = nodes[parent].node_type;
            &&& #[trigger] holds_its_split(nodes, parent, split)
            &&& handed_in(root_split, found, at, split)
            &&& 0 <= parent < leaf
            &&& node is Internal
            &&& node->feature_idx == split.info.feature_idx
            &&& node->bin_threshold == split.info.bin_threshold
            &&& node->default_left == split.info.default_left
            &&& node->split_value == split.split_value
            &&& on_the_left ==> {
                &&& leaf == node->left_child
                &&& nodes[leaf].node_type->value == split.left_value
                &&& nodes[leaf].sum_gradients == split.info.left_gradient
                &&& nodes[leaf].sum_hessians == split.info.left_hessian
            }
            &&& !on_the_left ==> {
                &&& leaf == node->right_child
                &&& nodes[leaf].node_type->value == split.right_value
                &&& nodes[leaf].sum_gradients == split.info.right_gradient
                &&& nodes[leaf].sum_hessians == split.info.right_hessian
            }
        }
}

/// In every tree of a growth, the finished one with the others, the leaf that a
/// row comes to holds the value and the sums of the side of a split on which the
/// row lies. That split was handed in: for the root, or found for a child in an
/// earlier batch.
pub proof fn law_leaves_hold_the_value_of_their_side(
    states: Seq<TreeGrowth<'_>>,
    collected: Seq<TreeGrowth<'_>>,
    batch_size: nat,
    found: Seq<Seq<ChildSplits>>,
    root: Node,
    root_split: Option<CandidateSplit>,
    at: int,
    row: usize,
)
    requires
        grows_through(states, collected, batch_size, found),
        states[0].wf(),
        states[0].starts_with(root, root_split),
        root.node_type is Leaf,
        0 <= at < states.len(),
    ensures
        leaf_is_told(states[at].dataset(), states[at].tree_nodes(), row, root, root_split, found, at),
        at < collected.len() ==> leaf_is_told(
            collected[at].dataset(),
            collected[at].tree_nodes(),
            row,
            root,
            root_split,
            found,
            at,
        ),
{
    lemma_growth_holds(states, collected, batch_size, found, root, root_split, at);
    lemma_leaf_is_told(states[at], row, root, root_split, found, at);
    if at < collected.len() {
        lemma_leaf_is_told(collected[at], row, root, root_split, found, at);
    }
}

proof fn lemma_leaf_is_told(
    growth: TreeGrowth<'_>,
    row: usize,
    root: Node,
    root_split: Option<CandidateSplit>,
    found: Seq<Seq<ChildSplits>>,
    at: int,
)
    requires
        holds_until(growth, root, root_split, found, at),
    ensures
        leaf_is_told(growth.dataset(), growth.tree_nodes(), row, root, root_split, found, at),
{
    reveal(holds_until);
    reveal(splits_hold);
    let nodes = growth.tree_nodes();
    let data = growth.dataset();
    let handed = |split: CandidateSplit| handed_in(root_split, found, at, split);
    let parent = lemma_last_step(data, nodes, 0, row);
    let leaf = leaf_of(data, nodes, 0, row);
    if leaf != 0 {
        assert(nodes[parent].node_type is Internal);
        let split = choose|split: CandidateSplit| #[trigger] handed(split) && holds_its_split(nodes, parent, split);
        assert(handed(split));
        assert(links_ok(nodes, growth.node_facts(), data.features(), parent));
        assert(holds_its_split(nodes, parent, split));
    }
}

/// How far a batch goes: it splits no more leaves than its size, and no more than
/// the tree may have; it stops before that only when nothing waits any more; and
/// the children of the last split are not searched when the tree is full.
pub proof fn law_batch_stops_in_time(
    before: TreeGrowth<'_>,
    after: TreeGrowth<'_>,
    batch_size: nat,
    taken: Seq<SplitCandidate>,
)
    requires
        before.wf(),
        before.collects(&after, batch_size, taken),
    ensures
        ({
            let grown = after.leaves() - before.leaves();
            let most = after.growth_limits().max_leaves;
            &&& 0 <= grown <= batch_size
            &&& grown > 0 ==> after.leaves() <= most
            &&& grown == batch_size || after.leaves() >= most || after.waiting().len() == 0
            &&& after.tree_nodes().len() == before.tree_nodes().len() + 2 * grown
            &&& after.leaves() < most ==> after.to_search().len() == grown
            &&& after.leaves() == most && grown > 0 ==> after.to_search().len() == grown - 1
        }),
{
    lemma_no_more_than_waiting(before.waiting(), taken, after.waiting());
    let data = before.dataset();
    let limits = before.growth_limits();
    let nodes = before.tree_nodes();
    let rows = before.rows();
    let splits = split_among(data, limits, nodes, rows, taken);
    if taken.len() > 0 {
        let fewer = taken.drop_last();
        assert(fewer =~= taken.take(taken.len() - 1));
        assert(before.goes_on(batch_size, taken.take(taken.len() - 1)));
    }
}

/// Partitioning only moves rows about: outside the stretch none moves, and inside
/// it the same rows stand as before, each as often.
pub proof fn law_partitioning_keeps_the_rows(before: Seq<usize>, after: Seq<usize>, start: int, end: int, k: int, row: usize)
    requires
        reordered(before, after, start, end),
        0 <= start <= end <= before.len(),
        0 <= k < before.len(),
    ensures
        after.len() == before.len(),
        k < start || end <= k ==> after[k] == before[k],
        after.subrange(start, end).to_multiset().count(row) == before.subrange(start, end).to_multiset().count(row),
        after.contains(row) <==> before.contains(row),
{
    vstd::seq_lib::to_multiset_contains(before, row);
    vstd::seq_lib::to_multiset_contains(after, row);
}

/// A growth starts with its root as the only leaf, which waits with all rows and
/// the split that was found for it.
pub proof fn law_growth_starts_at_the_root(growth: TreeGrowth<'_>, root: Node, split: Option<CandidateSplit>)
    requires
        growth.starts_with(root, split),
    ensures
        growth.leaves() == 1,
        growth.tree_nodes().len() == 1 && growth.tree_nodes()[0] == root,
        growth.to_search().len() == 0,
        growth.waiting().len() == 1,
        growth.waiting()[0].node_idx == 0,
        growth.waiting()[0].row_start == 0,
        growth.waiting()[0].row_end == growth.rows().len(),
        growth.waiting()[0].split == split,
        growth.waiting()[0].ancestor_features@.len() == 0,
{
}

/// A batch takes the candidates with the largest gains, in falling order: what
/// still waits has no larger gain than what was taken.
pub proof fn law_batch_takes_the_largest_gains(
    waiting: Seq<SplitCandidate>,
    taken: Seq<SplitCandidate>,
    still_waiting: Seq<SplitCandidate>,
    i: int,
    j: int,
)
    requires
        taken_in_order(waiting, taken, still_waiting),
        0 <= i < taken.len(),
        taken[i].split is Some,
    ensures
        i < j < taken.len() && taken[j].split is Some ==> !taken[i].split->0.info.gain.less(
            taken[j].split->0.info.gain,
        ),
        0 <= j < still_waiting.len() && still_waiting[j].split is Some ==> !taken[i].split->0.info.gain.less(
            still_waiting[j].split->0.info.gain,
        ),
        taken.len() + still_waiting.len() == waiting.len(),
        waiting.contains(taken[i]),
{
    lemma_no_more_than_waiting(waiting, taken, still_waiting);
    assert(taken.contains(taken[i]));
    vstd::seq_lib::to_multiset_contains(taken, taken[i]);
    vstd::seq_lib::to_multiset_contains(waiting, taken[i]);
    if i < j < taken.len() {
        assert(!taken[i].expected_gain().less(taken[j].expected_gain()));
    }
    if 0 <= j < still_waiting.len() {
        assert(!taken[i].expected_gain().less(still_waiting[j].expected_gain()));
    }
}

/// What was found for the children of a batch waits behind what waited before:
/// for each split first the smaller child with the first split that was found for
/// it, then the larger one with the second. The tree stays as it is.
pub proof fn law_found_splits_wait_for_their_children(
    before: TreeGrowth<'_>,
    after: TreeGrowth<'_>,
    splits: Seq<ChildSplits>,
    i: int,
    j: int,
)
    requires
        before.finishes(&after, splits),
        0 <= i < splits.len(),
    ensures
        after.tree_nodes() == before.tree_nodes(),
        after.leaves() == before.leaves(),
        after.rows() == before.rows(),
        after.to_search().len() == 0,
        after.waiting().len() == before.waiting().len() + 2 * splits.len(),
        0 <= j < before.waiting().len() ==> after.waiting()[j] == before.waiting()[j],
        ({
            let first = after.waiting()[before.waiting().len() + 2 * i];
            let second = after.waiting()[before.waiting().len() + 2 * i + 1];
            let pending = before.to_search()[i];
            &&& first.node_idx == pending.smaller.node_idx
            &&& first.row_start == pending.smaller.row_start
            &&& first.row_end == pending.smaller.row_end
            &&& first.split == splits[i].0
            &&& first.ancestor_features@ == pending.ancestor_features@
            &&& second.node_idx == pending.larger.node_idx
            &&& second.row_start == pending.larger.row_start
            &&& second.row_end == pending.larger.row_end
            &&& second.split == splits[i].1
            &&& second.ancestor_features@ == pending.ancestor_features@
        }),
{
    let pending = before.to_search()[i];
    if 0 <= j < before.waiting().len() {
        assert(after.waiting().take(before.waiting().len() as int)[j] == before.waiting()[j]);
    }
}

/// A tree can grow while a candidate waits and it has fewer leaves than it may
/// have.
pub proof fn law_growing_trees(growth: TreeGrowth<'_>)
    ensures
        growth.can_grow() <==> growth.waiting().len() >= 1 && growth.leaves() + 1
            <= growth.growth_limits().max_leaves,
{
}

} // verus!
