//! What a growing tree always is: a binary tree whose leaves share out the
//! rows, every row in the leaf that its bins lead to.

use crate::dataset::BinnedDataset;
use crate::seqs::{count_where, lemma_count_where_update};
use crate::tree::node::Node;
use crate::tree::partition::{goes_left, reordered};
use vstd::prelude::*;

verus! {

/// What is known of a node beside its fields: where its rows lie in the array
/// of row indices, and which features the splits above it use, root first.
pub ghost struct NodeFacts {
    /// Where the node's rows start.
    pub start: int,
    /// Where the node's rows end.
    pub end: int,
    /// The features of the splits above the node.
    pub path: Seq<usize>,
}

/// Two nodes without common rows.
pub open spec fn apart(a: NodeFacts, b: NodeFacts) -> bool {
    a.end <= b.start || b.end <= a.start
}

/// A node whose rows are all rows of another.
pub open spec fn inside(a: NodeFacts, b: NodeFacts) -> bool {
    b.start <= a.start && a.end <= b.end
}

/// Whether the fields of node `i` agree with what is known of it.
pub open spec fn node_fits(nodes: Seq<Node>, facts: Seq<NodeFacts>, i: int, total: int, max_depth: nat) -> bool {
    &&& 0 <= facts[i].start <= facts[i].end <= total
    &&& nodes[i].num_samples == facts[i].end - facts[i].start
    &&& nodes[i].depth == facts[i].path.len()
    &&& nodes[i].depth == 0 || nodes[i].depth <= max_depth
}

/// Whether a split at `i` has two children further down the list that share
/// its rows and have its feature on their path.
pub open spec fn links_ok(nodes: Seq<Node>, facts: Seq<NodeFacts>, features: nat, i: int) -> bool {
    nodes[i].node_type is Internal ==> {
        let left = nodes[i].node_type->left_child as int;
        let right = nodes[i].node_type->right_child as int;
        let feature = nodes[i].node_type->feature_idx;
        &&& feature < features
        &&& i < left
        &&& left % 2 == 1
        &&& right == left + 1
        &&& right < nodes.len()
        &&& facts[left].start == facts[i].start
        &&& facts[left].end == facts[right].start
        &&& facts[right].end == facts[i].end
        &&& facts[left].path == facts[i].path.push(feature)
        &&& facts[right].path == facts[i].path.push(feature)
    }
}

/// Whether the rows of a split's children are on the right side of it.
pub open spec fn rows_sorted_at(
    data: BinnedDataset,
    nodes: Seq<Node>,
    facts: Seq<NodeFacts>,
    rows: Seq<usize>,
    i: int,
) -> bool {
    nodes[i].node_type is Internal ==> {
        let left = facts[nodes[i].node_type->left_child as int];
        let right = facts[nodes[i].node_type->right_child as int];
        let feature = nodes[i].node_type->feature_idx as int;
        let threshold = nodes[i].node_type->bin_threshold;
        let missing_left = nodes[i].node_type->default_left;
        &&& forall|k: int| left.start <= k < left.end ==> goes_left(data, feature, threshold, missing_left, #[trigger] rows[k])
        &&& forall|k: int| right.start <= k < right.end ==> !goes_left(data, feature, threshold, missing_left, #[trigger] rows[k])
    }
}

/// Whether a leaf shares no rows with another node, or lies inside a split.
pub open spec fn leaf_placed(nodes: Seq<Node>, facts: Seq<NodeFacts>, c: int, j: int) -> bool {
    nodes[c].node_type is Leaf && c != j ==> {
        ||| apart(facts[c], facts[j])
        ||| nodes[j].node_type is Internal && inside(facts[c], facts[j])
    }
}

/// Whether `j` is a child of `i`.
pub open spec fn is_child(nodes: Seq<Node>, i: int, j: int) -> bool {
    &&& nodes[i].node_type is Internal
    &&& nodes[i].node_type->left_child == j || nodes[i].node_type->right_child == j
}

/// Whether a node below the root is the child of an earlier node.
pub open spec fn has_parent(nodes: Seq<Node>, j: int) -> bool {
    exists|i: int| 0 <= i < j && #[trigger] is_child(nodes, i, j)
}

/// Whether two splits have different children.
pub open spec fn no_shared_children(nodes: Seq<Node>, i: int, j: int) -> bool {
    i != j && nodes[i].node_type is Internal && nodes[j].node_type is Internal ==> nodes[i].node_type->left_child
        != nodes[j].node_type->left_child
}

/// Whether nodes, their rows and their paths form a tree over `rows`.
pub open spec fn tree_ok(
    data: BinnedDataset,
    nodes: Seq<Node>,
    facts: Seq<NodeFacts>,
    rows: Seq<usize>,
    max_depth: nat,
) -> bool {
    &&& nodes.len() == facts.len()
    &&& nodes.len() % 2 == 1
    &&& facts[0].start == 0
    &&& facts[0].end == rows.len()
    &&& facts[0].path.len() == 0
    &&& forall|i: int| 0 <= i < nodes.len() ==> #[trigger] node_fits(nodes, facts, i, rows.len() as int, max_depth)
    &&& forall|i: int| 0 <= i < nodes.len() ==> #[trigger] links_ok(nodes, facts, data.features(), i)
    &&& forall|i: int| 0 <= i < nodes.len() ==> #[trigger] rows_sorted_at(data, nodes, facts, rows, i)
    &&& forall|c: int, j: int|
        0 <= c < nodes.len() && 0 <= j < nodes.len() ==> #[trigger] leaf_placed(nodes, facts, c, j)
    &&& forall|j: int| 1 <= j < nodes.len() ==> #[trigger] has_parent(nodes, j)
    &&& forall|i: int, j: int|
        0 <= i < nodes.len() && 0 <= j < nodes.len() ==> #[trigger] no_shared_children(nodes, i, j)
    &&& forall|k: int| 0 <= k < rows.len() ==> #[trigger] rows[k] < data.rows()
}

/// Every item of a reordered stretch comes from that stretch.
pub proof fn lemma_reordered_member(before: Seq<usize>, after: Seq<usize>, start: int, end: int, k: int) -> (from: int)
    requires
        reordered(before, after, start, end),
        0 <= start <= k < end <= before.len(),
    ensures
        start <= from < end,
        after[k] == before[from],
{
    broadcast use vstd::seq_lib::group_to_multiset_ensures;

    let old_range = before.subrange(start, end);
    let new_range = after.subrange(start, end);
    assert(new_range[k - start] == after[k]);
    assert(new_range.contains(after[k]));
    assert(new_range.to_multiset().count(after[k]) > 0);
    assert(old_range.to_multiset().count(after[k]) > 0);
    assert(old_range.contains(after[k]));
    let at = choose|i: int| 0 <= i < old_range.len() && old_range[i] == after[k];
    start + at
}

/// Reordering the rows of a leaf leaves every row on the right side of every
/// split.
proof fn lemma_reorder_keeps_sorted(
    data: BinnedDataset,
    nodes: Seq<Node>,
    facts: Seq<NodeFacts>,
    before: Seq<usize>,
    after: Seq<usize>,
    max_depth: nat,
    c: int,
    i: int,
)
    requires
        tree_ok(data, nodes, facts, before, max_depth),
        0 <= c < nodes.len(),
        nodes[c].node_type is Leaf,
        reordered(before, after, facts[c].start, facts[c].end),
        0 <= i < nodes.len(),
    ensures
        rows_sorted_at(data, nodes, facts, after, i),
{
    if nodes[i].node_type is Internal {
        let left = nodes[i].node_type->left_child as int;
        let right = nodes[i].node_type->right_child as int;
        let feature = nodes[i].node_type->feature_idx as int;
        let threshold = nodes[i].node_type->bin_threshold;
        let missing_left = nodes[i].node_type->default_left;
        assert(links_ok(nodes, facts, data.features(), i));
        assert(rows_sorted_at(data, nodes, facts, before, i));
        assert(node_fits(nodes, facts, c, before.len() as int, max_depth));
        assert(node_fits(nodes, facts, left, before.len() as int, max_depth));
        assert(node_fits(nodes, facts, right, before.len() as int, max_depth));
        assert(leaf_placed(nodes, facts, c, left));
        assert(leaf_placed(nodes, facts, c, right));
        assert forall|k: int| facts[left].start <= k < facts[left].end implies goes_left(
            data,
            feature,
            threshold,
            missing_left,
            #[trigger] after[k],
        ) by {
            if facts[c].start <= k < facts[c].end {
                let from = lemma_reordered_member(before, after, facts[c].start, facts[c].end, k);
                assert(goes_left(data, feature, threshold, missing_left, before[from]));
            } else {
                assert(after[k] == before[k]);
            }
        }
        assert forall|k: int| facts[right].start <= k < facts[right].end implies !goes_left(
            data,
            feature,
            threshold,
            missing_left,
            #[trigger] after[k],
        ) by {
            if facts[c].start <= k < facts[c].end {
                let from = lemma_reordered_member(before, after, facts[c].start, facts[c].end, k);
                assert(!goes_left(data, feature, threshold, missing_left, before[from]));
            } else {
                assert(after[k] == before[k]);
            }
        }
    }
}

/// Reordering the rows of a leaf keeps the tree.
pub proof fn lemma_reorder_keeps_tree(
    data: BinnedDataset,
    nodes: Seq<Node>,
    facts: Seq<NodeFacts>,
    before: Seq<usize>,
    after: Seq<usize>,
    max_depth: nat,
    c: int,
)
    requires
        tree_ok(data, nodes, facts, before, max_depth),
        0 <= c < nodes.len(),
        nodes[c].node_type is Leaf,
        reordered(before, after, facts[c].start, facts[c].end),
    ensures
        tree_ok(data, nodes, facts, after, max_depth),
{
    assert forall|i: int| 0 <= i < nodes.len() implies #[trigger] rows_sorted_at(data, nodes, facts, after, i) by {
        lemma_reorder_keeps_sorted(data, nodes, facts, before, after, max_depth, c, i);
    }
    assert(node_fits(nodes, facts, c, before.len() as int, max_depth));
    assert forall|k: int| 0 <= k < after.len() implies #[trigger] after[k] < data.rows() by {
        if facts[c].start <= k < facts[c].end {
            let from = lemma_reordered_member(before, after, facts[c].start, facts[c].end, k);
            assert(before[from] < data.rows());
        } else {
            assert(after[k] == before[k]);
        }
    }
    assert forall|i: int| 0 <= i < nodes.len() implies #[trigger] node_fits(
        nodes,
        facts,
        i,
        after.len() as int,
        max_depth,
    ) by {
        assert(node_fits(nodes, facts, i, before.len() as int, max_depth));
    }
}

/// The nodes after the leaf at `c` was split: it becomes `split`, and its two
/// children are appended.
pub open spec fn split_nodes(nodes: Seq<Node>, c: int, split: Node, left: Node, right: Node) -> Seq<Node> {
    nodes.update(c, split).push(left).push(right)
}

/// What is known of the nodes after the leaf at `c` was split at `mid`.
pub open spec fn split_facts(facts: Seq<NodeFacts>, c: int, mid: int, feature: usize) -> Seq<NodeFacts> {
    facts.push(
        NodeFacts { start: facts[c].start, end: mid, path: facts[c].path.push(feature) },
    ).push(NodeFacts { start: mid, end: facts[c].end, path: facts[c].path.push(feature) })
}

/// Whether `split`, `left` and `right` are what the leaf at `c` turns into
/// when it is split at `mid`.
pub open spec fn split_fields_ok(
    nodes: Seq<Node>,
    facts: Seq<NodeFacts>,
    features: nat,
    c: int,
    mid: int,
    split: Node,
    left: Node,
    right: Node,
) -> bool {
    &&& split.node_type is Internal
    &&& split.node_type->left_child == nodes.len()
    &&& split.node_type->right_child == nodes.len() + 1
    &&& split.node_type->feature_idx < features
    &&& split.depth == nodes[c].depth
    &&& split.num_samples == nodes[c].num_samples
    &&& left.node_type is Leaf
    &&& right.node_type is Leaf
    &&& left.depth == nodes[c].depth + 1
    &&& right.depth == nodes[c].depth + 1
    &&& left.num_samples == mid - facts[c].start
    &&& right.num_samples == facts[c].end - mid
}

/// Splitting a leaf whose rows are partitioned at `mid` keeps the tree.
pub proof fn lemma_split_keeps_tree(
    data: BinnedDataset,
    nodes: Seq<Node>,
    facts: Seq<NodeFacts>,
    rows: Seq<usize>,
    max_depth: nat,
    c: int,
    mid: int,
    split: Node,
    left: Node,
    right: Node,
)
    requires
        tree_ok(data, nodes, facts, rows, max_depth),
        0 <= c < nodes.len(),
        nodes[c].node_type is Leaf,
        nodes[c].depth < max_depth,
        facts[c].start <= mid <= facts[c].end,
        split_fields_ok(nodes, facts, data.features(), c, mid, split, left, right),
        forall|k: int|
            facts[c].start <= k < mid ==> goes_left(
                data,
                split.node_type->feature_idx as int,
                split.node_type->bin_threshold,
                split.node_type->default_left,
                #[trigger] rows[k],
            ),
        forall|k: int|
            mid <= k < facts[c].end ==> !goes_left(
                data,
                split.node_type->feature_idx as int,
                split.node_type->bin_threshold,
                split.node_type->default_left,
                #[trigger] rows[k],
            ),
    ensures
        tree_ok(
            data,
            split_nodes(nodes, c, split, left, right),
            split_facts(facts, c, mid, split.node_type->feature_idx),
            rows,
            max_depth,
        ),
{
    let n = nodes.len() as int;
    let total = rows.len() as int;
    let feature = split.node_type->feature_idx;
    let new_nodes = split_nodes(nodes, c, split, left, right);
    let new_facts = split_facts(facts, c, mid, feature);
    assert(node_fits(nodes, facts, c, total, max_depth));
    assert forall|i: int| 0 <= i < new_nodes.len() implies #[trigger] node_fits(
        new_nodes,
        new_facts,
        i,
        total,
        max_depth,
    ) by {
        if i < n {
            assert(node_fits(nodes, facts, i, total, max_depth));
        }
    }
    assert forall|i: int| 0 <= i < new_nodes.len() implies #[trigger] links_ok(
        new_nodes,
        new_facts,
        data.features(),
        i,
    ) by {
        if i < n {
            assert(links_ok(nodes, facts, data.features(), i));
        }
    }
    assert forall|i: int| 0 <= i < new_nodes.len() implies #[trigger] rows_sorted_at(
        data,
        new_nodes,
        new_facts,
        rows,
        i,
    ) by {
        if i < n {
            assert(links_ok(nodes, facts, data.features(), i));
            assert(rows_sorted_at(data, nodes, facts, rows, i));
        }
    }
    assert forall|d: int, j: int| 0 <= d < new_nodes.len() && 0 <= j < new_nodes.len() implies #[trigger] leaf_placed(
        new_nodes,
        new_facts,
        d,
        j,
    ) by {
        if d < n {
            assert(leaf_placed(nodes, facts, d, c));
            if j < n {
                assert(leaf_placed(nodes, facts, d, j));
            }
        } else if j < n {
            assert(leaf_placed(nodes, facts, c, j));
        }
    }
    assert forall|j: int| 1 <= j < new_nodes.len() implies #[trigger] has_parent(new_nodes, j) by {
        if j < n {
            assert(has_parent(nodes, j));
            let i = choose|i: int| 0 <= i < j && #[trigger] is_child(nodes, i, j);
            assert(is_child(new_nodes, i, j));
        } else {
            assert(is_child(new_nodes, c, j));
        }
    }
    assert forall|i: int, j: int|
        0 <= i < new_nodes.len() && 0 <= j < new_nodes.len() implies #[trigger] no_shared_children(new_nodes, i, j) by {
        if i < n && j < n {
            assert(no_shared_children(nodes, i, j));
            assert(links_ok(nodes, facts, data.features(), i));
            assert(links_ok(nodes, facts, data.features(), j));
        }
    }
}

/// Splitting a leaf adds one leaf.
pub proof fn lemma_split_adds_a_leaf(nodes: Seq<Node>, c: int, split: Node, left: Node, right: Node)
    requires
        0 <= c < nodes.len(),
        nodes[c].node_type is Leaf,
        split.node_type is Internal,
        left.node_type is Leaf,
        right.node_type is Leaf,
    ensures
        leaf_count(split_nodes(nodes, c, split, left, right)) == leaf_count(nodes) + 1,
{
    let is_leaf = |node: Node| node.node_type is Leaf;
    let updated = nodes.update(c, split);
    lemma_count_where_update(nodes, c, split, is_leaf);
    assert(updated.push(left).drop_last() =~= updated);
    assert(updated.push(left).push(right).drop_last() =~= updated.push(left));
    assert(count_where(updated.push(left), is_leaf) == count_where(updated, is_leaf) + 1);
    assert(count_where(updated.push(left).push(right), is_leaf) == count_where(updated.push(left), is_leaf) + 1);
}

/// How many nodes are leaves.
pub open spec fn leaf_count(nodes: Seq<Node>) -> nat {
    count_where(nodes, |node: Node| node.node_type is Leaf)
}

/// The leaf that a row's bins lead to from node `i`.
pub open spec fn leaf_of(data: BinnedDataset, nodes: Seq<Node>, i: int, row: usize) -> int
    decreases nodes.len() - i,
{
    if 0 <= i < nodes.len() && nodes[i].node_type is Internal {
        let left = nodes[i].node_type->left_child as int;
        let right = nodes[i].node_type->right_child as int;
        let next = if goes_left(
            data,
            nodes[i].node_type->feature_idx as int,
            nodes[i].node_type->bin_threshold,
            nodes[i].node_type->default_left,
            row,
        ) {
            left
        } else {
            right
        };
        if i < next < nodes.len() {
            leaf_of(data, nodes, next, row)
        } else {
            i
        }
    } else {
        i
    }
}

/// Every row lies in the leaf that its bins lead to: following the splits from
/// a node with any of its rows ends in a leaf among whose rows it is.
pub proof fn law_rows_lie_in_their_leaf(
    data: BinnedDataset,
    nodes: Seq<Node>,
    facts: Seq<NodeFacts>,
    rows: Seq<usize>,
    max_depth: nat,
    i: int,
    k: int,
)
    requires
        tree_ok(data, nodes, facts, rows, max_depth),
        0 <= i < nodes.len(),
        facts[i].start <= k < facts[i].end,
    ensures
        ({
            let leaf = leaf_of(data, nodes, i, rows[k]);
            &&& 0 <= leaf < nodes.len()
            &&& nodes[leaf].node_type is Leaf
            &&& facts[leaf].start <= k < facts[leaf].end
        }),
    decreases nodes.len() - i,
{
    assert(links_ok(nodes, facts, data.features(), i));
    assert(rows_sorted_at(data, nodes, facts, rows, i));
    if nodes[i].node_type is Internal {
        let left = nodes[i].node_type->left_child as int;
        let right = nodes[i].node_type->right_child as int;
        assert(node_fits(nodes, facts, i, rows.len() as int, max_depth));
        let feature = nodes[i].node_type->feature_idx as int;
        let threshold = nodes[i].node_type->bin_threshold;
        let missing_left = nodes[i].node_type->default_left;
        if k < facts[left].end {
            assert(goes_left(data, feature, threshold, missing_left, rows[k]));
            law_rows_lie_in_their_leaf(data, nodes, facts, rows, max_depth, left, k);
        } else {
            assert(!goes_left(data, feature, threshold, missing_left, rows[k]));
            law_rows_lie_in_their_leaf(data, nodes, facts, rows, max_depth, right, k);
        }
    }
}

/// No row lies in two leaves.
pub proof fn law_leaves_share_no_rows(
    data: BinnedDataset,
    nodes: Seq<Node>,
    facts: Seq<NodeFacts>,
    rows: Seq<usize>,
    max_depth: nat,
    a: int,
    b: int,
    k: int,
)
    requires
        tree_ok(data, nodes, facts, rows, max_depth),
        0 <= a < nodes.len(),
        0 <= b < nodes.len(),
        a != b,
        nodes[a].node_type is Leaf,
        nodes[b].node_type is Leaf,
    ensures
        !(facts[a].start <= k < facts[a].end && facts[b].start <= k < facts[b].end),
{
    assert(leaf_placed(nodes, facts, a, b));
}

/// A split's rows are its children's rows together: their counts add up.
pub proof fn law_children_share_the_rows(
    data: BinnedDataset,
    nodes: Seq<Node>,
    facts: Seq<NodeFacts>,
    rows: Seq<usize>,
    max_depth: nat,
    i: int,
)
    requires
        tree_ok(data, nodes, facts, rows, max_depth),
        0 <= i < nodes.len(),
        nodes[i].node_type is Internal,
    ensures
        ({
            let left = nodes[nodes[i].node_type->left_child as int];
            let right = nodes[nodes[i].node_type->right_child as int];
            &&& nodes[i].num_samples == left.num_samples + right.num_samples
            &&& left.depth == nodes[i].depth + 1
            &&& right.depth == nodes[i].depth + 1
        }),
{
    assert(links_ok(nodes, facts, data.features(), i));
    assert(node_fits(nodes, facts, i, rows.len() as int, max_depth));
    assert(node_fits(nodes, facts, nodes[i].node_type->left_child as int, rows.len() as int, max_depth));
    assert(node_fits(nodes, facts, nodes[i].node_type->right_child as int, rows.len() as int, max_depth));
}

} // verus!
