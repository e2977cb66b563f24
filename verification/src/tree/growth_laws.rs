//! What growth depends on: two trees that grow on the same rows by the same
//! splits are the same, whatever else their data holds.

use crate::dataset::BinnedDataset;
use crate::seqs::{
    count_where, lemma_count_where_add, lemma_count_where_agreeing, lemma_count_where_same_items,
    lemma_count_where_uniform,
};
use crate::tree::grow::{
    best_place, candidate_ok, drained, grown_by, law_rows_are_shared_out, pending_for, rows_left, split_among,
    taken_in_order, CandidateSplit, ChildSplits, PendingSplit, SplitCandidate, TreeGrowth,
};
use crate::tree::node::Node;
use crate::tree::partition::goes_left;
use crate::tree::shape::{leaf_of, links_ok, node_fits, NodeFacts};
use vstd::prelude::*;

verus! {

/// Whether two data sets have the same features and the same bins in some rows.
pub open spec fn agree_on(a: BinnedDataset, b: BinnedDataset, rows: Seq<usize>) -> bool {
    &&& a.features() == b.features()
    &&& forall|k: int, feature: int|
        0 <= k < rows.len() && 0 <= feature < a.features() ==> #[trigger] a.bin(rows[k] as int, feature) == b.bin(
            rows[k] as int,
            feature,
        )
}

/// Whether two candidates stand for the same leaf, the same stretch of rows and
/// the same split.
pub open spec fn alike(a: SplitCandidate, b: SplitCandidate) -> bool {
    &&& a.node_idx == b.node_idx
    &&& a.row_start == b.row_start
    &&& a.row_end == b.row_end
    &&& a.split == b.split
    &&& a.ancestor_features@ == b.ancestor_features@
}

/// Whether two lists of candidates are alike.
pub open spec fn all_alike(a: Seq<SplitCandidate>, b: Seq<SplitCandidate>) -> bool {
    &&& a.len() == b.len()
    &&& forall|i: int| 0 <= i < a.len() ==> alike(#[trigger] a[i], b[i])
}

/// Whether two pending splits ask for the same searches.
pub open spec fn same_search(a: PendingSplit, b: PendingSplit) -> bool {
    &&& a.parent == b.parent
    &&& a.smaller == b.smaller
    &&& a.larger == b.larger
    &&& a.ancestor_features@ == b.ancestor_features@
}

/// Data sets that agree on a row lead it to the same leaf.
proof fn lemma_same_leaf(
    a: BinnedDataset,
    b: BinnedDataset,
    rows: Seq<usize>,
    nodes: Seq<Node>,
    facts: Seq<NodeFacts>,
    i: int,
    k: int,
)
    requires
        agree_on(a, b, rows),
        forall|j: int| 0 <= j < nodes.len() ==> #[trigger] links_ok(nodes, facts, a.features(), j),
        0 <= i,
        0 <= k < rows.len(),
    ensures
        leaf_of(a, nodes, i, rows[k]) == leaf_of(b, nodes, i, rows[k]),
    decreases nodes.len() - i,
{
    if i < nodes.len() {
        assert(links_ok(nodes, facts, a.features(), i));
        if nodes[i].node_type is Internal {
            let feature = nodes[i].node_type->feature_idx as int;
            let left = nodes[i].node_type->left_child as int;
            let right = nodes[i].node_type->right_child as int;
            assert(a.bin(rows[k] as int, feature) == b.bin(rows[k] as int, feature));
            lemma_same_leaf(a, b, rows, nodes, facts, left, k);
            lemma_same_leaf(a, b, rows, nodes, facts, right, k);
        }
    }
}

/// The rows of a leaf are those of all rows that lead to it.
proof fn lemma_rows_of_leaf(growth: TreeGrowth<'_>, leaf: int, keep: spec_fn(usize) -> bool)
    requires
        growth.wf(),
        0 <= leaf < growth.tree_nodes().len(),
        growth.tree_nodes()[leaf].node_type is Leaf,
    ensures
        count_where(
            growth.rows().subrange(growth.node_facts()[leaf].start, growth.node_facts()[leaf].end),
            keep,
        ) == count_where(
            growth.initial_rows(),
            |row: usize| leaf_of(growth.dataset(), growth.tree_nodes(), 0, row) == leaf && keep(row),
        ),
{
    let rows = growth.rows();
    let start = growth.node_facts()[leaf].start;
    let end = growth.node_facts()[leaf].end;
    let here = |row: usize| leaf_of(growth.dataset(), growth.tree_nodes(), 0, row) == leaf && keep(row);
    assert(node_fits(
        growth.tree_nodes(),
        growth.node_facts(),
        leaf,
        rows.len() as int,
        growth.growth_limits().max_depth as nat,
    ));
    let before = rows.subrange(0, start);
    let inside = rows.subrange(start, end);
    let behind = rows.subrange(end, rows.len() as int);
    assert(rows =~= before + inside + behind);
    lemma_count_where_add(before + inside, behind, here);
    lemma_count_where_add(before, inside, here);
    assert forall|k: int| 0 <= k < before.len() implies here(#[trigger] before[k]) == false by {
        assert(before[k] == rows[k]);
        law_rows_are_shared_out(growth, k, leaf);
    }
    lemma_count_where_uniform(before, here, false);
    assert forall|k: int| 0 <= k < behind.len() implies here(#[trigger] behind[k]) == false by {
        assert(behind[k] == rows[end + k]);
        law_rows_are_shared_out(growth, end + k, leaf);
    }
    lemma_count_where_uniform(behind, here, false);
    assert forall|k: int| 0 <= k < inside.len() implies here(#[trigger] inside[k]) == keep(inside[k]) by {
        assert(inside[k] == rows[start + k]);
        law_rows_are_shared_out(growth, start + k, leaf);
    }
    lemma_count_where_agreeing(inside, here, keep);
    lemma_count_where_same_items(rows, growth.initial_rows(), here);
}

/// Whether two states of growth have the same tree over the same rows, on data
/// that agrees on those rows.
pub open spec fn same_tree(a: TreeGrowth<'_>, b: TreeGrowth<'_>) -> bool {
    &&& a.wf()
    &&& b.wf()
    &&& a.tree_nodes() == b.tree_nodes()
    &&& a.leaves() == b.leaves()
    &&& a.growth_limits() == b.growth_limits()
    &&& a.initial_rows().to_multiset() == b.initial_rows().to_multiset()
    &&& agree_on(a.dataset(), b.dataset(), a.initial_rows())
}

/// Candidates that are alike send the same number of rows left.
proof fn lemma_same_rows_left(a: TreeGrowth<'_>, b: TreeGrowth<'_>, first: SplitCandidate, second: SplitCandidate)
    requires
        same_tree(a, b),
        alike(first, second),
        first.split is Some,
        candidate_ok(a.tree_nodes(), a.node_facts(), a.dataset().features(), a.interaction(), first),
        candidate_ok(b.tree_nodes(), b.node_facts(), b.dataset().features(), b.interaction(), second),
    ensures
        rows_left(a.dataset(), a.rows(), first) == rows_left(b.dataset(), b.rows(), second),
{
    let split = first.split->0.info;
    let leaf = first.node_idx as int;
    let nodes = a.tree_nodes();
    let left_in_a = |row: usize|
        goes_left(a.dataset(), split.feature_idx as int, split.bin_threshold, split.default_left, row);
    let left_in_b = |row: usize|
        goes_left(b.dataset(), split.feature_idx as int, split.bin_threshold, split.default_left, row);
    lemma_rows_of_leaf(a, leaf, left_in_a);
    lemma_rows_of_leaf(b, leaf, left_in_b);
    let here_in_a = |row: usize| leaf_of(a.dataset(), nodes, 0, row) == leaf && left_in_a(row);
    let here_in_b = |row: usize| leaf_of(b.dataset(), nodes, 0, row) == leaf && left_in_b(row);
    let rows = a.initial_rows();
    assert forall|k: int| 0 <= k < rows.len() implies here_in_a(#[trigger] rows[k]) == here_in_b(rows[k]) by {
        lemma_same_leaf(a.dataset(), b.dataset(), rows, nodes, a.node_facts(), 0, k);
        assert(a.dataset().bin(rows[k] as int, split.feature_idx as int) == b.dataset().bin(
            rows[k] as int,
            split.feature_idx as int,
        ));
    }
    lemma_count_where_agreeing(rows, here_in_a, here_in_b);
    lemma_count_where_same_items(rows, b.initial_rows(), here_in_b);
}

/// Candidates that are alike are split alike.
proof fn lemma_same_splits(
    a: TreeGrowth<'_>,
    b: TreeGrowth<'_>,
    first: Seq<SplitCandidate>,
    second: Seq<SplitCandidate>,
)
    requires
        same_tree(a, b),
        all_alike(first, second),
        forall|i: int|
            0 <= i < first.len() ==> candidate_ok(
                a.tree_nodes(),
                a.node_facts(),
                a.dataset().features(),
                a.interaction(),
                #[trigger] first[i],
            ),
        forall|i: int|
            0 <= i < second.len() ==> candidate_ok(
                b.tree_nodes(),
                b.node_facts(),
                b.dataset().features(),
                b.interaction(),
                #[trigger] second[i],
            ),
    ensures
        ({
            let in_a = split_among(a.dataset(), a.growth_limits(), a.tree_nodes(), a.rows(), first);
            let in_b = split_among(b.dataset(), b.growth_limits(), b.tree_nodes(), b.rows(), second);
            &&& all_alike(in_a, in_b)
            &&& forall|i: int|
                0 <= i < in_a.len() ==> rows_left(a.dataset(), a.rows(), #[trigger] in_a[i]) == rows_left(
                    b.dataset(),
                    b.rows(),
                    in_b[i],
                )
        }),
    decreases first.len(),
{
    if first.len() > 0 {
        lemma_same_splits(a, b, first.drop_last(), second.drop_last());
        let x = first.last();
        let y = second.last();
        assert(first[first.len() - 1] == x && second[second.len() - 1] == y);
        assert(alike(x, y));
        if x.split is Some {
            lemma_same_rows_left(a, b, x, y);
        }
    }
}

/// Splits that are alike grow the same nodes.
proof fn lemma_same_growth(
    a: BinnedDataset,
    a_rows: Seq<usize>,
    b: BinnedDataset,
    b_rows: Seq<usize>,
    nodes: Seq<Node>,
    first: Seq<SplitCandidate>,
    second: Seq<SplitCandidate>,
)
    requires
        all_alike(first, second),
        forall|i: int|
            0 <= i < first.len() ==> rows_left(a, a_rows, #[trigger] first[i]) == rows_left(b, b_rows, second[i]),
    ensures
        grown_by(a, nodes, a_rows, first) == grown_by(b, nodes, b_rows, second),
    decreases first.len(),
{
    if first.len() > 0 {
        let n = first.len() - 1;
        assert(rows_left(a, a_rows, first[n]) == rows_left(b, b_rows, second[n]));
        assert forall|i: int| 0 <= i < first.drop_last().len() implies rows_left(
            a,
            a_rows,
            #[trigger] first.drop_last()[i],
        ) == rows_left(b, b_rows, second.drop_last()[i]) by {
            assert(first.drop_last()[i] == first[i] && second.drop_last()[i] == second[i]);
        }
        lemma_same_growth(a, a_rows, b, b_rows, nodes, first.drop_last(), second.drop_last());
        assert(alike(first[n], second[n]));
    }
}

/// What a batch takes out was waiting.
pub proof fn lemma_taken_was_waiting(growth: TreeGrowth<'_>, after: TreeGrowth<'_>, taken: Seq<SplitCandidate>)
    requires
        growth.wf(),
        growth.batch_leads_to(&after, taken),
    ensures
        forall|i: int|
            0 <= i < taken.len() ==> candidate_ok(
                growth.tree_nodes(),
                growth.node_facts(),
                growth.dataset().features(),
                growth.interaction(),
                #[trigger] taken[i],
            ),
{
    assert forall|i: int| 0 <= i < taken.len() implies candidate_ok(
        growth.tree_nodes(),
        growth.node_facts(),
        growth.dataset().features(),
        growth.interaction(),
        #[trigger] taken[i],
    ) by {
        assert(taken.contains(taken[i]));
        vstd::seq_lib::to_multiset_contains(taken, taken[i]);
        vstd::seq_lib::to_multiset_contains(growth.waiting(), taken[i]);
        assert(growth.waiting().to_multiset().count(taken[i]) > 0);
        assert(growth.waiting().contains(taken[i]));
        let k = choose|k: int| 0 <= k < growth.waiting().len() && growth.waiting()[k] == taken[i];
        assert(candidate_ok(
            growth.tree_nodes(),
            growth.node_facts(),
            growth.dataset().features(),
            growth.interaction(),
            growth.waiting()[k],
        ));
    }
}

/// Whether two states of growth have the same tree over the same rows, and
/// candidates that are alike in the same order.
pub open spec fn same_growth(a: TreeGrowth<'_>, b: TreeGrowth<'_>) -> bool {
    &&& same_tree(a, b)
    &&& all_alike(a.waiting(), b.waiting())
}

/// Whether two states of growth ask for the same searches.
pub open spec fn same_searches(a: TreeGrowth<'_>, b: TreeGrowth<'_>) -> bool {
    &&& a.to_search().len() == b.to_search().len()
    &&& forall|i: int|
        0 <= i < a.to_search().len() ==> same_search(#[trigger] a.to_search()[i], b.to_search()[i])
}

/// Of lists that are alike the same place is taken out.
proof fn lemma_same_place(a: Seq<SplitCandidate>, b: Seq<SplitCandidate>, n: nat)
    requires
        all_alike(a, b),
        0 < n <= a.len(),
    ensures
        best_place(a, n) == best_place(b, n),
        0 <= best_place(a, n) < n,
    decreases n,
{
    if n > 1 {
        lemma_same_place(a, b, (n - 1) as nat);
        let before = best_place(a, (n - 1) as nat);
        assert(alike(a[before], b[before]));
        assert(alike(a[n - 1], b[n - 1]));
    }
}

/// What is taken out of lists that are alike is alike, and so is what is left.
proof fn lemma_drained_alike(a: Seq<SplitCandidate>, b: Seq<SplitCandidate>, n: nat)
    requires
        all_alike(a, b),
        n <= a.len(),
    ensures
        drained(a, n).0.len() == n,
        drained(a, n).1.len() == a.len() - n,
        all_alike(drained(a, n).0, drained(b, n).0),
        all_alike(drained(a, n).1, drained(b, n).1),
    decreases n,
{
    if n > 0 {
        lemma_drained_alike(a, b, (n - 1) as nat);
        let (a_taken, a_left) = drained(a, (n - 1) as nat);
        let (b_taken, b_left) = drained(b, (n - 1) as nat);
        lemma_same_place(a_left, b_left, a_left.len());
        let k = best_place(a_left, a_left.len());
        assert(alike(a_left[k], b_left[k]));
        assert forall|i: int| 0 <= i < n implies alike(#[trigger] drained(a, n).0[i], drained(b, n).0[i]) by {
            if i < n - 1 {
                assert(alike(a_taken[i], b_taken[i]));
            }
        }
        assert forall|i: int| 0 <= i < a_left.remove(k).len() implies alike(
            #[trigger] a_left.remove(k)[i],
            b_left.remove(k)[i],
        ) by {
            let from = if i < k {
                i
            } else {
                i + 1
            };
            assert(alike(a_left[from], b_left[from]));
        }
    }
}

/// What is taken out first does not depend on how much is taken out.
proof fn lemma_drained_first(waiting: Seq<SplitCandidate>, m: nat, n: nat)
    requires
        m <= n <= waiting.len(),
    ensures
        drained(waiting, n).0.len() == n,
        drained(waiting, n).0.take(m as int) == drained(waiting, m).0,
    decreases n,
{
    assert(all_alike(waiting, waiting));
    lemma_drained_alike(waiting, waiting, n);
    if m == n {
        assert(drained(waiting, n).0.take(m as int) =~= drained(waiting, n).0);
    } else {
        lemma_drained_first(waiting, m, (n - 1) as nat);
        let before = drained(waiting, (n - 1) as nat).0;
        assert(drained(waiting, n).0.take(m as int) =~= before.take(m as int));
    }
}

/// Batches of one size from states that are alike end at the same point: one of
/// them does not go on where the other stopped.
proof fn lemma_same_end(
    a: TreeGrowth<'_>,
    a_after: TreeGrowth<'_>,
    a_taken: Seq<SplitCandidate>,
    b: TreeGrowth<'_>,
    b_after: TreeGrowth<'_>,
    b_taken: Seq<SplitCandidate>,
    batch_size: nat,
)
    requires
        same_growth(a, b),
        a.collects(&a_after, batch_size, a_taken),
        b.collects(&b_after, batch_size, b_taken),
    ensures
        a_taken.len() == b_taken.len(),
        all_alike(a_taken, b_taken),
        all_alike(a_after.waiting(), b_after.waiting()),
{
    lemma_taken_was_waiting(a, a_after, a_taken);
    lemma_taken_was_waiting(b, b_after, b_taken);
    lemma_no_more_than_waiting(a.waiting(), a_taken, a_after.waiting());
    lemma_no_more_than_waiting(b.waiting(), b_taken, b_after.waiting());
    let m = if a_taken.len() < b_taken.len() {
        a_taken.len()
    } else {
        b_taken.len()
    };
    let first = a_taken.take(m as int);
    let second = b_taken.take(m as int);
    lemma_drained_first(a.waiting(), m, a_taken.len());
    lemma_drained_first(b.waiting(), m, b_taken.len());
    lemma_drained_alike(a.waiting(), b.waiting(), m);
    assert(all_alike(first, second));
    assert forall|i: int| 0 <= i < first.len() implies candidate_ok(
        a.tree_nodes(),
        a.node_facts(),
        a.dataset().features(),
        a.interaction(),
        #[trigger] first[i],
    ) by {
        assert(first[i] == a_taken[i]);
    }
    assert forall|i: int| 0 <= i < second.len() implies candidate_ok(
        b.tree_nodes(),
        b.node_facts(),
        b.dataset().features(),
        b.interaction(),
        #[trigger] second[i],
    ) by {
        assert(second[i] == b_taken[i]);
    }
    lemma_same_splits(a, b, first, second);
    assert(a.goes_on(batch_size, first) == b.goes_on(batch_size, second));
    if a_taken.len() < b_taken.len() {
        assert(first =~= a_taken);
        assert(b.goes_on(batch_size, b_taken.take(m as int)));
    } else if b_taken.len() < a_taken.len() {
        assert(second =~= b_taken);
        assert(a.goes_on(batch_size, a_taken.take(m as int)));
    }
    assert(first =~= a_taken && second =~= b_taken);
}

/// No more is taken out than was waiting.
pub proof fn lemma_no_more_than_waiting(
    waiting: Seq<SplitCandidate>,
    taken: Seq<SplitCandidate>,
    still_waiting: Seq<SplitCandidate>,
)
    requires
        taken_in_order(waiting, taken, still_waiting),
    ensures
        taken.len() + still_waiting.len() == waiting.len(),
{
    vstd::seq_lib::to_multiset_len(waiting);
    vstd::seq_lib::to_multiset_len(taken);
    vstd::seq_lib::to_multiset_len(still_waiting);
}

/// Batches of one size from states that are alike lead to states that are alike
/// and ask for the same searches.
pub proof fn law_batches_do_the_same(
    a: TreeGrowth<'_>,
    a_after: TreeGrowth<'_>,
    a_taken: Seq<SplitCandidate>,
    b: TreeGrowth<'_>,
    b_after: TreeGrowth<'_>,
    b_taken: Seq<SplitCandidate>,
    batch_size: nat,
)
    requires
        same_growth(a, b),
        a.collects(&a_after, batch_size, a_taken),
        b.collects(&b_after, batch_size, b_taken),
    ensures
        same_growth(a_after, b_after),
        same_searches(a_after, b_after),
{
    lemma_same_end(a, a_after, a_taken, b, b_after, b_taken, batch_size);
    lemma_taken_was_waiting(a, a_after, a_taken);
    lemma_taken_was_waiting(b, b_after, b_taken);
    lemma_same_splits(a, b, a_taken, b_taken);
    let in_a = split_among(a.dataset(), a.growth_limits(), a.tree_nodes(), a.rows(), a_taken);
    let in_b = split_among(b.dataset(), b.growth_limits(), b.tree_nodes(), b.rows(), b_taken);
    lemma_same_growth(a.dataset(), a.rows(), b.dataset(), b.rows(), a.tree_nodes(), in_a, in_b);
    assert forall|i: int| 0 <= i < a_after.to_search().len() implies same_search(
        #[trigger] a_after.to_search()[i],
        b_after.to_search()[i],
    ) by {
        assert(alike(in_a[i], in_b[i]));
        assert(rows_left(a.dataset(), a.rows(), in_a[i]) == rows_left(b.dataset(), b.rows(), in_b[i]));
        let left = rows_left(a.dataset(), a.rows(), in_a[i]);
        let at = a.tree_nodes().len() + 2 * i;
        assert(pending_for(a_after.to_search()[i], in_a[i], at, left));
        assert(pending_for(b_after.to_search()[i], in_b[i], at, left));
    }
}

/// Searches that are the same and find the same lead to states that are alike.
proof fn lemma_same_finish(
    a: TreeGrowth<'_>,
    a_after: TreeGrowth<'_>,
    b: TreeGrowth<'_>,
    b_after: TreeGrowth<'_>,
    splits: Seq<ChildSplits>,
)
    requires
        same_growth(a, b),
        same_searches(a, b),
        a.finishes(&a_after, splits),
        b.finishes(&b_after, splits),
    ensures
        same_growth(a_after, b_after),
{
    let n = a.waiting().len() as int;
    assert forall|j: int| 0 <= j < a_after.waiting().len() implies alike(
        #[trigger] a_after.waiting()[j],
        b_after.waiting()[j],
    ) by {
        if j < n {
            assert(a_after.waiting().take(n)[j] == a.waiting()[j]);
            assert(b_after.waiting().take(n)[j] == b.waiting()[j]);
            assert(alike(a.waiting()[j], b.waiting()[j]));
        } else {
            let i = (j - n) / 2;
            assert(same_search(a.to_search()[i], b.to_search()[i]));
            let other = b.to_search()[i];
            assert(j == n + 2 * i || j == n + 2 * i + 1);
        }
    }
}

/// Whether a batch of a given size leads from a state to another one.
pub open spec fn one_batch(before: TreeGrowth<'_>, after: TreeGrowth<'_>, batch_size: nat) -> bool {
    exists|taken: Seq<SplitCandidate>| #[trigger] before.collects(&after, batch_size, taken)
}

/// Whether a growth went through some states: between every two of them a batch
/// was collected, which led to the state in the middle, and finished with the
/// splits that were found. A last batch may have been collected and not
/// finished.
pub open spec fn grows_through(
    states: Seq<TreeGrowth<'_>>,
    collected: Seq<TreeGrowth<'_>>,
    batch_size: nat,
    found: Seq<Seq<ChildSplits>>,
) -> bool {
    &&& states.len() == found.len() + 1
    &&& found.len() <= collected.len() <= states.len()
    &&& forall|j: int|
        0 <= j < collected.len() ==> one_batch(states[j], #[trigger] collected[j], batch_size)
    &&& forall|j: int| 0 <= j < found.len() ==> collected[j].finishes(&states[j + 1], #[trigger] found[j])
}

/// Growths over the same rows, with the same limits, root and root split, start
/// alike.
pub proof fn law_growths_start_alike(
    a: TreeGrowth<'_>,
    b: TreeGrowth<'_>,
    root: Node,
    split: Option<CandidateSplit>,
)
    requires
        a.wf(),
        b.wf(),
        a.starts_with(root, split),
        b.starts_with(root, split),
        a.growth_limits() == b.growth_limits(),
        a.rows() == a.initial_rows(),
        b.rows() == b.initial_rows(),
        a.initial_rows().to_multiset() == b.initial_rows().to_multiset(),
        agree_on(a.dataset(), b.dataset(), a.initial_rows()),
    ensures
        same_growth(a, b),
{
    vstd::seq_lib::to_multiset_len(a.initial_rows());
    vstd::seq_lib::to_multiset_len(b.initial_rows());
}

/// Growth depends only on its rows, on the sums at its root and on the splits
/// that it is handed: two whole growths over the same rows, with the same root,
/// limits and batch size, that are handed the same splits have the same nodes
/// after every batch, and ask for the same searches. The order in which rows are
/// listed, rows that are not in the list, and whether the splits were found from
/// gradients that were computed before or in the same pass have no influence.
pub proof fn law_growth_depends_on_its_rows_alone(
    a_states: Seq<TreeGrowth<'_>>,
    a_collected: Seq<TreeGrowth<'_>>,
    b_states: Seq<TreeGrowth<'_>>,
    b_collected: Seq<TreeGrowth<'_>>,
    batch_size: nat,
    found: Seq<Seq<ChildSplits>>,
    at: int,
)
    requires
        grows_through(a_states, a_collected, batch_size, found),
        grows_through(b_states, b_collected, batch_size, found),
        same_growth(a_states[0], b_states[0]),
        0 <= at < a_states.len(),
    ensures
        same_growth(a_states[at], b_states[at]),
        a_states[at].tree_nodes() == b_states[at].tree_nodes(),
        at < a_collected.len() && at < b_collected.len() ==> a_collected[at].tree_nodes()
            == b_collected[at].tree_nodes() && same_searches(a_collected[at], b_collected[at]),
    decreases at,
{
    if at > 0 {
        law_growth_depends_on_its_rows_alone(
            a_states,
            a_collected,
            b_states,
            b_collected,
            batch_size,
            found,
            at - 1,
        );
        lemma_same_collected(a_states, a_collected, b_states, b_collected, batch_size, found, at - 1);
        assert(a_collected[at - 1].finishes(&a_states[at], found[at - 1]));
        assert(b_collected[at - 1].finishes(&b_states[at], found[at - 1]));
        lemma_same_finish(a_collected[at - 1], a_states[at], b_collected[at - 1], b_states[at], found[at - 1]);
    }
    if at < a_collected.len() && at < b_collected.len() {
        lemma_same_collected(a_states, a_collected, b_states, b_collected, batch_size, found, at);
    }
}

proof fn lemma_same_collected(
    a_states: Seq<TreeGrowth<'_>>,
    a_collected: Seq<TreeGrowth<'_>>,
    b_states: Seq<TreeGrowth<'_>>,
    b_collected: Seq<TreeGrowth<'_>>,
    batch_size: nat,
    found: Seq<Seq<ChildSplits>>,
    at: int,
)
    requires
        grows_through(a_states, a_collected, batch_size, found),
        grows_through(b_states, b_collected, batch_size, found),
        same_growth(a_states[at], b_states[at]),
        0 <= at < a_collected.len(),
        at < b_collected.len(),
    ensures
        same_growth(a_collected[at], b_collected[at]),
        same_searches(a_collected[at], b_collected[at]),
{
    assert(one_batch(a_states[at], a_collected[at], batch_size));
    assert(one_batch(b_states[at], b_collected[at], batch_size));
    let a_taken = choose|taken: Seq<SplitCandidate>| #[trigger]
        a_states[at].collects(&a_collected[at], batch_size, taken);
    let b_taken = choose|taken: Seq<SplitCandidate>| #[trigger]
        b_states[at].collects(&b_collected[at], batch_size, taken);
    law_batches_do_the_same(
        a_states[at],
        a_collected[at],
        a_taken,
        b_states[at],
        b_collected[at],
        b_taken,
        batch_size,
    );
}

} // verus!
