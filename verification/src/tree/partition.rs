//! Row indices of a growing tree, kept in one array in which the rows of every
//! node are contiguous.

use crate::dataset::BinnedDataset;
use crate::seqs::{
    count_where, lemma_count_where_add, lemma_count_where_uniform, lemma_swap_keeps_count, lemma_swap_keeps_items,
    swapped,
};
use vstd::prelude::*;

verus! {

/// Row indices that are partitioned in place.
#[derive(Debug)]
pub struct RowPartitioner {
    rows: Vec<usize>,
}

/// Whether a row goes left at a threshold. Missing values (bin 0) go where
/// `default_left` says.
pub open spec fn goes_left(data: BinnedDataset, feature: int, threshold: u8, default_left: bool, row: usize) -> bool {
    let bin = data.bin(row as int, feature);
    if bin == 0 {
        default_left
    } else {
        bin <= threshold
    }
}

/// Whether a bin goes left at a threshold.
fn bin_goes_left(bin: u8, threshold: u8, default_left: bool) -> (left: bool)
    ensures
        left == (if bin == 0 {
            default_left
        } else {
            bin <= threshold
        }),
{
    if bin == 0 {
        default_left
    } else {
        bin <= threshold
    }
}

/// Whether `after` holds the same rows as `before`, with only the rows between
/// `start` and `end` in another order.
pub open spec fn reordered(before: Seq<usize>, after: Seq<usize>, start: int, end: int) -> bool {
    &&& after.len() == before.len()
    &&& forall|k: int| 0 <= k < before.len() && !(start <= k < end) ==> #[trigger] after[k] == before[k]
    &&& after.subrange(start, end).to_multiset() == before.subrange(start, end).to_multiset()
    &&& after.to_multiset() == before.to_multiset()
}

impl View for RowPartitioner {
    type V = Seq<usize>;

    closed spec fn view(&self) -> Seq<usize> {
        self.rows@
    }
}

impl RowPartitioner {
    /// Starts from the given rows.
    pub fn new(initial_rows: Vec<usize>) -> (partitioner: RowPartitioner)
        ensures
            partitioner@ == initial_rows@,
    {
        RowPartitioner { rows: initial_rows }
    }

    /// The rows between `start` and `end`.
    pub fn get_rows(&self, start: usize, end: usize) -> (rows: &[usize])
        requires
            start <= end <= self@.len(),
        ensures
            rows@ == self@.subrange(start as int, end as int),
    {
        vstd::slice::slice_subrange(self.rows.as_slice(), start, end)
    }

    /// Moves the rows between `start` and `end` whose bin is at most the
    /// threshold to the front, in place, and says where the others begin. Rows
    /// with a missing value (bin 0) go to the front if `default_left` says so.
    pub fn partition_in_place(
        &mut self,
        dataset: &BinnedDataset,
        start: usize,
        end: usize,
        feature_idx: usize,
        bin_threshold: u8,
        default_left: bool,
    ) -> (mid: usize)
        requires
            dataset.wf(),
            feature_idx < dataset.features(),
            start <= end <= old(self)@.len(),
            forall|k: int| start <= k < end ==> #[trigger] old(self)@[k] < dataset.rows(),
        ensures
            start <= mid <= end,
            reordered(old(self)@, final(self)@, start as int, end as int),
            forall|k: int|
                start <= k < mid ==> goes_left(
                    *dataset,
                    feature_idx as int,
                    bin_threshold,
                    default_left,
                    #[trigger] final(self)@[k],
                ),
            forall|k: int|
                mid <= k < end ==> !goes_left(
                    *dataset,
                    feature_idx as int,
                    bin_threshold,
                    default_left,
                    #[trigger] final(self)@[k],
                ),
            mid - start == count_where(
                old(self)@.subrange(start as int, end as int),
                |row: usize| goes_left(*dataset, feature_idx as int, bin_threshold, default_left, row),
            ),
    {
        let ghost before = self.rows@;
        let ghost range_before = before.subrange(start as int, end as int);
        let ghost keep = |row: usize| goes_left(*dataset, feature_idx as int, bin_threshold, default_left, row);
        let column: &[u8] = dataset.feature_column(feature_idx);
        let mut left: usize = start;
        let mut right: usize = end;
        while left < right
            invariant
                start <= left <= right <= end <= self.rows@.len(),
                before.len() == self.rows@.len(),
                column@.len() == dataset.rows(),
                feature_idx < dataset.features(),
                keep == (|row: usize| goes_left(*dataset, feature_idx as int, bin_threshold, default_left, row)),
                forall|row: int|
                    0 <= row < dataset.rows() ==> #[trigger] column@[row] == dataset.bin(row, feature_idx as int),
                forall|k: int| start <= k < end ==> #[trigger] self.rows@[k] < dataset.rows(),
                reordered(before, self.rows@, start as int, end as int),
                range_before == before.subrange(start as int, end as int),
                count_where(self.rows@.subrange(start as int, end as int), keep) == count_where(range_before, keep),
                forall|k: int| start <= k < left ==> keep(#[trigger] self.rows@[k]),
                forall|k: int| right <= k < end ==> !keep(#[trigger] self.rows@[k]),
            decreases right - left,
        {
            let row: usize = self.rows[left];
            if bin_goes_left(column[row], bin_threshold, default_left) {
                assert(keep(self.rows@[left as int]));
                left = left + 1;
            } else {
                assert(!keep(self.rows@[left as int]));
                right = right - 1;
                let other: usize = self.rows[right];
                if bin_goes_left(column[other], bin_threshold, default_left) {
                    assert(keep(self.rows@[right as int]));
                    let ghost current = self.rows@;
                    let ghost i = left - start;
                    let ghost j = right - start;
                    let ghost range = current.subrange(start as int, end as int);
                    self.rows.set(left, other);
                    self.rows.set(right, row);
                    proof {
                        assert(self.rows@ =~= swapped(current, left as int, right as int));
                        assert(self.rows@.subrange(start as int, end as int) =~= swapped(range, i, j));
                        lemma_swap_keeps_items(current, left as int, right as int);
                        lemma_swap_keeps_items(range, i, j);
                        lemma_swap_keeps_count(range, i, j, keep);
                    }
                    left = left + 1;
                }
            }
        }
        proof {
            let range = self.rows@.subrange(start as int, end as int);
            let kept = self.rows@.subrange(start as int, left as int);
            let rest = self.rows@.subrange(left as int, end as int);
            assert(range =~= kept + rest);
            lemma_count_where_add(kept, rest, keep);
            assert forall|k: int| 0 <= k < kept.len() implies keep(#[trigger] kept[k]) == true by {
                assert(kept[k] == self.rows@[start + k]);
            }
            assert forall|k: int| 0 <= k < rest.len() implies keep(#[trigger] rest[k]) == false by {
                assert(rest[k] == self.rows@[left + k]);
            }
            lemma_count_where_uniform(kept, keep, true);
            lemma_count_where_uniform(rest, keep, false);
        }
        left
    }
}

} // verus!
