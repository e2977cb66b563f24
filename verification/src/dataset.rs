//! Training data after binning: one small integer per row and feature.

use vstd::prelude::*;

verus! {

/// Binned training data, stored column by column.
#[derive(Debug)]
pub struct BinnedDataset {
    num_rows: usize,
    num_features: usize,
    bins: Vec<u8>,
}

proof fn lemma_cell(rows: nat, features: nat, row: nat, feature: nat)
    requires
        row < rows,
        feature < features,
    ensures
        feature * rows + row < features * rows,
{
    assert((feature + 1) * rows <= features * rows) by (nonlinear_arith)
        requires
            feature + 1 <= features,
    ;
    assert((feature + 1) * rows == feature * rows + rows) by (nonlinear_arith);
}

impl BinnedDataset {
    /// Number of rows.
    pub closed spec fn rows(&self) -> nat {
        self.num_rows as nat
    }

    /// Number of features.
    pub closed spec fn features(&self) -> nat {
        self.num_features as nat
    }

    /// Whether there is a bin for every row and feature.
    pub closed spec fn wf(&self) -> bool {
        self.bins@.len() == self.num_features * self.num_rows
    }

    /// The bin of a row in a feature.
    pub closed spec fn bin(&self, row: int, feature: int) -> u8 {
        self.bins@[feature * self.num_rows + row]
    }

    /// Data from bins that are stored feature by feature: first all rows of
    /// feature 0, then all rows of feature 1, and so on.
    pub fn new(num_rows: usize, num_features: usize, bins: Vec<u8>) -> (dataset: BinnedDataset)
        requires
            bins@.len() == num_features * num_rows,
        ensures
            dataset.wf(),
            dataset.rows() == num_rows,
            dataset.features() == num_features,
            forall|row: int, feature: int|
                0 <= row < num_rows && 0 <= feature < num_features ==> #[trigger] dataset.bin(row, feature)
                    == bins@[feature * num_rows + row],
    {
        BinnedDataset { num_rows, num_features, bins }
    }

    /// Number of rows.
    pub fn num_rows(&self) -> (rows: usize)
        ensures
            rows == self.rows(),
    {
        self.num_rows
    }

    /// Number of features.
    pub fn num_features(&self) -> (features: usize)
        ensures
            features == self.features(),
    {
        self.num_features
    }

    /// The bin of a row in a feature.
    pub fn get_bin(&self, row_idx: usize, feature_idx: usize) -> (bin: u8)
        requires
            self.wf(),
            row_idx < self.rows(),
            feature_idx < self.features(),
        ensures
            bin == self.bin(row_idx as int, feature_idx as int),
    {
        let total: usize = self.bins.len();
        proof {
            lemma_cell(self.num_rows as nat, self.num_features as nat, row_idx as nat, feature_idx as nat);
            assert(feature_idx * self.num_rows >= 0) by (nonlinear_arith);
        }
        self.bins[feature_idx * self.num_rows + row_idx]
    }

    /// The bins of all rows in a feature.
    pub fn feature_column(&self, feature_idx: usize) -> (column: &[u8])
        requires
            self.wf(),
            feature_idx < self.features(),
        ensures
            column@.len() == self.rows(),
            forall|row: int| 0 <= row < self.rows() ==> #[trigger] column@[row] == self.bin(row, feature_idx as int),
    {
        let total: usize = self.bins.len();
        proof {
            assert((feature_idx + 1) * self.num_rows <= self.num_features * self.num_rows) by (nonlinear_arith)
                requires
                    feature_idx + 1 <= self.num_features,
            ;
            assert((feature_idx + 1) * self.num_rows == feature_idx * self.num_rows + self.num_rows) by (
                nonlinear_arith);
            assert(feature_idx * self.num_rows >= 0) by (nonlinear_arith);
        }
        let start: usize = feature_idx * self.num_rows;
        vstd::slice::slice_subrange(self.bins.as_slice(), start, start + self.num_rows)
    }
}

} // verus!
