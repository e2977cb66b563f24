//! Tables that scripts hand over, and the data made of them.

use crate::dataset::BinnedDataset;
use crate::float::F32;
use crate::interface::data::{
    check_eras, check_feature_index, check_feature_info, check_row_index, check_targets, default_names, feature_names,
    two_numbers,
};
use crate::tuner::bounds::texts;
use vstd::prelude::*;
use vstd::string::StringExecFns;

verus! {

/// The lines of a table one after the other.
pub open spec fn in_a_row<T>(lines: Seq<Vec<T>>) -> Seq<T>
    decreases lines.len(),
{
    if lines.len() == 0 {
        Seq::empty()
    } else {
        in_a_row(lines.drop_last()) + lines.last()@
    }
}

/// Whether all lines are as long.
pub open spec fn is_table<T>(lines: Seq<Vec<T>>, width: nat) -> bool {
    forall|i: int| 0 <= i < lines.len() ==> (#[trigger] lines[i])@.len() == width
}

/// The lines of a table one after the other.
pub fn flatten<T: Copy>(lines: &[Vec<T>]) -> (flat: Vec<T>)
    ensures
        flat@ == in_a_row(lines@),
{
    let count: usize = lines.len();
    let mut flat: Vec<T> = Vec::new();
    let mut f: usize = 0;
    assert(flat@ =~= in_a_row(lines@.take(0)));
    while f < count
        invariant
            f <= count == lines@.len(),
            flat@ == in_a_row(lines@.take(f as int)),
        decreases count - f,
    {
        let ghost before = flat@;
        let width: usize = lines[f].len();
        let mut r: usize = 0;
        assert(lines@.take(f + 1).drop_last() =~= lines@.take(f as int));
        assert(flat@ =~= before + lines@[f as int]@.take(0));
        while r < width
            invariant
                f < count == lines@.len(),
                r <= width == lines@[f as int]@.len(),
                flat@ == before + lines@[f as int]@.take(r as int),
            decreases width - r,
        {
            flat.push(lines[f][r]);
            r = r + 1;
            assert(flat@ =~= before + lines@[f as int]@.take(r as int));
        }
        assert(lines@[f as int]@.take(width as int) =~= lines@[f as int]@);
        f = f + 1;
    }
    assert(lines@.take(count as int) =~= lines@);
    flat
}

/// A flat table holds the cell at place `r` of line `f` at place `f` times the
/// width and `r`.
pub proof fn law_flat_cells_are_found_again<T>(lines: Seq<Vec<T>>, width: nat, f: int, r: int)
    requires
        is_table(lines, width),
        0 <= f < lines.len(),
        0 <= r < width,
    ensures
        in_a_row(lines).len() == lines.len() * width,
        0 <= f * width + r < lines.len() * width,
        in_a_row(lines)[f * width + r] == lines[f]@[r],
    decreases lines.len(),
{
    lemma_flat_length(lines, width);
    let rest = lines.drop_last();
    assert(is_table(rest, width)) by {
        assert forall|i: int| 0 <= i < rest.len() implies (#[trigger] rest[i])@.len() == width by {
            assert(rest[i] == lines[i]);
        }
    }
    lemma_flat_length(rest, width);
    assert(f * width + r < lines.len() * width) by (nonlinear_arith)
        requires
            f + 1 <= lines.len(),
            0 <= r < width,
    ;
    assert(f * width >= 0) by (nonlinear_arith)
        requires
            f >= 0,
            width >= 0,
    ;
    if f < rest.len() {
        law_flat_cells_are_found_again(rest, width, f, r);
    } else {
        assert(f == rest.len());
    }
}

proof fn lemma_flat_length<T>(lines: Seq<Vec<T>>, width: nat)
    requires
        is_table(lines, width),
    ensures
        in_a_row(lines).len() == lines.len() * width,
    decreases lines.len(),
{
    if lines.len() > 0 {
        let rest = lines.drop_last();
        assert forall|i: int| 0 <= i < rest.len() implies (#[trigger] rest[i])@.len() == width by {
            assert(rest[i] == lines[i]);
        }
        lemma_flat_length(rest, width);
        assert(lines[lines.len() - 1]@.len() == width);
        assert(lines.len() * width == rest.len() * width + width) by (nonlinear_arith)
            requires
                lines.len() == rest.len() + 1,
        ;
    } else {
        assert(0 * width == 0) by (nonlinear_arith);
    }
}

/// The rows that a model is trained on over eras, one after the other: every row
/// has an era, and splits have to agree over them.
pub fn rows_with_eras(rows: &[Vec<F32>], eras: &[u16], era_splitting: bool) -> (flat: Result<Vec<F32>, String>)
    ensures
        match flat {
            Ok(cells) => eras@.len() == rows@.len() && era_splitting && cells@ == in_a_row(rows@),
            Err(message) => if eras@.len() != rows@.len() {
                message@ == two_numbers(
                    "era_indices length "@,
                    eras@.len(),
                    " doesn't match number of rows "@,
                    rows@.len(),
                    ""@,
                )
            } else {
                !era_splitting && message@ == "era_splitting must be True in config when using train_with_eras"@
            },
        },
{
    match check_eras(eras.len(), rows.len(), era_splitting) {
        Err(message) => Err(message),
        Ok(_) => Ok(flatten(rows)),
    }
}

/// Whether data holds the bins of a table of columns.
pub open spec fn holds_columns(dataset: BinnedDataset, columns: Seq<Vec<u8>>, num_rows: nat) -> bool {
    &&& dataset.wf()
    &&& dataset.rows() == num_rows
    &&& dataset.features() == columns.len()
    &&& forall|row: int, feature: int|
        0 <= row < num_rows && 0 <= feature < columns.len() ==> #[trigger] dataset.bin(row, feature)
            == columns[feature]@[row]
}

/// Data from a table of columns.
fn dataset_of(columns: &[Vec<u8>], num_rows: usize) -> (dataset: BinnedDataset)
    requires
        is_table(columns@, num_rows as nat),
    ensures
        holds_columns(dataset, columns@, num_rows as nat),
{
    let flat: Vec<u8> = flatten(columns);
    proof {
        lemma_flat_length(columns@, num_rows as nat);
    }
    let ghost bins = flat@;
    let dataset = BinnedDataset::new(num_rows, columns.len(), flat);
    assert forall|row: int, feature: int| 0 <= row < num_rows && 0 <= feature < columns@.len() implies #[trigger] dataset.bin(
        row,
        feature,
    ) == columns@[feature]@[row] by {
        law_flat_cells_are_found_again(columns@, num_rows as nat, feature, row);
        assert(dataset.bin(row, feature) == bins[feature * num_rows + row]);
    }
    dataset
}

/// What is wrong with the lengths of arrays of bins, if anything.
pub open spec fn arrays_problem(num_features: nat, num_rows: nat, targets: nat, described: nat) -> Option<Seq<char>> {
    if targets != num_rows {
        Some(two_numbers("targets length "@, targets, " doesn't match num_rows "@, num_rows, ""@))
    } else if described != num_features {
        Some(two_numbers("feature_info length "@, described, " doesn't match num_features "@, num_features, ""@))
    } else {
        None
    }
}

/// Data from bins: one line of `features` per feature, one cell per row.
/// `targets` and `described` say how many targets and feature descriptions come
/// with them.
pub fn dataset_from_arrays(features: &[Vec<u8>], num_rows: usize, targets: usize, described: usize) -> (dataset: Result<
    BinnedDataset,
    String,
>)
    requires
        is_table(features@, num_rows as nat),
    ensures
        match dataset {
            Ok(data) => {
                &&& arrays_problem(features@.len(), num_rows as nat, targets as nat, described as nat) is None
                &&& holds_columns(data, features@, num_rows as nat)
            },
            Err(message) => arrays_problem(features@.len(), num_rows as nat, targets as nat, described as nat) == Some(
                message@,
            ),
        },
{
    match check_targets(targets, num_rows) {
        Err(message) => {
            return Err(message);
        },
        Ok(_) => {},
    }
    match check_feature_info(described, features.len()) {
        Err(message) => {
            return Err(message);
        },
        Ok(_) => {},
    }
    Ok(dataset_of(features, num_rows))
}

/// The names of the columns of a table of numbers: there has to be a target for
/// each row, and a name for each column where names are given.
pub fn names_of_columns(num_rows: usize, num_features: usize, targets: usize, given: Option<Vec<String>>) -> (names: Result<
    Vec<String>,
    String,
>)
    ensures
        match names {
            Ok(list) => {
                &&& targets == num_rows
                &&& list@.len() == num_features
                &&& match given {
                    Some(texts_given) => list == texts_given,
                    None => texts(list@) == default_names(num_features as nat),
                }
            },
            Err(message) => if targets != num_rows {
                message@ == two_numbers("targets length "@, targets as nat, " doesn't match num_rows "@, num_rows as nat, ""@)
            } else {
                given matches Some(texts_given) && texts_given@.len() != num_features && message@ == two_numbers(
                    "feature_names length "@,
                    texts_given@.len(),
                    " doesn't match num_features "@,
                    num_features as nat,
                    ""@,
                )
            },
        },
{
    match check_targets(targets, num_rows) {
        Err(message) => Err(message),
        Ok(_) => {
            let ghost no_names = given is None;
            let names = feature_names(given, num_features);
            proof {
                if no_names && names is Ok {
                    assert(texts(names->Ok_0@).len() == num_features);
                }
            }
            names
        },
    }
}

/// What was said of the first column that could not be binned, if there is one.
pub open spec fn first_failure(names: Seq<String>, binned: Seq<Result<Vec<u8>, String>>) -> Option<Seq<char>>
    decreases binned.len(),
{
    if binned.len() == 0 {
        None
    } else {
        match first_failure(names, binned.drop_last()) {
            Some(text) => Some(text),
            None => match binned.last() {
                Ok(_) => None,
                Err(reason) => Some(
                    "Failed to process column '"@ + names[binned.len() - 1]@ + "': "@ + reason@,
                ),
            },
        }
    }
}

/// Data from columns of numbers after binning. The first column that could not be
/// binned is reported by its name.
pub fn dataset_from_columns(names: &[String], binned: Vec<Result<Vec<u8>, String>>, num_rows: usize) -> (dataset: Result<
    BinnedDataset,
    String,
>)
    requires
        names@.len() == binned@.len(),
        forall|i: int| 0 <= i < binned@.len() ==> (#[trigger] binned@[i] matches Ok(column) ==> column@.len() == num_rows),
    ensures
        match dataset {
            Ok(data) => {
                &&& forall|i: int| 0 <= i < binned@.len() ==> #[trigger] binned@[i] is Ok
                &&& holds_columns(data, Seq::new(binned@.len(), |i: int| binned@[i]->Ok_0), num_rows as nat)
            },
            Err(message) => first_failure(names@, binned@) == Some(message@),
        },
{
    let count: usize = binned.len();
    let ghost all = binned@;
    let mut columns: Vec<Vec<u8>> = Vec::new();
    let mut i: usize = 0;
    while i < count
        invariant
            i <= count == binned@.len(),
            all == binned@,
            names@.len() == count,
            forall|k: int| 0 <= k < all.len() ==> (#[trigger] all[k] matches Ok(column) ==> column@.len() == num_rows),
            columns@.len() == i,
            forall|k: int| 0 <= k < i ==> #[trigger] all[k] is Ok && columns@[k]@ == all[k]->Ok_0@,
            first_failure(names@, all.take(i as int)) is None,
        decreases count - i,
    {
        assert(all.take(i + 1).drop_last() =~= all.take(i as int));
        match &binned[i] {
            Ok(column) => {
                columns.push(copied(column));
            },
            Err(reason) => {
                let mut text: String = "Failed to process column '".to_owned();
                text.append(names[i].as_str());
                text.append("': ");
                text.append(reason.as_str());
                proof {
                    assert(first_failure(names@, all.take(i + 1)) == Some(text@));
                    lemma_failure_stays(names@, all, i + 1);
                }
                return Err(text);
            },
        }
        i = i + 1;
    }
    assert(is_table(columns@, num_rows as nat)) by {
        assert forall|k: int| 0 <= k < columns@.len() implies (#[trigger] columns@[k])@.len() == num_rows by {
            assert(all[k] is Ok);
        }
    }
    let dataset = dataset_of(columns.as_slice(), num_rows);
    proof {
        let found = Seq::new(all.len(), |k: int| all[k]->Ok_0);
        assert forall|row: int, feature: int| 0 <= row < num_rows && 0 <= feature < found.len() implies #[trigger] dataset.bin(
            row,
            feature,
        ) == found[feature]@[row] by {
            assert(all[feature] is Ok);
        }
    }
    Ok(dataset)
}

proof fn lemma_failure_stays(names: Seq<String>, binned: Seq<Result<Vec<u8>, String>>, n: int)
    requires
        0 <= n <= binned.len(),
        first_failure(names, binned.take(n)) is Some,
    ensures
        first_failure(names, binned) == first_failure(names, binned.take(n)),
    decreases binned.len() - n,
{
    if n < binned.len() {
        assert(binned.take(n + 1).drop_last() =~= binned.take(n));
        lemma_failure_stays(names, binned, n + 1);
    } else {
        assert(binned.take(n) =~= binned);
    }
}

/// The bins of a column.
fn copied(column: &Vec<u8>) -> (copy: Vec<u8>)
    ensures
        copy@ == column@,
{
    let mut copy: Vec<u8> = Vec::new();
    let mut i: usize = 0;
    while i < column.len()
        invariant
            i <= column@.len(),
            copy@ == column@.take(i as int),
        decreases column@.len() - i,
    {
        copy.push(column[i]);
        i = i + 1;
        assert(copy@ =~= column@.take(i as int));
    }
    assert(column@.take(i as int) =~= column@);
    copy
}

/// The bin of a row in a feature. The row is looked at first.
pub fn bin_at(dataset: &BinnedDataset, row: usize, feature: usize) -> (bin: Result<u8, String>)
    requires
        dataset.wf(),
    ensures
        match bin {
            Ok(value) => row < dataset.rows() && feature < dataset.features() && value == dataset.bin(
                row as int,
                feature as int,
            ),
            Err(message) => message@ == if row >= dataset.rows() {
                two_numbers("row index "@, row as nat, " out of range (num_rows="@, dataset.rows(), ")"@)
            } else {
                two_numbers(
                    "feature index "@,
                    feature as nat,
                    " out of range (num_features="@,
                    dataset.features(),
                    ")"@,
                )
            } && (row >= dataset.rows() || feature >= dataset.features()),
        },
{
    match check_row_index(row, dataset.num_rows()) {
        Err(message) => {
            return Err(message);
        },
        Ok(_) => {},
    }
    match check_feature_index(feature, dataset.num_features()) {
        Err(message) => {
            return Err(message);
        },
        Ok(_) => {},
    }
    Ok(dataset.get_bin(row, feature))
}

/// The bins of all rows in a feature.
pub fn column_at(dataset: &BinnedDataset, feature: usize) -> (column: Result<&[u8], String>)
    requires
        dataset.wf(),
    ensures
        match column {
            Ok(bins) => {
                &&& feature < dataset.features()
                &&& bins@ == Seq::new(dataset.rows(), |row: int| dataset.bin(row, feature as int))
            },
            Err(message) => feature >= dataset.features() && message@ == two_numbers(
                "feature index "@,
                feature as nat,
                " out of range (num_features="@,
                dataset.features(),
                ")"@,
            ),
        },
{
    match check_feature_index(feature, dataset.num_features()) {
        Err(message) => Err(message),
        Ok(_) => {
            let bins = dataset.feature_column(feature);
            assert(bins@ =~= Seq::new(dataset.rows(), |row: int| dataset.bin(row, feature as int)));
            Ok(bins)
        },
    }
}

} // verus!
