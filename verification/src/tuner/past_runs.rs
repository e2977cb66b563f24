//! Narrowing a search space by the results of earlier runs.

use crate::float::F32;
use crate::sorting::{in_order, no_nan, positions, stable_order};
use crate::text::{ends_with, starts_with};
use crate::tuner::bounds::texts;
use crate::tuner::space::{param_views, ParamDef, ParameterSpace};
use crate::tuner::values::ParamMap;
use vstd::prelude::*;

verus! {

/// The bits of a value that is no number.
pub const F32_NAN: u32 = 0x7fc0_0000;

/// Why the results of earlier runs cannot be used.
#[derive(Debug)]
pub enum HistoryError {
    /// There is no file with results.
    NoFiles,
    /// The first row of a file cannot be read.
    Headers {
        /// What is wrong with it.
        reason: String,
    },
    /// A row of a file cannot be read.
    Record {
        /// What is wrong with it.
        reason: String,
    },
    /// No row holds the metric.
    NoTrials,
}

/// An error of the `csv` crate.
#[verifier::external_type_specification]
#[verifier::external_body]
pub struct ExCsvError(csv::Error);

/// The first row of a file of comma-separated values as `csv::Reader::headers`
/// gives it, if it can be read.
pub uninterp spec fn csv_headers(data: Seq<u8>) -> Option<Seq<Seq<char>>>;

/// The other rows of a file of comma-separated values as `csv::Reader::records`
/// gives them, if all can be read.
pub uninterp spec fn csv_records(data: Seq<u8>) -> Option<Seq<Seq<Seq<char>>>>;

/// The views of some rows.
pub open spec fn row_texts(rows: Seq<Vec<String>>) -> Seq<Seq<Seq<char>>> {
    rows.map_values(|row: Vec<String>| texts(row@))
}

/// Calls `csv::Reader::headers` on bytes. What it returns depends on the bytes
/// alone and is named `csv_headers`.
#[verifier::external_body]
fn read_headers(data: &[u8]) -> (row: Result<Vec<String>, csv::Error>)
    ensures
        match row {
            Ok(names) => csv_headers(data@) == Some(texts(names@)),
            Err(_) => csv_headers(data@) is None,
        },
{
    let mut reader = csv::Reader::from_reader(data);
    let row = reader.headers()?;
    Ok(row.iter().map(|cell| cell.to_string()).collect())
}

/// Calls `csv::Reader::records` on bytes and collects the rows up to the first
/// that cannot be read. What comes out depends on the bytes alone and is named
/// `csv_records`.
#[verifier::external_body]
fn read_records(data: &[u8]) -> (rows: Result<Vec<Vec<String>>, csv::Error>)
    ensures
        match rows {
            Ok(found) => csv_records(data@) == Some(row_texts(found@)),
            Err(_) => csv_records(data@) is None,
        },
{
    let mut reader = csv::Reader::from_reader(data);
    reader
        .records()
        .map(|row| row.map(|record| record.iter().map(|cell| cell.to_string()).collect()))
        .collect()
}

/// Calls `to_string` on an error of the `csv` crate. Nothing is claimed of the
/// text.
#[verifier::external_body]
fn error_text(error: csv::Error) -> (text: String) {
    error.to_string()
}

/// A table with a name for each column.
#[derive(Debug)]
pub struct Table {
    /// The names of the columns.
    pub headers: Vec<String>,
    /// The cells, row by row.
    pub rows: Vec<Vec<String>>,
}

/// Reads a file of comma-separated values.
pub fn read_table(data: &[u8]) -> (table: Result<Table, HistoryError>)
    ensures
        match table {
            Ok(t) => {
                &&& csv_headers(data@) == Some(texts(t.headers@))
                &&& csv_records(data@) == Some(row_texts(t.rows@))
            },
            Err(HistoryError::Headers { .. }) => csv_headers(data@) is None,
            Err(HistoryError::Record { .. }) => csv_headers(data@) is Some && csv_records(data@) is None,
            Err(_) => false,
        },
{
    match read_headers(data) {
        Err(error) => Err(HistoryError::Headers { reason: error_text(error) }),
        Ok(headers) => match read_records(data) {
            Err(error) => Err(HistoryError::Record { reason: error_text(error) }),
            Ok(rows) => Ok(Table { headers, rows }),
        },
    }
}

/// Whether a file holds the results of an iteration, by its name.
pub fn is_iteration_file(name: &str) -> (is: bool)
    ensures
        is == ("iteration_"@.is_prefix_of(name@) && ".csv"@.is_suffix_of(name@)),
{
    starts_with(name, "iteration_") && ends_with(name, ".csv")
}

/// The names of the files that hold the results of iterations.
pub fn iteration_files(names: &[String]) -> (found: Result<Vec<usize>, HistoryError>)
    ensures
        ({
            let wanted = |i: int| "iteration_"@.is_prefix_of(names@[i]@) && ".csv"@.is_suffix_of(names@[i]@);
            match found {
                Ok(indices) => indices@.len() > 0 && indices@ == crate::seqs::ascending_where(names@.len(), wanted),
                Err(error) => error is NoFiles && forall|i: int| 0 <= i < names@.len() ==> !(#[trigger] wanted(i)),
            }
        }),
{
    let ghost wanted = |i: int| "iteration_"@.is_prefix_of(names@[i]@) && ".csv"@.is_suffix_of(names@[i]@);
    let count: usize = names.len();
    let mut indices: Vec<usize> = Vec::new();
    let mut i: usize = 0;
    while i < count
        invariant
            i <= count == names@.len(),
            wanted == (|i: int| "iteration_"@.is_prefix_of(names@[i]@) && ".csv"@.is_suffix_of(names@[i]@)),
            indices@ == crate::seqs::ascending_where(i as nat, wanted),
            indices@.len() == 0 ==> forall|j: int| 0 <= j < i ==> !(#[trigger] wanted(j)),
        decreases count - i,
    {
        let is: bool = is_iteration_file(names[i].as_str());
        assert(is == wanted(i as int));
        if is {
            indices.push(i);
        }
        i = i + 1;
    }
    if indices.len() == 0 {
        Err(HistoryError::NoFiles)
    } else {
        Ok(indices)
    }
}

/// The values of the first `n` cells of a row by the names of their columns.
/// Cells that are no numbers are left out. Where columns share a name, the last
/// one counts.
pub open spec fn row_values(headers: Seq<Seq<char>>, cells: Seq<Option<F32>>, n: nat) -> Map<Seq<char>, F32>
    decreases n,
{
    if n == 0 {
        Map::empty()
    } else {
        let before = row_values(headers, cells, (n - 1) as nat);
        match cells[n - 1] {
            Some(value) => before.insert(headers[n - 1], value),
            None => before,
        }
    }
}

/// The values of a row by the names of their columns.
pub open spec fn row_map(headers: Seq<Seq<char>>, cells: Seq<Option<F32>>) -> Map<Seq<char>, F32> {
    row_values(
        headers,
        cells,
        if cells.len() < headers.len() {
            cells.len()
        } else {
            headers.len()
        },
    )
}

/// The rows that hold the metric, as values by name.
pub open spec fn rows_with(headers: Seq<Seq<char>>, rows: Seq<Vec<Option<F32>>>, metric: Seq<char>) -> Seq<Map<Seq<char>, F32>>
    decreases rows.len(),
{
    if rows.len() == 0 {
        Seq::empty()
    } else {
        let before = rows_with(headers, rows.drop_last(), metric);
        let last = row_map(headers, rows.last()@);
        if last.dom().contains(metric) {
            before.push(last)
        } else {
            before
        }
    }
}

/// The views of some trials.
pub open spec fn trial_views(trials: Seq<ParamMap<F32>>) -> Seq<Map<Seq<char>, F32>> {
    trials.map_values(|trial: ParamMap<F32>| trial@)
}

/// The values of a row.
fn row_of(headers: &Vec<String>, cells: &Vec<Option<F32>>) -> (trial: ParamMap<F32>)
    ensures
        trial@ == row_map(texts(headers@), cells@),
{
    let width: usize = if cells.len() < headers.len() {
        cells.len()
    } else {
        headers.len()
    };
    let mut trial: ParamMap<F32> = ParamMap::new();
    let mut i: usize = 0;
    while i < width
        invariant
            i <= width <= headers@.len(),
            width <= cells@.len(),
            trial.wf(),
            trial@ == row_values(texts(headers@), cells@, i as nat),
        decreases width - i,
    {
        match cells[i] {
            Some(value) => {
                trial.insert(headers[i].clone(), value);
            },
            None => {},
        }
        i = i + 1;
    }
    trial
}

/// Adds the rows of a table that hold the metric to the trials. `rows` holds the
/// cells as numbers; a cell that is no number is `None`.
pub fn add_trials(trials: &mut Vec<ParamMap<F32>>, headers: &Vec<String>, rows: &[Vec<Option<F32>>], metric_column: &str)
    ensures
        trial_views(final(trials)@) == trial_views(old(trials)@) + rows_with(texts(headers@), rows@, metric_column@),
{
    let count: usize = rows.len();
    let mut i: usize = 0;
    assert(trial_views(trials@) =~= trial_views(old(trials)@) + rows_with(texts(headers@), rows@.take(0), metric_column@));
    while i < count
        invariant
            i <= count == rows@.len(),
            trial_views(trials@) == trial_views(old(trials)@) + rows_with(
                texts(headers@),
                rows@.take(i as int),
                metric_column@,
            ),
        decreases count - i,
    {
        let ghost before = trial_views(trials@);
        let ghost base = trial_views(old(trials)@);
        let ghost kept = rows_with(texts(headers@), rows@.take(i as int), metric_column@);
        let trial = row_of(headers, &rows[i]);
        assert(rows@.take(i + 1).drop_last() =~= rows@.take(i as int));
        assert(rows@.take(i + 1).last() == rows@[i as int]);
        if trial.contains_key(metric_column) {
            let ghost added = trial@;
            trials.push(trial);
            assert(trial_views(trials@) =~= before.push(added));
            assert(before.push(added) =~= base + kept.push(added));
        }
        i = i + 1;
    }
    assert(rows@.take(count as int) =~= rows@);
}

/// The metric of a trial; no number where the trial does not hold it.
pub open spec fn metric_of(trial: Map<Seq<char>, F32>, metric: Seq<char>) -> F32 {
    if trial.dom().contains(metric) {
        trial[metric]
    } else {
        F32 { bits: F32_NAN }
    }
}

/// The metrics of some trials.
pub open spec fn metrics_of(trials: Seq<ParamMap<F32>>, metric: Seq<char>) -> Seq<F32> {
    trials.map_values(|trial: ParamMap<F32>| metric_of(trial@, metric))
}

/// How many of some trials are kept: as many as asked for, at least one and at
/// most all.
pub open spec fn kept_count(n_top: nat, trials: nat) -> nat {
    let wanted = if n_top < 1 {
        1
    } else {
        n_top
    };
    if wanted < trials {
        wanted
    } else {
        trials
    }
}

/// The positions of the best trials, best first; equal ones in the order in
/// which they came in.
pub fn top_trials(trials: &[ParamMap<F32>], n_top: usize, metric_column: &str, higher_is_better: bool) -> (top: Result<Vec<usize>, HistoryError>)
    ensures
        match top {
            Ok(best) => {
                &&& trials@.len() > 0
                &&& exists|order: Seq<usize>|
                    {
                        &&& #[trigger] positions(order, 0, trials@.len() as int)
                        &&& no_nan(metrics_of(trials@, metric_column@)) ==> in_order(
                            metrics_of(trials@, metric_column@),
                            higher_is_better,
                            order,
                        )
                        &&& best@ == order.take(kept_count(n_top as nat, trials@.len()) as int)
                    }
            },
            Err(error) => error is NoTrials && trials@.len() == 0,
        },
{
    let count: usize = trials.len();
    if count == 0 {
        return Err(HistoryError::NoTrials);
    }
    let mut metrics: Vec<F32> = Vec::new();
    let mut i: usize = 0;
    while i < count
        invariant
            i <= count == trials@.len(),
            metrics@ == metrics_of(trials@, metric_column@).take(i as int),
        decreases count - i,
    {
        match trials[i].get(metric_column) {
            Some(value) => metrics.push(*value),
            None => metrics.push(F32 { bits: F32_NAN }),
        }
        i = i + 1;
        assert(metrics@ =~= metrics_of(trials@, metric_column@).take(i as int));
    }
    assert(metrics@ =~= metrics_of(trials@, metric_column@));
    let mut best: Vec<usize> = stable_order(metrics.as_slice(), higher_is_better);
    let wanted: usize = if n_top < 1 {
        1
    } else {
        n_top
    };
    let ghost order = best@;
    if wanted < count {
        best.truncate(wanted);
    }
    proof {
        assert(positions(order, 0, trials@.len() as int));
        assert(best@ =~= order.take(kept_count(n_top as nat, trials@.len()) as int));
    }
    Ok(best)
}

/// The numbers that some trials hold under a name.
pub open spec fn values_under(trials: Seq<ParamMap<F32>>, top: Seq<usize>, name: Seq<char>) -> Seq<F32>
    decreases top.len(),
{
    if top.len() == 0 {
        Seq::empty()
    } else {
        let before = values_under(trials, top.drop_last(), name);
        let trial = trials[top.last() as int]@;
        if trial.dom().contains(name) && !trial[name].nan() {
            before.push(trial[name])
        } else {
            before
        }
    }
}

/// The smallest and the largest of some numbers.
#[derive(Debug, Clone, Copy, PartialEq, Eq, Structural)]
pub struct ValueRange {
    /// The smallest.
    pub least: F32,
    /// The largest.
    pub greatest: F32,
}

/// Whether a range is that of some numbers: its ends are among them and the
/// others between.
pub open spec fn spans(range: ValueRange, values: Seq<F32>) -> bool {
    &&& values.contains(range.least)
    &&& values.contains(range.greatest)
    &&& forall|i: int|
        0 <= i < values.len() ==> range.least.at_most(#[trigger] values[i]) && values[i].at_most(range.greatest)
}

/// The range of what the best trials hold under a name.
pub fn observed_range(trials: &[ParamMap<F32>], top: &[usize], name: &str) -> (range: Option<ValueRange>)
    requires
        forall|i: int| 0 <= i < top@.len() ==> #[trigger] top@[i] < trials@.len(),
    ensures
        match range {
            Some(r) => spans(r, values_under(trials@, top@, name@)),
            None => values_under(trials@, top@, name@).len() == 0,
        },
{
    let count: usize = top.len();
    let mut range: Option<ValueRange> = None;
    let mut i: usize = 0;
    while i < count
        invariant
            i <= count == top@.len(),
            forall|j: int| 0 <= j < top@.len() ==> #[trigger] top@[j] < trials@.len(),
            forall|j: int|
                0 <= j < values_under(trials@, top@.take(i as int), name@).len() ==> !(#[trigger] values_under(
                    trials@,
                    top@.take(i as int),
                    name@,
                )[j]).nan(),
            match range {
                Some(r) => spans(r, values_under(trials@, top@.take(i as int), name@)),
                None => values_under(trials@, top@.take(i as int), name@).len() == 0,
            },
        decreases count - i,
    {
        let ghost before = values_under(trials@, top@.take(i as int), name@);
        assert(top@.take(i + 1).drop_last() =~= top@.take(i as int));
        assert(top@.take(i + 1).last() == top@[i as int]);
        match trials[top[i]].get(name) {
            Some(found) => {
                let value: F32 = *found;
                if !value.is_nan() {
                    let ghost after = before.push(value);
                    assert(after == values_under(trials@, top@.take(i + 1), name@));
                    assert(after[before.len() as int] == value);
                    match range {
                        None => {
                            range = Some(ValueRange { least: value, greatest: value });
                        },
                        Some(r) => {
                            let least: F32 = if value.lt(r.least) {
                                value
                            } else {
                                r.least
                            };
                            let greatest: F32 = if r.greatest.lt(value) {
                                value
                            } else {
                                r.greatest
                            };
                            proof {
                                let a = choose|a: int| 0 <= a < before.len() && before[a] == r.least;
                                let b = choose|b: int| 0 <= b < before.len() && before[b] == r.greatest;
                                assert(after[a] == r.least && after[b] == r.greatest);
                                assert forall|j: int| 0 <= j < after.len() implies least.at_most(#[trigger] after[j]) && after[j].at_most(greatest) by {
                                    if j < before.len() {
                                        assert(r.least.at_most(before[j]) && before[j].at_most(r.greatest));
                                    }
                                }
                            }
                            range = Some(ValueRange { least, greatest });
                        },
                    }
                }
            },
            None => {},
        }
        i = i + 1;
    }
    assert(top@.take(count as int) =~= top@);
    range
}

/// The ranges of what the best trials hold, one for each parameter of a space.
pub fn observed_ranges(space: &ParameterSpace, trials: &[ParamMap<F32>], top: &[usize]) -> (ranges: Vec<Option<ValueRange>>)
    requires
        forall|i: int| 0 <= i < top@.len() ==> #[trigger] top@[i] < trials@.len(),
    ensures
        ranges@.len() == space@.len(),
        forall|i: int|
            0 <= i < space@.len() ==> match #[trigger] ranges@[i] {
                Some(r) => spans(r, values_under(trials@, top@, space@[i].name.name())),
                None => values_under(trials@, top@, space@[i].name.name()).len() == 0,
            },
{
    let params: &[ParamDef] = space.params();
    let count: usize = params.len();
    let mut ranges: Vec<Option<ValueRange>> = Vec::new();
    let mut i: usize = 0;
    while i < count
        invariant
            i <= count == params@.len() == space@.len(),
            param_views(params@) == space@,
            ranges@.len() == i,
            forall|j: int| 0 <= j < top@.len() ==> #[trigger] top@[j] < trials@.len(),
            forall|j: int|
                0 <= j < i ==> match #[trigger] ranges@[j] {
                    Some(r) => spans(r, values_under(trials@, top@, space@[j].name.name())),
                    None => values_under(trials@, top@, space@[j].name.name()).len() == 0,
                },
        decreases count - i,
    {
        assert(space@[i as int] == params@[i as int]@);
        ranges.push(observed_range(trials, top, params[i].name_str()));
        i = i + 1;
    }
    ranges
}

} // verus!
