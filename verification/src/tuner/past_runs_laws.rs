//! What is read back from earlier runs: the cells of a row under their headers,
//! the rows that have a metric, and the best of them.

use crate::float::F32;
use crate::sorting::{in_order, law_order_goes_by_the_numbers, lemma_every_position_occurs, no_nan, positions};
use crate::tuner::past_runs::{
    kept_count, metric_of, row_map, row_values, rows_with, spans, values_under, ValueRange,
};
use crate::tuner::values::{distinct_names, lookup, ParamMap};
use vstd::prelude::*;

verus! {

/// A row has a value under a header exactly where the cell below it holds a
/// number; cells without a header and headers without a cell do not count.
pub proof fn law_cells_stand_under_their_headers(headers: Seq<Seq<char>>, cells: Seq<Option<F32>>, name: Seq<char>)
    requires
        headers.no_duplicates(),
    ensures
        row_map(headers, cells).dom().contains(name) <==> exists|i: int|
            0 <= i < headers.len() && i < cells.len() && #[trigger] headers[i] == name && cells[i] is Some,
        forall|i: int|
            0 <= i < headers.len() && i < cells.len() && #[trigger] headers[i] == name && cells[i] is Some
                ==> row_map(headers, cells)[name] == cells[i]->0,
{
    let n = if cells.len() < headers.len() {
        cells.len()
    } else {
        headers.len()
    };
    lemma_cells(headers, cells, n, name);
}

proof fn lemma_cells(headers: Seq<Seq<char>>, cells: Seq<Option<F32>>, n: nat, name: Seq<char>)
    requires
        headers.no_duplicates(),
        n <= headers.len(),
        n <= cells.len(),
    ensures
        row_values(headers, cells, n).dom().contains(name) <==> exists|i: int|
            0 <= i < n && #[trigger] headers[i] == name && cells[i] is Some,
        forall|i: int|
            0 <= i < n && #[trigger] headers[i] == name && cells[i] is Some ==> row_values(headers, cells, n)[name]
                == cells[i]->0,
    decreases n,
{
    if n > 0 {
        lemma_cells(headers, cells, (n - 1) as nat, name);
        let before = row_values(headers, cells, (n - 1) as nat);
        if before.dom().contains(name) {
            let i = choose|i: int| 0 <= i < n - 1 && #[trigger] headers[i] == name && cells[i] is Some;
            assert(0 <= i < n && headers[i] == name);
        }
        if headers[n - 1] == name {
            assert forall|i: int| 0 <= i < n - 1 implies #[trigger] headers[i] != name by {}
        }
    }
}

/// Rows are kept in their order, and only those that have the metric: one row
/// more adds its values where the metric is among them, and nothing otherwise.
pub proof fn law_rows_without_the_metric_are_left_out(
    headers: Seq<Seq<char>>,
    rows: Seq<Vec<Option<F32>>>,
    added: Vec<Option<F32>>,
    metric: Seq<char>,
)
    requires
        headers.no_duplicates(),
    ensures
        rows_with(headers, Seq::<Vec<Option<F32>>>::empty(), metric).len() == 0,
        ({
            let before = rows_with(headers, rows, metric);
            let after = rows_with(headers, rows.push(added), metric);
            let has_metric = exists|i: int|
                0 <= i < headers.len() && i < added@.len() && #[trigger] headers[i] == metric && added@[i] is Some;
            &&& has_metric ==> after == before.push(row_map(headers, added@))
            &&& !has_metric ==> after == before
        }),
        forall|k: int|
            0 <= k < rows_with(headers, rows, metric).len() ==> (#[trigger] rows_with(
                headers,
                rows,
                metric,
            )[k]).dom().contains(metric),
{
    assert(rows.push(added).drop_last() =~= rows);
    law_cells_stand_under_their_headers(headers, added@, metric);
    lemma_rows_have_the_metric(headers, rows, metric);
}

proof fn lemma_rows_have_the_metric(headers: Seq<Seq<char>>, rows: Seq<Vec<Option<F32>>>, metric: Seq<char>)
    ensures
        forall|k: int|
            0 <= k < rows_with(headers, rows, metric).len() ==> (#[trigger] rows_with(
                headers,
                rows,
                metric,
            )[k]).dom().contains(metric),
    decreases rows.len(),
{
    if rows.len() > 0 {
        lemma_rows_have_the_metric(headers, rows.drop_last(), metric);
        let before = rows_with(headers, rows.drop_last(), metric);
        assert forall|k: int| 0 <= k < rows_with(headers, rows, metric).len() implies (#[trigger] rows_with(
            headers,
            rows,
            metric,
        )[k]).dom().contains(metric) by {
            if k < before.len() {
                assert(before[k].dom().contains(metric));
            }
        }
    }
}

/// The metric of a trial is what it has under that name; a trial without it has
/// no number there.
pub proof fn law_missing_metrics_are_no_numbers(trial: Map<Seq<char>, F32>, metric: Seq<char>)
    ensures
        trial.dom().contains(metric) ==> metric_of(trial, metric) == trial[metric],
        !trial.dom().contains(metric) ==> metric_of(trial, metric).nan(),
{
}

/// As many trials are kept as are asked for, but at least one, and never more
/// than there are.
pub proof fn law_kept_count(n_top: nat, trials: nat)
    ensures
        1 <= n_top <= trials ==> kept_count(n_top, trials) == n_top,
        n_top >= trials ==> kept_count(n_top, trials) == trials || n_top == 0,
        trials >= 1 && n_top == 0 ==> kept_count(n_top, trials) == 1,
        trials == 0 ==> kept_count(n_top, trials) == 0,
{
}

/// The first places of an order hold the best: what is not among them is not
/// smaller than any of them in ascending order, and not larger in descending
/// order.
pub proof fn law_first_places_hold_the_best(
    keys: Seq<F32>,
    descending: bool,
    order: Seq<usize>,
    n: int,
    i: int,
    other: usize,
)
    requires
        no_nan(keys),
        positions(order, 0, keys.len() as int),
        in_order(keys, descending, order),
        0 <= i < n <= order.len(),
        other < keys.len(),
        !order.take(n).contains(other),
    ensures
        !descending ==> keys[order[i] as int].at_most(keys[other as int]),
        descending ==> keys[other as int].at_most(keys[order[i] as int]),
{
    lemma_every_position_occurs(order, keys.len(), other);
    let j = choose|j: int| 0 <= j < order.len() && order[j] == other;
    if j < n {
        assert(order.take(n)[j] == other);
    }
    law_order_goes_by_the_numbers(keys, descending, order, i, j);
}

/// The values that some trials have under a name are all that are numbers, and
/// no others.
pub proof fn law_values_are_those_of_the_trials(
    trials: Seq<ParamMap<F32>>,
    top: Seq<usize>,
    name: Seq<char>,
    value: F32,
)
    ensures
        values_under(trials, top, name).contains(value) <==> exists|i: int|
            0 <= i < top.len() && trials[#[trigger] top[i] as int]@.dom().contains(name) && trials[top[i] as int]@[name]
                == value && !value.nan(),
        values_under(trials, top, name).len() <= top.len(),
    decreases top.len(),
{
    if top.len() > 0 {
        let fewer = top.drop_last();
        law_values_are_those_of_the_trials(trials, fewer, name, value);
        let before = values_under(trials, fewer, name);
        let all = values_under(trials, top, name);
        let last = trials[top.last() as int]@;
        if all.contains(value) {
            let k = choose|k: int| 0 <= k < all.len() && all[k] == value;
            if k < before.len() {
                assert(before[k] == value);
                assert(before.contains(value));
                let i = choose|i: int|
                    0 <= i < fewer.len() && trials[#[trigger] fewer[i] as int]@.dom().contains(name)
                        && trials[fewer[i] as int]@[name] == value && !value.nan();
                assert(top[i] == fewer[i]);
            } else {
                assert(top[top.len() - 1] == top.last());
            }
        }
        if exists|i: int|
            0 <= i < top.len() && trials[#[trigger] top[i] as int]@.dom().contains(name) && trials[top[i] as int]@[name]
                == value && !value.nan() {
            let i = choose|i: int|
                0 <= i < top.len() && trials[#[trigger] top[i] as int]@.dom().contains(name)
                    && trials[top[i] as int]@[name] == value && !value.nan();
            if i < fewer.len() {
                assert(fewer[i] == top[i]);
                assert(before.contains(value));
                let k = choose|k: int| 0 <= k < before.len() && before[k] == value;
                assert(all[k] == value);
            } else {
                assert(all[before.len() as int] == value);
            }
        }
    }
}

/// A range is told by its values: two ranges of the same values have ends that
/// are equal as numbers, and no value lies outside.
pub proof fn law_range_is_told_by_its_values(a: ValueRange, b: ValueRange, values: Seq<F32>, i: int)
    requires
        spans(a, values),
        spans(b, values),
        0 <= i < values.len(),
    ensures
        a.least.same(b.least),
        a.greatest.same(b.greatest),
        !values[i].less(a.least),
        !a.greatest.less(values[i]),
{
    let p = choose|p: int| 0 <= p < values.len() && values[p] == a.least;
    let q = choose|q: int| 0 <= q < values.len() && values[q] == b.least;
    let r = choose|r: int| 0 <= r < values.len() && values[r] == a.greatest;
    let s = choose|s: int| 0 <= s < values.len() && values[s] == b.greatest;
    assert(b.least.at_most(values[p]) && a.least.at_most(values[q]));
    assert(values[s].at_most(a.greatest) && values[r].at_most(b.greatest));
}

/// Looking a name up gives the value that stands beside it, and nothing where
/// the name does not occur.
pub proof fn law_lookup_finds_what_stands_beside(items: Seq<(Seq<char>, F32)>, i: int, name: Seq<char>)
    requires
        distinct_names(items),
    ensures
        0 <= i < items.len() ==> lookup(items, items[i].0) == Some(items[i].1),
        (forall|j: int| 0 <= j < items.len() ==> (#[trigger] items[j]).0 != name) ==> lookup(items, name) is None,
    decreases items.len(),
{
    if items.len() > 0 {
        let rest = items.skip(1);
        assert forall|a: int, b: int| 0 <= a < b < rest.len() implies (#[trigger] rest[a]).0 != (
        #[trigger] rest[b]).0 by {
            assert(items[a + 1].0 != items[b + 1].0);
        }
        law_lookup_finds_what_stands_beside(rest, i - 1, name);
        if 0 < i < items.len() {
            assert(rest[i - 1] == items[i]);
            assert(items[0].0 != items[i].0);
        }
        if forall|j: int| 0 <= j < items.len() ==> (#[trigger] items[j]).0 != name {
            assert forall|j: int| 0 <= j < rest.len() implies (#[trigger] rest[j]).0 != name by {
                assert(rest[j] == items[j + 1]);
            }
        }
    }
}

} // verus!
