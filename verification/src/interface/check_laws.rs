//! What the checks of numbers, sizes and indices let through.

use crate::dataset::BinnedDataset;
use crate::float::{F32, F64};
use crate::interface::arrays::{arrays_problem, first_failure, holds_columns};
use crate::interface::data::{
    default_names, folds_problem, gradient_problem, holdout_problem, query_problem, tells, two_numbers, wide_outside_unit,
    ClassQuery,
};
use crate::interface::names::{ascii_lowercase, outcome, understood};
use crate::interface::settings::{above_one, at_least_one, direction, negative, not_positive, proper_share};
use crate::interface::tuner_setup::made_so_far;
use crate::interface::tuning::{added, bounds_outcome, ends_problem, log_ends_problem, steps_problem};
use crate::text::decimal;
use crate::tree::split::MonotonicConstraint;
use crate::tuner::bounds::{BoundsView, ParamBounds};
use crate::tuner::config::{reports, ConfigError, Problem, TunerConfig};
use crate::tuner::params::TunableParam;
use crate::tuner::space::{law_added_param_replaces_the_old, placed, without, ParamView, ParameterSpace};
use vstd::prelude::*;

verus! {

/// What the tests of numbers mean, by the bits of the number: both zeros are not
/// positive and not negative, 1 is at least 1 and not above it, and what is no
/// number passes none of them.
pub proof fn law_tests_of_numbers(x: F32)
    ensures
        x.nan() ==> !not_positive(x) && !negative(x) && !above_one(x) && !at_least_one(x) && !proper_share(x),
        !x.nan() ==> {
            &&& not_positive(x) <==> x.bits == 0 || x.bits >= 0x8000_0000
            &&& negative(x) <==> x.bits > 0x8000_0000
            &&& above_one(x) <==> 0x3f80_0000 < x.bits < 0x8000_0000
            &&& at_least_one(x) <==> 0x3f80_0000 <= x.bits < 0x8000_0000
            &&& proper_share(x) <==> x.bits < 0x3f80_0000 || x.bits == 0x8000_0000
        },
{
}

/// The same in double precision: outside are the numbers up to 0 and from 1 on.
pub proof fn law_wide_open_unit_interval(x: F64)
    ensures
        wide_outside_unit(x) <==> !x.nan() && (x.bits == 0 || x.bits >= 0x3ff0_0000_0000_0000),
{
}

/// The codes of directions: 1 rises, -1 falls, 0 is free, and there is no other.
pub proof fn law_direction_codes(code: i32)
    ensures
        direction(code) == Some(MonotonicConstraint::Increasing) <==> code == 1,
        direction(code) == Some(MonotonicConstraint::Decreasing) <==> code == -1,
        direction(code) == Some(MonotonicConstraint::Unconstrained) <==> code == 0,
        direction(code) is None <==> code < -1 || code > 1,
{
}

/// Which ends of an interval are accepted: numbers of which the first is the
/// smaller, and on a logarithmic scale a positive first one.
pub proof fn law_accepted_ends(min: F32, max: F32)
    requires
        !min.nan(),
        !max.nan(),
    ensures
        ends_problem(min, max) is None <==> min.less(max),
        log_ends_problem(min, max) is None <==> min.less(max) && 0 < min.bits < 0x8000_0000,
        min.bits == 0 || min.bits >= 0x8000_0000 ==> log_ends_problem(min, max)
            == Some("min must be positive for log scaling"@),
        !min.less(max) ==> ends_problem(min, max) == Some("min must be less than max"@),
{
}

/// Which steps are accepted: from a smaller number to a larger one, by at least
/// one.
pub proof fn law_accepted_steps(min: usize, max: usize, step: usize)
    ensures
        steps_problem(min, max, step) is None <==> min < max && step >= 1,
        min >= max ==> steps_problem(min, max, step) == Some("min must be less than max"@),
        min < max && step == 0 ==> steps_problem(min, max, step) == Some("step must be positive"@),
{
}

/// Which shares of the rows can be held out: there are rows, neither share is
/// negative or reaches 1, and neither does their sum.
pub proof fn law_accepted_holdout(n_samples: nat, val_ratio: F32, calib_ratio: F32, sum: F32)
    ensures
        holdout_problem(n_samples, val_ratio, calib_ratio, sum) is None <==> {
            &&& n_samples > 0
            &&& val_ratio.bits < 0x3f80_0000 || val_ratio.bits == 0x8000_0000
            &&& calib_ratio.bits < 0x3f80_0000 || calib_ratio.bits == 0x8000_0000
            &&& !(0x3f80_0000 <= sum.bits <= 0x7f80_0000)
        },
        n_samples == 0 ==> holdout_problem(n_samples, val_ratio, calib_ratio, sum) == Some("n_samples must be > 0"@),
        n_samples > 0 && !(val_ratio.bits < 0x3f80_0000 || val_ratio.bits == 0x8000_0000) ==> holdout_problem(
            n_samples,
            val_ratio,
            calib_ratio,
            sum,
        ) == Some("val_ratio must be in [0.0, 1.0)"@),
{
}

/// Into how many folds rows can be parted: at least two, and at most one per
/// row.
pub proof fn law_accepted_folds(n_samples: nat, k: nat)
    ensures
        folds_problem(n_samples, k) is None <==> 2 <= k <= n_samples,
        n_samples == 0 ==> folds_problem(n_samples, k) == Some("n_samples must be > 0"@),
        n_samples > 0 && k < 2 ==> folds_problem(n_samples, k) == Some("k must be >= 2 for cross-validation"@),
        n_samples > 0 && k >= 2 && k > n_samples ==> folds_problem(n_samples, k) == Some(
            "k cannot exceed n_samples"@,
        ),
{
}

/// Which questions a model answers: those about two classes unless it has more,
/// and those about several only then.
pub proof fn law_answered_questions(query: ClassQuery, multiclass: bool)
    ensures
        query == ClassQuery::Proba || query == ClassQuery::Class ==> (query_problem(query, multiclass) is None
            <==> !multiclass),
        query == ClassQuery::ProbaMulticlass || query == ClassQuery::ClassMulticlass ==> (query_problem(
            query,
            multiclass,
        ) is None <==> multiclass),
{
}

/// Which gradients can be computed: there is a raw prediction for each class, and
/// the classes that are named are among them.
pub proof fn law_computable_gradients(raw: nat, target: nat, class: Option<usize>, num_classes: nat)
    ensures
        gradient_problem(raw, target, class, num_classes) is None <==> {
            &&& raw == num_classes
            &&& target < num_classes
            &&& class is None || class->0 < num_classes
        },
{
}

/// Which arrays make a data set: a target per row and a description per feature.
pub proof fn law_matching_arrays(num_features: nat, num_rows: nat, targets: nat, described: nat)
    ensures
        arrays_problem(num_features, num_rows, targets, described) is None <==> targets == num_rows && described
            == num_features,
        targets != num_rows ==> arrays_problem(num_features, num_rows, targets, described) == Some(
            "targets length "@ + decimal(targets) + " doesn't match num_rows "@ + decimal(num_rows),
        ),
{
    if targets != num_rows {
        reveal_strlit("");
        assert(two_numbers("targets length "@, targets, " doesn't match num_rows "@, num_rows, ""@) =~= "targets length "@
            + decimal(targets) + " doesn't match num_rows "@ + decimal(num_rows));
    }
}

/// Features without names are called by their position.
pub proof fn law_default_names(num_features: nat, i: int)
    requires
        0 <= i < num_features,
    ensures
        default_names(num_features).len() == num_features,
        default_names(num_features)[i] == "feature_"@ + decimal(i as nat),
{
}

/// The failure that is told is that of the first column that failed, and none is
/// told where every column was read.
pub proof fn law_first_failure_is_told(names: Seq<String>, binned: Seq<Result<Vec<u8>, String>>, i: int)
    requires
        0 <= i < binned.len(),
        binned[i] is Err,
        forall|j: int| 0 <= j < i ==> (#[trigger] binned[j]) is Ok,
    ensures
        first_failure(names, binned) == Some(
            "Failed to process column '"@ + names[i]@ + "': "@ + (binned[i]->Err_0)@,
        ),
        first_failure(names, binned.take(i)) is None,
    decreases binned.len(),
{
    lemma_no_failure(names, binned.take(i));
    if i < binned.len() - 1 {
        law_first_failure_is_told(names, binned.drop_last(), i);
    } else {
        assert(binned.drop_last() =~= binned.take(i));
    }
}

proof fn lemma_no_failure(names: Seq<String>, binned: Seq<Result<Vec<u8>, String>>)
    requires
        forall|j: int| 0 <= j < binned.len() ==> (#[trigger] binned[j]) is Ok,
    ensures
        first_failure(names, binned) is None,
    decreases binned.len(),
{
    if binned.len() > 0 {
        lemma_no_failure(names, binned.drop_last());
        assert(binned[binned.len() - 1] is Ok);
    }
}

/// A check comes out well exactly when its condition holds, with the value that
/// it is for, and otherwise with its message.
pub proof fn law_outcomes_are_exact<T>(got: Result<T, String>, holds: bool, value: T, rule: Seq<char>)
    requires
        outcome(got, holds, value, rule),
    ensures
        got is Ok <==> holds,
        got is Ok ==> got->Ok_0 == value,
        got is Err ==> (got->Err_0)@ == rule,
{
}

/// A name comes out as what it means, and a name without a meaning as the
/// message.
pub proof fn law_meanings_are_exact<T>(got: Result<T, String>, meant: Option<T>, rule: Seq<char>)
    requires
        understood(got, meant, rule),
    ensures
        got is Ok <==> meant is Some,
        got is Ok ==> got->Ok_0 == meant->0,
        got is Err ==> (got->Err_0)@ == rule,
{
}

/// A check tells the problem that there is, and none where there is none.
pub proof fn law_problems_are_told(
    checked: Result<(), String>,
    problem: Option<Seq<char>>,
    validated: Result<(), ConfigError>,
    found: Option<Problem>,
)
    ensures
        tells(checked, problem) ==> (checked is Ok <==> problem is None) && (checked is Err ==> (checked->Err_0)@
            == problem->0),
        reports(validated, found) ==> (validated is Ok <==> found is None) && (validated is Err ==> (
        validated->Err_0)@ == found->0),
{
}

/// Bounds are made when nothing is wrong with their ends, and are those that were
/// asked for.
pub proof fn law_bounds_are_made(got: Result<ParamBounds, String>, problem: Option<Seq<char>>, bounds: BoundsView)
    requires
        bounds_outcome(got, problem, bounds),
    ensures
        got is Ok <==> problem is None,
        got is Ok ==> (got->Ok_0)@ == bounds,
        got is Err ==> (got->Err_0)@ == problem->0,
{
}

/// A parameter is added behind the others, in place of one of its name, with the
/// bounds that were asked for and the center held to them; nothing is added where
/// there is a problem or the name is not known.
pub proof fn law_param_is_added(
    got: Result<ParameterSpace, String>,
    before: Seq<ParamView>,
    name: Seq<char>,
    problem: Option<Seq<char>>,
    bounds: BoundsView,
    center: F32,
    other: ParamView,
)
    requires
        added(got, before, name, problem, bounds, center),
    ensures
        problem is Some ==> got is Err && (got->Err_0)@ == problem->0,
        got is Ok ==> {
            let after = (got->Ok_0)@;
            &&& after.len() > 0
            &&& after.last().name.name() == name
            &&& after.last().bounds == bounds
            &&& after.last().center == bounds.clamped(center)
            &&& other.name.name() != name ==> (after.contains(other) <==> before.contains(other))
        },
        problem is None ==> (got is Err <==> forall|param: TunableParam| #[trigger] param.name() != name),
{
    if got is Ok {
        let after = (got->Ok_0)@;
        let param = choose|param: TunableParam| #[trigger]
            param.name() == name && after == without(before, param).push(placed(param, bounds, center));
        assert(param.name() == name);
        law_added_param_replaces_the_old(before, param, bounds, center, other);
    }
}

/// A data set of columns has in each row the bin that the column has there.
pub proof fn law_columns_are_kept(dataset: BinnedDataset, columns: Seq<Vec<u8>>, num_rows: nat, row: int, feature: int)
    requires
        holds_columns(dataset, columns, num_rows),
        0 <= row < num_rows,
        0 <= feature < columns.len(),
    ensures
        dataset.rows() == num_rows,
        dataset.features() == columns.len(),
        dataset.bin(row, feature) == columns[feature]@[row],
{
}

/// A search starts from the settings that were made, and from the default ones
/// where none were.
pub proof fn law_settings_made_so_far(made: Option<TunerConfig>, config: TunerConfig)
    requires
        made_so_far(made, config),
    ensures
        made is Some ==> config == made->0,
        made is None ==> config.n_iterations == 5 && config.num_rounds == 100 && config.seed == 42,
{
}

/// Letters from A to Z become those from a to z, and no other character changes.
pub proof fn law_lowercase_letters(c: char)
    ensures
        'A' <= c <= 'Z' ==> ascii_lowercase(c) as u32 == c as u32 + 32,
        !('A' <= c <= 'Z') ==> ascii_lowercase(c) == c,
{
}

} // verus!
