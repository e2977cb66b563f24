//! Data that scripts hand over: shapes, names and indices.

use crate::float::{F32, F64, F64_ONE, F64_ZERO};
use crate::interface::names::outcome;
use crate::interface::settings::{
    at_least_one, is_at_least_one, is_negative, is_not_positive, is_proper_share, negative, not_positive, proper_share,
};
use crate::text::{decimal, push_decimal, with_number};
use crate::tuner::bounds::texts;
use vstd::prelude::*;
use vstd::string::StringExecFns;

verus! {

/// A text with two numbers in it.
pub open spec fn two_numbers(a: Seq<char>, n: nat, b: Seq<char>, m: nat, c: Seq<char>) -> Seq<char> {
    a + decimal(n) + b + decimal(m) + c
}

/// A text with two numbers in it.
fn text_of(a: &str, n: usize, b: &str, m: usize, c: &str) -> (text: String)
    ensures
        text@ == two_numbers(a@, n as nat, b@, m as nat, c@),
{
    let mut text: String = with_number(a, n as u64);
    text.append(b);
    push_decimal(&mut text, m as u64);
    text.append(c);
    text
}

/// Whether there are as many features as the model was trained on.
pub fn validate_feature_count(actual: usize, expected: usize) -> (checked: Result<(), String>)
    ensures
        outcome(
            checked,
            actual == expected,
            (),
            two_numbers("Expected "@, expected as nat, " features, got "@, actual as nat, ""@),
        ),
{
    if actual != expected {
        return Err(text_of("Expected ", expected, " features, got ", actual, ""));
    }
    Ok(())
}

/// Whether a model can be trained over eras: every row has one, and splits have
/// to agree over them.
pub fn check_eras(era_count: usize, num_rows: usize, era_splitting: bool) -> (checked: Result<(), String>)
    ensures
        match checked {
            Ok(_) => era_count == num_rows && era_splitting,
            Err(message) => if era_count != num_rows {
                message@ == two_numbers(
                    "era_indices length "@,
                    era_count as nat,
                    " doesn't match number of rows "@,
                    num_rows as nat,
                    ""@,
                )
            } else {
                !era_splitting && message@ == "era_splitting must be True in config when using train_with_eras"@
            },
        },
{
    if era_count != num_rows {
        return Err(text_of("era_indices length ", era_count, " doesn't match number of rows ", num_rows, ""));
    }
    if !era_splitting {
        return Err("era_splitting must be True in config when using train_with_eras".to_owned());
    }
    Ok(())
}

/// Whether there is a target for each row.
pub fn check_targets(targets: usize, num_rows: usize) -> (checked: Result<(), String>)
    ensures
        outcome(
            checked,
            targets == num_rows,
            (),
            two_numbers("targets length "@, targets as nat, " doesn't match num_rows "@, num_rows as nat, ""@),
        ),
{
    if targets != num_rows {
        return Err(text_of("targets length ", targets, " doesn't match num_rows ", num_rows, ""));
    }
    Ok(())
}

/// Whether every feature is described.
pub fn check_feature_info(described: usize, num_features: usize) -> (checked: Result<(), String>)
    ensures
        outcome(
            checked,
            described == num_features,
            (),
            two_numbers(
                "feature_info length "@,
                described as nat,
                " doesn't match num_features "@,
                num_features as nat,
                ""@,
            ),
        ),
{
    if described != num_features {
        return Err(text_of("feature_info length ", described, " doesn't match num_features ", num_features, ""));
    }
    Ok(())
}

/// The names that features get where they have none.
pub open spec fn default_names(num_features: nat) -> Seq<Seq<char>> {
    Seq::new(num_features, |i: int| "feature_"@ + decimal(i as nat))
}

/// The names of features: those that are given, or numbered ones.
pub fn feature_names(given: Option<Vec<String>>, num_features: usize) -> (names: Result<Vec<String>, String>)
    ensures
        match names {
            Ok(list) => match given {
                Some(texts_given) => list == texts_given && list@.len() == num_features,
                None => texts(list@) == default_names(num_features as nat),
            },
            Err(message) => given matches Some(texts_given) && texts_given@.len() != num_features && message@ == two_numbers(
                "feature_names length "@,
                texts_given@.len(),
                " doesn't match num_features "@,
                num_features as nat,
                ""@,
            ),
        },
{
    match given {
        Some(list) => {
            if list.len() != num_features {
                return Err(
                    text_of("feature_names length ", list.len(), " doesn't match num_features ", num_features, ""),
                );
            }
            Ok(list)
        },
        None => {
            let mut list: Vec<String> = Vec::new();
            let mut i: usize = 0;
            while i < num_features
                invariant
                    i <= num_features,
                    texts(list@) == default_names(i as nat),
                decreases num_features - i,
            {
                let ghost before = texts(list@);
                let name = with_number("feature_", i as u64);
                let ghost added = name@;
                list.push(name);
                i = i + 1;
                assert(texts(list@) =~= before.push(added));
                assert(texts(list@) =~= default_names(i as nat));
            }
            Ok(list)
        },
    }
}

/// Whether a feature can have so many bins.
pub fn check_num_bins(num_bins: usize) -> (checked: Result<usize, String>)
    ensures
        outcome(checked, 1 <= num_bins <= 255, num_bins, "num_bins must be between 1 and 255"@),
{
    if num_bins == 0 || num_bins > 255 {
        return Err("num_bins must be between 1 and 255".to_owned());
    }
    Ok(num_bins)
}

/// Whether there is a feature with an index.
pub fn check_feature_index(feature: usize, num_features: usize) -> (checked: Result<(), String>)
    ensures
        outcome(
            checked,
            feature < num_features,
            (),
            two_numbers(
                "feature index "@,
                feature as nat,
                " out of range (num_features="@,
                num_features as nat,
                ")"@,
            ),
        ),
{
    if feature >= num_features {
        return Err(text_of("feature index ", feature, " out of range (num_features=", num_features, ")"));
    }
    Ok(())
}

/// Whether there is a row with an index.
pub fn check_row_index(row: usize, num_rows: usize) -> (checked: Result<(), String>)
    ensures
        outcome(
            checked,
            row < num_rows,
            (),
            two_numbers("row index "@, row as nat, " out of range (num_rows="@, num_rows as nat, ")"@),
        ),
{
    if row >= num_rows {
        return Err(text_of("row index ", row, " out of range (num_rows=", num_rows, ")"));
    }
    Ok(())
}

/// What is wrong with the shares of a split, if anything. `sum` is the sum of
/// the two shares.
pub open spec fn holdout_problem(n_samples: nat, val_ratio: F32, calib_ratio: F32, sum: F32) -> Option<Seq<char>> {
    if n_samples == 0 {
        Some("n_samples must be > 0"@)
    } else if !proper_share(val_ratio) {
        Some("val_ratio must be in [0.0, 1.0)"@)
    } else if !proper_share(calib_ratio) {
        Some("calib_ratio must be in [0.0, 1.0)"@)
    } else if at_least_one(sum) {
        Some("val_ratio + calib_ratio must be < 1.0"@)
    } else {
        None
    }
}

/// Whether a check found the problem that there is.
pub open spec fn tells(checked: Result<(), String>, problem: Option<Seq<char>>) -> bool {
    match checked {
        Ok(_) => problem is None,
        Err(message) => problem == Some(message@),
    }
}

/// Whether rows can be split by some shares.
pub fn check_holdout(n_samples: usize, val_ratio: F32, calib_ratio: F32, sum: F32) -> (checked: Result<(), String>)
    ensures
        tells(checked, holdout_problem(n_samples as nat, val_ratio, calib_ratio, sum)),
{
    if n_samples == 0 {
        return Err("n_samples must be > 0".to_owned());
    }
    if !is_proper_share(val_ratio) {
        return Err("val_ratio must be in [0.0, 1.0)".to_owned());
    }
    if !is_proper_share(calib_ratio) {
        return Err("calib_ratio must be in [0.0, 1.0)".to_owned());
    }
    if is_at_least_one(sum) {
        return Err("val_ratio + calib_ratio must be < 1.0".to_owned());
    }
    Ok(())
}

/// What is wrong with a number of folds, if anything.
pub open spec fn folds_problem(n_samples: nat, k: nat) -> Option<Seq<char>> {
    if n_samples == 0 {
        Some("n_samples must be > 0"@)
    } else if k < 2 {
        Some("k must be >= 2 for cross-validation"@)
    } else if k > n_samples {
        Some("k cannot exceed n_samples"@)
    } else {
        None
    }
}

/// Whether rows can be split into folds.
pub fn check_folds(n_samples: usize, k: usize) -> (checked: Result<(), String>)
    ensures
        tells(checked, folds_problem(n_samples as nat, k as nat)),
{
    if n_samples == 0 {
        return Err("n_samples must be > 0".to_owned());
    }
    if k < 2 {
        return Err("k must be >= 2 for cross-validation".to_owned());
    }
    if k > n_samples {
        return Err("k cannot exceed n_samples".to_owned());
    }
    Ok(())
}

/// Whether there is a fold with an index.
pub fn check_fold_index(fold: usize, k: usize) -> (checked: Result<(), String>)
    ensures
        outcome(
            checked,
            fold < k,
            (),
            two_numbers("fold_idx "@, fold as nat, " out of range (k="@, k as nat, ")"@),
        ),
{
    if fold >= k {
        return Err(text_of("fold_idx ", fold, " out of range (k=", k, ")"));
    }
    Ok(())
}

/// What a prediction is asked for.
#[derive(Debug, Clone, Copy, PartialEq, Eq, Structural)]
pub enum ClassQuery {
    /// Probabilities of two classes.
    Proba,
    /// One of two classes.
    Class,
    /// Probabilities of several classes.
    ProbaMulticlass,
    /// One of several classes.
    ClassMulticlass,
}

/// What is wrong with asking a model, if anything.
pub open spec fn query_problem(query: ClassQuery, multiclass: bool) -> Option<Seq<char>> {
    match query {
        ClassQuery::Proba => if multiclass {
            Some(
                "predict_proba() is for binary classification only. For multi-class models, use predict_proba_multiclass() instead."@,
            )
        } else {
            None
        },
        ClassQuery::Class => if multiclass {
            Some(
                "predict_class() is for binary classification only. For multi-class models, use predict_class_multiclass() instead."@,
            )
        } else {
            None
        },
        ClassQuery::ProbaMulticlass => if !multiclass {
            Some(
                "predict_proba_multiclass() is for multi-class models only. For binary classification, use predict_proba() instead."@,
            )
        } else {
            None
        },
        ClassQuery::ClassMulticlass => if !multiclass {
            Some(
                "predict_class_multiclass() is for multi-class models only. For binary classification, use predict_class() instead."@,
            )
        } else {
            None
        },
    }
}

/// Whether a model can be asked for classes.
pub fn check_class_query(query: ClassQuery, multiclass: bool) -> (checked: Result<(), String>)
    ensures
        tells(checked, query_problem(query, multiclass)),
{
    match query {
        ClassQuery::Proba => {
            if multiclass {
                return Err(
                    "predict_proba() is for binary classification only. For multi-class models, use predict_proba_multiclass() instead.".to_owned(),
                );
            }
        },
        ClassQuery::Class => {
            if multiclass {
                return Err(
                    "predict_class() is for binary classification only. For multi-class models, use predict_class_multiclass() instead.".to_owned(),
                );
            }
        },
        ClassQuery::ProbaMulticlass => {
            if !multiclass {
                return Err(
                    "predict_proba_multiclass() is for multi-class models only. For binary classification, use predict_proba() instead.".to_owned(),
                );
            }
        },
        ClassQuery::ClassMulticlass => {
            if !multiclass {
                return Err(
                    "predict_class_multiclass() is for multi-class models only. For binary classification, use predict_class() instead.".to_owned(),
                );
            }
        },
    }
    Ok(())
}

/// Whether classes can be predicted: the features are looked at before the kind of
/// the model.
pub fn check_class_prediction(actual: usize, expected: usize, query: ClassQuery, multiclass: bool) -> (checked: Result<
    (),
    String,
>)
    ensures
        tells(
            checked,
            if actual != expected {
                Some(two_numbers("Expected "@, expected as nat, " features, got "@, actual as nat, ""@))
            } else {
                query_problem(query, multiclass)
            },
        ),
{
    match validate_feature_count(actual, expected) {
        Err(message) => Err(message),
        Ok(_) => check_class_query(query, multiclass),
    }
}

/// Whether rows of probabilities form a table.
pub fn check_table(rows: &[Vec<F32>]) -> (checked: Result<(), String>)
    ensures
        match checked {
            Ok(_) => rows@.len() > 0 && forall|i: int|
                0 <= i < rows@.len() ==> (#[trigger] rows@[i])@.len() == rows@[0]@.len(),
            Err(message) => if rows@.len() == 0 {
                message@ == "No predictions returned"@
            } else {
                &&& message@ == "Internal error: jagged probability array returned"@
                &&& exists|i: int| 0 <= i < rows@.len() && (#[trigger] rows@[i])@.len() != rows@[0]@.len()
            },
        },
{
    let count: usize = rows.len();
    if count == 0 {
        return Err("No predictions returned".to_owned());
    }
    let width: usize = rows[0].len();
    let mut i: usize = 0;
    while i < count
        invariant
            i <= count == rows@.len(),
            width == rows@[0]@.len(),
            forall|j: int| 0 <= j < i ==> (#[trigger] rows@[j])@.len() == width,
        decreases count - i,
    {
        if rows[i].len() != width {
            return Err("Internal error: jagged probability array returned".to_owned());
        }
        i = i + 1;
    }
    Ok(())
}

/// What is wrong with the arguments of a gradient of several classes, if
/// anything. `class` is the class that the gradient is for, where it is for one.
pub open spec fn gradient_problem(raw: nat, target: nat, class: Option<usize>, num_classes: nat) -> Option<Seq<char>> {
    if raw != num_classes {
        Some(two_numbers("raw_preds length "@, raw, " doesn't match num_classes "@, num_classes, ""@))
    } else if target >= num_classes {
        Some(two_numbers("target_class "@, target, " >= num_classes "@, num_classes, ""@))
    } else {
        match class {
            Some(c) => if c >= num_classes {
                Some(two_numbers("class_idx "@, c as nat, " >= num_classes "@, num_classes, ""@))
            } else {
                None
            },
            None => None,
        }
    }
}

/// Whether a gradient of several classes can be computed.
pub fn check_gradient(raw: usize, target: usize, class: Option<usize>, num_classes: usize) -> (checked: Result<
    (),
    String,
>)
    ensures
        tells(checked, gradient_problem(raw as nat, target as nat, class, num_classes as nat)),
{
    if raw != num_classes {
        return Err(text_of("raw_preds length ", raw, " doesn't match num_classes ", num_classes, ""));
    }
    if target >= num_classes {
        return Err(text_of("target_class ", target, " >= num_classes ", num_classes, ""));
    }
    match class {
        Some(c) => {
            if c >= num_classes {
                return Err(text_of("class_idx ", c, " >= num_classes ", num_classes, ""));
            }
        },
        None => {},
    }
    Ok(())
}

/// Whether prediction intervals can have a coverage, and a half width where it
/// is given.
pub fn check_intervals(coverage: F32, quantile: Option<F32>) -> (checked: Result<(), String>)
    ensures
        match checked {
            Ok(_) => !(not_positive(coverage) || at_least_one(coverage)) && (quantile matches Some(q) ==> !negative(q)),
            Err(message) => if not_positive(coverage) || at_least_one(coverage) {
                message@ == "coverage must be in (0, 1)"@
            } else {
                quantile matches Some(q) && negative(q) && message@ == "quantile must be non-negative"@
            },
        },
{
    if is_not_positive(coverage) || is_at_least_one(coverage) {
        return Err("coverage must be in (0, 1)".to_owned());
    }
    match quantile {
        Some(q) => {
            if is_negative(q) {
                return Err("quantile must be non-negative".to_owned());
            }
        },
        None => {},
    }
    Ok(())
}

/// Whether two lists that belong together are as long.
pub fn check_pair(first: &str, first_len: usize, second: &str, second_len: usize) -> (checked: Result<(), String>)
    ensures
        outcome(
            checked,
            first_len == second_len,
            (),
            first@ + two_numbers(
                " length "@,
                first_len as nat,
                " doesn't match "@ + second@ + " length "@,
                second_len as nat,
                ""@,
            ),
        ),
{
    if first_len != second_len {
        let mut text: String = first.to_owned();
        text.append(" length ");
        push_decimal(&mut text, first_len as u64);
        text.append(" doesn't match ");
        text.append(second);
        text.append(" length ");
        push_decimal(&mut text, second_len as u64);
        text.append("");
        assert(text@ =~= first@ + two_numbers(
            " length "@,
            first_len as nat,
            " doesn't match "@ + second@ + " length "@,
            second_len as nat,
            ""@,
        ));
        return Err(text);
    }
    Ok(())
}

/// Whether a number is 0 or less, or 1 or more.
pub open spec fn wide_outside_unit(x: F64) -> bool {
    x.at_most(F64 { bits: F64_ZERO }) || (F64 { bits: F64_ONE }).at_most(x)
}

/// Whether a sketch that counts categories can have an error and a confidence.
pub fn check_sketch(eps: F64, confidence: F64) -> (checked: Result<(), String>)
    ensures
        match checked {
            Ok(_) => !eps.at_most(F64 { bits: F64_ZERO }) && !wide_outside_unit(confidence),
            Err(message) => if eps.at_most(F64 { bits: F64_ZERO }) {
                message@ == "eps must be positive"@
            } else {
                message@ == "confidence must be in (0, 1)"@ && wide_outside_unit(confidence)
            },
        },
{
    let zero = F64 { bits: F64_ZERO };
    let one = F64 { bits: F64_ONE };
    if eps.le(zero) {
        return Err("eps must be positive".to_owned());
    }
    if confidence.le(zero) || one.le(confidence) {
        return Err("confidence must be in (0, 1)".to_owned());
    }
    Ok(())
}

/// Whether a pipeline can count categories with an error and a confidence.
pub fn check_pipeline_sketch(eps: F64, confidence: F64) -> (checked: Result<(), String>)
    ensures
        match checked {
            Ok(_) => !wide_outside_unit(eps) && !wide_outside_unit(confidence),
            Err(message) => if wide_outside_unit(eps) {
                message@ == "eps must be between 0 and 1"@
            } else {
                message@ == "confidence must be between 0 and 1"@ && wide_outside_unit(confidence)
            },
        },
{
    let zero = F64 { bits: F64_ZERO };
    let one = F64 { bits: F64_ONE };
    if eps.le(zero) || one.le(eps) {
        return Err("eps must be between 0 and 1".to_owned());
    }
    if confidence.le(zero) || one.le(confidence) {
        return Err("confidence must be between 0 and 1".to_owned());
    }
    Ok(())
}

/// Whether encodings can be smoothed so much.
pub fn check_smoothing(smoothing: F64) -> (checked: Result<(), String>)
    ensures
        outcome(checked, !smoothing.less(F64 { bits: F64_ZERO }), (), "smoothing must be non-negative"@),
{
    if smoothing.lt(F64 { bits: F64_ZERO }) {
        return Err("smoothing must be non-negative".to_owned());
    }
    Ok(())
}

/// Whether a loss can turn from square to linear at `delta`.
pub fn check_delta(delta: F32) -> (checked: Result<(), String>)
    ensures
        outcome(checked, !not_positive(delta), (), "delta must be positive"@),
{
    if is_not_positive(delta) {
        return Err("delta must be positive".to_owned());
    }
    Ok(())
}

/// Whether a loss can keep probabilities `eps` away from 0 and 1.
pub fn check_eps(eps: F32) -> (checked: Result<(), String>)
    ensures
        outcome(checked, !not_positive(eps), (), "eps must be positive"@),
{
    if is_not_positive(eps) {
        return Err("eps must be positive".to_owned());
    }
    Ok(())
}

/// Whether there is a feature that can be asked whether it is sparse.
pub fn check_sparse_index(feature: usize, num_features: usize) -> (checked: Result<(), String>)
    ensures
        outcome(
            checked,
            feature < num_features,
            (),
            "feature index "@ + decimal(feature as nat) + " out of range"@,
        ),
{
    if feature >= num_features {
        let mut text: String = with_number("feature index ", feature as u64);
        text.append(" out of range");
        return Err(text);
    }
    Ok(())
}

} // verus!
