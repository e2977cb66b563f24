//! What a tuner of a linear model followed by trees takes in and hands on.

use crate::float::F32;
use crate::tuner::bounds::BoundsView;
use crate::tuner::config::TunerPreset;
use crate::tuner::ltt::LttTunerConfig;
use crate::tuner::ltt_tuner::{
    data_problem, picked_features, search_preset, size_mismatch, tree_space, trial_count, whole_u32,
};
use crate::tuner::params::TunableParam;
use crate::tuner::space::ParamView;
use crate::tuner::traits::{meaning, param_named, ParamValueView};
use vstd::prelude::*;

verus! {

/// Which data can be tuned on: features and at least ten rows, with a cell for
/// every feature of every row; the first thing that is wrong is told.
pub proof fn law_accepted_data(features: nat, num_features: nat, targets: nat)
    ensures
        data_problem(features, num_features, targets) is None <==> num_features > 0 && targets >= 10 && features
            == targets * num_features,
        num_features == 0 ==> data_problem(features, num_features, targets) == Some(
            "num_features must be greater than 0"@,
        ),
        num_features > 0 && targets == 0 ==> data_problem(features, num_features, targets) == Some(
            "targets cannot be empty"@,
        ),
        num_features > 0 && targets > 0 && features == 0 ==> data_problem(features, num_features, targets) == Some(
            "features cannot be empty"@,
        ),
        num_features > 0 && targets > 0 && features > 0 && features != targets * num_features ==> data_problem(
            features,
            num_features,
            targets,
        ) == Some(size_mismatch(features, num_features, targets)),
{
    if num_features > 0 && targets > 0 {
        assert(targets * num_features > 0) by (nonlinear_arith)
            requires
                num_features > 0,
                targets > 0,
        ;
    }
}

/// How many trials a run makes: one for each regularization with each share of
/// the L1 penalty, one for each depth with each rate and each number of rounds,
/// and one for each damping where both parts are refined together.
pub proof fn law_trials_are_counted(config: LttTunerConfig)
    ensures
        ({
            let linear = config.lambda_values@.len() * config.l1_ratio_values@.len();
            let trees = config.max_depth_values@.len() * config.learning_rate_values@.len()
                * config.num_rounds_values@.len();
            let dampings = config.extrapolation_damping_values@.len();
            &&& config.enable_joint_refinement ==> trial_count(config) == linear + trees + dampings
            &&& !config.enable_joint_refinement ==> trial_count(config) == linear + trees
        }),
{
}

/// The features of some rows: the cell of a feature in a row that was picked is
/// that of the same feature in that row.
pub proof fn law_picked_rows_keep_their_cells(
    features: Seq<F32>,
    num_features: int,
    rows: Seq<usize>,
    i: int,
    feature: int,
)
    requires
        0 <= feature < num_features,
        0 <= i < rows.len(),
    ensures
        picked_features(features, num_features, rows).len() == rows.len() * num_features,
        0 <= i * num_features + feature < rows.len() * num_features,
        picked_features(features, num_features, rows)[i * num_features + feature] == features[rows[i] * num_features
            + feature],
{
    let at = i * num_features + feature;
    let count = rows.len() as int;
    assert(0 <= at < count * num_features) by (nonlinear_arith)
        requires
            0 <= feature < num_features,
            0 <= i < count,
            at == i * num_features + feature,
    ;
    vstd::arithmetic::div_mod::lemma_fundamental_div_mod_converse(at, num_features, i, feature);
}

/// How long trees are searched for: the more iterations, the more thorough the
/// preset.
pub proof fn law_search_goes_by_the_iterations(iterations: usize)
    ensures
        search_preset(iterations) == TunerPreset::SmokeTest <==> iterations == 1,
        search_preset(iterations) == TunerPreset::Quick <==> iterations == 2,
        search_preset(iterations) == TunerPreset::Balanced <==> 3 <= iterations <= 4,
        search_preset(iterations) == TunerPreset::Thorough <==> iterations == 0 || iterations >= 5,
{
}

/// Trees are searched for over the parameters of a regression, and the share of
/// the columns besides, from one half on.
pub proof fn law_trees_are_searched_over_columns_too(i: int)
    ensures
        ({
            let space = tree_space();
            &&& space.len() > 0
            &&& space.last().name == TunableParam::Colsample
            &&& space.last().bounds == (BoundsView::Continuous {
                min: F32 { bits: 0x3f00_0000 },
                max: F32 { bits: 0x3f80_0000 },
                log_scale: false,
            })
            &&& space.last().center.bits == 0x3f80_0000
            &&& 0 <= i < space.len() - 1 ==> space[i].name != TunableParam::Colsample
        }),
{
    let regression = crate::tuner::space::preset_params(crate::tuner::space::SpacePreset::Regression);
    crate::tuner::space::law_removed_param_is_gone(regression, TunableParam::Colsample, regression[0]);
}

/// A depth is recorded as its whole part, cut to what fits.
pub proof fn law_recorded_depth(x: F32)
    ensures
        x.index() <= 0xffff_ffff ==> whole_u32(x) == x.index(),
        x.index() > 0xffff_ffff ==> whole_u32(x) == 0xffff_ffffu32,
{
}

/// The parameter of a name is the first that has it.
pub proof fn law_first_param_of_a_name(params: Seq<ParamView>, name: Seq<char>, i: int)
    ensures
        0 <= i < params.len() && params[i].name.name() == name && (forall|j: int|
            0 <= j < i ==> (#[trigger] params[j]).name.name() != name) ==> param_named(params, name) == Some(params[i]),
        (forall|j: int| 0 <= j < params.len() ==> (#[trigger] params[j]).name.name() != name) ==> param_named(
            params,
            name,
        ) is None,
    decreases params.len(),
{
    if params.len() > 0 {
        let rest = params.skip(1);
        law_first_param_of_a_name(rest, name, i - 1);
        if forall|j: int| 0 <= j < params.len() ==> (#[trigger] params[j]).name.name() != name {
            assert forall|j: int| 0 <= j < rest.len() implies (#[trigger] rest[j]).name.name() != name by {
                assert(rest[j] == params[j + 1]);
            }
        }
        if 0 < i < params.len() && params[i].name.name() == name && (forall|j: int|
            0 <= j < i ==> (#[trigger] params[j]).name.name() != name) {
            assert(rest[i - 1] == params[i]);
            assert forall|j: int| 0 <= j < i - 1 implies (#[trigger] rest[j]).name.name() != name by {
                assert(rest[j] == params[j + 1]);
            }
            assert(params[0].name.name() != name);
        }
    }
}

/// What a number stands for: the entry of a list at its whole part where there is
/// one, and otherwise the number.
pub proof fn law_numbers_stand_for_entries(params: Seq<ParamView>, name: Seq<char>, value: F32, i: int)
    requires
        0 <= i < params.len(),
        params[i].name.name() == name,
        forall|j: int| 0 <= j < i ==> (#[trigger] params[j]).name.name() != name,
    ensures
        params[i].bounds matches BoundsView::Categorical { values } ==> {
            &&& value.index() < values.len() ==> meaning(params, name, value) == ParamValueView::Categorical(
                values[value.index() as int],
            )
            &&& value.index() >= values.len() ==> meaning(params, name, value) == ParamValueView::Numeric(value)
        },
        !(params[i].bounds is Categorical) ==> meaning(params, name, value) == ParamValueView::Numeric(value),
{
    law_first_param_of_a_name(params, name, i);
}

} // verus!
