//! Which values a grid tries of a parameter.

use crate::float::F32;
use crate::tuner::bounds::number;
use crate::tuner::grid::{
    ascending, chosen_values, closest, first_step, holds_value, index_distances, last_step, lemma_kept_steps,
    lemma_rounded_up, lemma_step_within, named, sorted_values, step_count, step_values, with_center_value,
};
use crate::tuner::space::ParamView;
use vstd::prelude::*;

verus! {

/// The values on the steps of a parameter: each is a step within its bounds that
/// lies less than a step below where the values start and less than a step above
/// where they end, and there are at most as many as are asked for.
pub proof fn law_steps_reach_from_end_to_end(
    low: F32,
    high: F32,
    min: int,
    max: int,
    step: int,
    points: int,
    i: int,
)
    requires
        0 <= min <= max,
        0 < step,
        0 < points,
        0 <= i < step_values(low, high, min, max, step, points).len(),
    ensures
        step_values(low, high, min, max, step, points).len() <= points,
        exists|n: nat|
            {
                let from = if low.index() > min { low.index() as int } else { min };
                let to = if high.index() < max { high.index() as int } else { max };
                &&& step_values(low, high, min, max, step, points)[i] == #[trigger] number(n)
                &&& min <= n <= max
                &&& (n - min) % step == 0
                &&& from < n + step
                &&& n < to + step
                &&& i == 0 ==> n <= from
            },
{
    let values = step_values(low, high, min, max, step, points);
    let count = step_count(low, high, min, max, step) as int;
    let first = first_step(low, min, step);
    let last = last_step(high, min, max, step);
    let stride = if count > points {
        count / points
    } else {
        1
    };
    let k = first + i * stride;
    lemma_kept_steps(low, high, min, max, step, points, i);
    lemma_step_within(k, min, max, step);
    let from = if low.index() > min { low.index() as int } else { min };
    let to = if high.index() < max { high.index() as int } else { max };
    let n = min + k * step;
    assert(values[i] == number(n as nat));
    lemma_between_steps(from - min, step);
    assert(first * step <= k * step) by (nonlinear_arith)
        requires
            first <= k,
            step > 0,
    ;
    if i == 0 {
        assert(i * stride == 0) by (nonlinear_arith)
            requires
                i == 0,
        ;
    }
    lemma_rounded_up(to - min, step);
    lemma_between_steps(to - min, step);
    let reached = (to - min + step - 1) / step;
    assert(k * step <= reached * step) by (nonlinear_arith)
        requires
            k <= reached,
            step > 0,
    ;
    assert(((to - min) / step + 1) * step == ((to - min) / step) * step + step) by (nonlinear_arith);
}

/// A distance lies between the steps around it.
proof fn lemma_between_steps(distance: int, step: int)
    requires
        distance >= 0,
        step > 0,
    ensures
        (distance / step) * step <= distance < (distance / step) * step + step,
        distance % step == 0 ==> (distance / step) * step == distance,
{
    vstd::arithmetic::div_mod::lemma_fundamental_div_mod(distance, step);
    assert(step * (distance / step) == (distance / step) * step) by (nonlinear_arith);
}

/// No step between the ends is left out unless there are more than are asked for.
pub proof fn law_no_step_is_left_out(low: F32, high: F32, min: int, max: int, step: int, points: int, k: int)
    requires
        0 <= min <= max,
        0 < step,
        0 < points,
        0 <= k,
        low.index() <= min + k * step <= high.index(),
        min + k * step <= max,
        step_count(low, high, min, max, step) <= points,
    ensures
        step_values(low, high, min, max, step, points).contains(number((min + k * step) as nat)),
{
    let values = step_values(low, high, min, max, step, points);
    let first = first_step(low, min, step);
    let last = last_step(high, min, max, step);
    let from = if low.index() > min { low.index() as int } else { min };
    let to = if high.index() < max { high.index() as int } else { max };
    let n = min + k * step;
    assert(k * step >= 0) by (nonlinear_arith)
        requires
            k >= 0,
            step > 0,
    ;
    lemma_between_steps(from - min, step);
    lemma_between_steps(to - min, step);
    lemma_between_steps(max - min, step);
    lemma_rounded_up(to - min, step);
    assert(first <= k) by (nonlinear_arith)
        requires
            first * step <= k * step,
            step > 0,
    ;
    let whole = (max - min) / step;
    assert(k <= whole) by (nonlinear_arith)
        requires
            k * step < whole * step + step,
            step > 0,
    ;
    let under = (to - min) / step;
    assert(k <= under) by (nonlinear_arith)
        requires
            k * step < under * step + step,
            step > 0,
    ;
    assert(k <= last);
    let i = k - first;
    assert(values[i] == number((min + (first + i) * step) as nat));
}

/// With its center brought in, a list holds the center: where it already did, as
/// it was, and otherwise in place of the first of the values that lie nearest to
/// it, with all others as they were.
pub proof fn law_center_takes_the_nearest_place(values: Seq<F32>, center: F32, distances: Seq<F32>)
    requires
        values.len() > 0,
        distances.len() == values.len(),
        forall|i: int| 0 <= i < distances.len() ==> !(#[trigger] distances[i]).nan(),
    ensures
        ({
            let placed = with_center_value(values, center, distances);
            let held = exists|i: int|
                0 <= i < values.len() && (#[trigger] values[i]).at_most(center) && center.at_most(values[i]);
            &&& held ==> placed == values
            &&& !held ==> exists|k: int|
                {
                    &&& 0 <= k < values.len()
                    &&& #[trigger] placed[k] == center
                    &&& placed.len() == values.len()
                    &&& forall|i: int| 0 <= i < values.len() && i != k ==> #[trigger] placed[i] == values[i]
                    &&& forall|i: int| 0 <= i < values.len() ==> distances[k].at_most(#[trigger] distances[i])
                    &&& forall|i: int| 0 <= i < k ==> distances[k].less(#[trigger] distances[i])
                }
        }),
{
    let placed = with_center_value(values, center, distances);
    let k = closest(distances, values.len());
    lemma_closest(distances, values.len());
    if holds_value(values, center) {
        let i = choose|i: int| 0 <= i < values.len() && (#[trigger] values[i]).same(center);
        assert(values[i].at_most(center) && center.at_most(values[i]));
    } else {
        assert(forall|i: int| 0 <= i < values.len() ==> !(#[trigger] values[i]).same(center));
        assert(placed[k] == center);
    }
}

proof fn lemma_closest(distances: Seq<F32>, n: nat)
    requires
        0 < n <= distances.len(),
        forall|i: int| 0 <= i < distances.len() ==> !(#[trigger] distances[i]).nan(),
    ensures
        0 <= closest(distances, n) < n,
        forall|i: int| 0 <= i < n ==> distances[closest(distances, n)].at_most(#[trigger] distances[i]),
        forall|i: int| 0 <= i < closest(distances, n) ==> distances[closest(distances, n)].less(#[trigger] distances[i]),
    decreases n,
{
    if n > 1 {
        lemma_closest(distances, (n - 1) as nat);
        assert(!distances[n - 1].nan());
    } else {
        assert(!distances[0].nan());
    }
}

/// The distance of a step from the center is how far their whole parts lie apart.
pub proof fn law_distances_are_how_far_apart(values: Seq<F32>, center: F32, i: int)
    requires
        0 <= i < values.len(),
    ensures
        index_distances(values, center).len() == values.len(),
        values[i].index() >= center.index() ==> index_distances(values, center)[i] == number(
            (values[i].index() - center.index()) as nat,
        ),
        values[i].index() <= center.index() ==> index_distances(values, center)[i] == number(
            (center.index() - values[i].index()) as nat,
        ),
{
}

/// Which values are tried of a parameter: its center alone where one point is
/// asked for, every position of a list, and of an interval what was computed.
pub proof fn law_values_that_are_tried(
    param: ParamView,
    points: int,
    low: F32,
    high: F32,
    computed: Seq<F32>,
    values: Seq<F32>,
)
    requires
        chosen_values(param, points, low, high, computed, values),
    ensures
        points == 1 ==> values.len() == 1 && values[0] == param.center,
        points != 1 && param.bounds is Continuous ==> values == computed,
        points != 1 && param.bounds is Categorical ==> {
            &&& values.len() == param.bounds->values.len()
            &&& forall|i: int| 0 <= i < values.len() ==> #[trigger] values[i] == number(i as nat)
        },
        points != 1 && param.bounds is Discrete ==> {
            &&& forall|i: int, j: int| 0 <= i < j < values.len() ==> (#[trigger] values[i]).less(#[trigger] values[j])
            &&& step_values(
                low,
                high,
                param.bounds->Discrete_min as int,
                param.bounds->Discrete_max as int,
                param.bounds->step as int,
                points,
            ).len() > 0 ==> exists|i: int|
                0 <= i < values.len() && (#[trigger] values[i]).at_most(param.bounds.clamped(param.center))
                    && param.bounds.clamped(param.center).at_most(values[i])
        },
{
    if points != 1 && param.bounds is Discrete {
        assert(ascending(values));
        let center = param.bounds.clamped(param.center);
        if holds_value(values, center) {
            let i = choose|i: int| 0 <= i < values.len() && (#[trigger] values[i]).same(center);
            assert(values[i].at_most(center) && center.at_most(values[i]));
        }
    }
}

/// Values in order without repeats: they rise, each is one of the values, and
/// each of the values is there as a number.
pub proof fn law_sorted_values_are_the_values(distinct: Seq<F32>, values: Seq<F32>, i: int, j: int, k: int)
    requires
        sorted_values(distinct, values),
        0 <= i < j < distinct.len(),
        0 <= k < values.len(),
    ensures
        distinct[i].less(distinct[j]),
        values.contains(distinct[i]),
        values.contains(distinct[j]),
        exists|m: int|
            0 <= m < distinct.len() && (#[trigger] distinct[m]).at_most(values[k]) && values[k].at_most(distinct[m]),
{
    assert(holds_value(distinct, values[k]));
    let m = choose|m: int| 0 <= m < distinct.len() && (#[trigger] distinct[m]).same(values[k]);
    assert(distinct[m].at_most(values[k]) && values[k].at_most(distinct[m]));
}

/// A candidate has values for the parameters of the space and no others.
pub proof fn law_candidate_names_its_params(params: Seq<ParamView>, row: Seq<F32>, name: Seq<char>)
    ensures
        named(params, row).dom().contains(name) <==> exists|i: int|
            0 <= i < params.len() && (#[trigger] params[i]).name.name() == name,
    decreases params.len(),
{
    if params.len() > 0 {
        let fewer = params.drop_last();
        law_candidate_names_its_params(fewer, row, name);
        if exists|i: int| 0 <= i < fewer.len() && (#[trigger] fewer[i]).name.name() == name {
            let i = choose|i: int| 0 <= i < fewer.len() && (#[trigger] fewer[i]).name.name() == name;
            assert(params[i] == fewer[i]);
        }
        if exists|i: int| 0 <= i < params.len() && (#[trigger] params[i]).name.name() == name {
            let i = choose|i: int| 0 <= i < params.len() && (#[trigger] params[i]).name.name() == name;
            if i < fewer.len() {
                assert(fewer[i] == params[i]);
            }
        }
        assert(params[params.len() - 1] == params.last());
    }
}

} // verus!
