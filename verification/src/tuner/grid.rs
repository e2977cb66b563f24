//! Where candidates are placed.

use crate::float::F32;
use crate::float_int::law_numbers_keep_their_order;
use crate::sorting::{in_order, no_nan, positions, stable_order};
use crate::tuner::bounds::{clip, number, BoundsView, ParamBounds};
use crate::tuner::params::law_names_are_distinct;
use crate::tuner::space::{distinct_params, param_views, ParamDef, ParamView, ParameterSpace};
use crate::tuner::values::ParamMap;
use vstd::prelude::*;

verus! {

/// Whether values come one after the other, no two the same.
pub open spec fn ascending(values: Seq<F32>) -> bool {
    forall|i: int, j: int| 0 <= i < j < values.len() ==> (#[trigger] values[i]).less(#[trigger] values[j])
}

/// Whether a list holds a value that compares equal to `x`.
pub open spec fn holds_value(values: Seq<F32>, x: F32) -> bool {
    exists|i: int| 0 <= i < values.len() && (#[trigger] values[i]).same(x)
}

/// Whether `distinct` holds the values of `values`, each once and in order.
pub open spec fn sorted_values(distinct: Seq<F32>, values: Seq<F32>) -> bool {
    &&& ascending(distinct)
    &&& forall|i: int| 0 <= i < distinct.len() ==> values.contains(#[trigger] distinct[i])
    &&& forall|i: int| 0 <= i < values.len() ==> holds_value(distinct, #[trigger] values[i])
}

/// The values in order, each once.
pub fn sort_and_dedup(values: &[F32]) -> (distinct: Vec<F32>)
    requires
        no_nan(values@),
    ensures
        sorted_values(distinct@, values@),
        no_nan(distinct@),
{
    let order: Vec<usize> = stable_order(values, false);
    let count: usize = order.len();
    let mut distinct: Vec<F32> = Vec::new();
    let mut i: usize = 0;
    while i < count
        invariant
            i <= count == order@.len() == values@.len(),
            no_nan(values@),
            positions(order@, 0, values@.len() as int),
            in_order(values@, false, order@),
            ascending(distinct@),
            forall|j: int| 0 <= j < distinct@.len() ==> values@.contains(#[trigger] distinct@[j]),
            forall|j: int| 0 <= j < i ==> holds_value(distinct@, values@[#[trigger] order@[j] as int]),
            i > 0 ==> distinct@.len() > 0 && distinct@.last().same(values@[order@[i - 1] as int]),
            distinct@.len() > 0 ==> i > 0,
        decreases count - i,
    {
        let value: F32 = values[order[i]];
        let ghost before = distinct@;
        let fresh: bool = if distinct.len() == 0 {
            true
        } else {
            assert(crate::sorting::precedes(values@, false, order@[i - 1] as int, order@[i as int] as int));
            distinct[distinct.len() - 1].lt(value)
        };
        if fresh {
            distinct.push(value);
            proof {
                assert forall|j: int, k: int| 0 <= j < k < distinct@.len() implies (#[trigger] distinct@[j]).less(#[trigger] distinct@[k]) by {
                    if k < before.len() {
                        assert(before[j].less(before[k]));
                    } else if j < before.len() - 1 {
                        assert(before[j].less(before[before.len() - 1]));
                    }
                }
                assert(values@[order@[i as int] as int] == value);
                assert forall|j: int| 0 <= j < i + 1 implies holds_value(distinct@, values@[#[trigger] order@[j] as int]) by {
                    if j < i {
                        let k = choose|k: int| 0 <= k < before.len() && (#[trigger] before[k]).same(values@[order@[j] as int]);
                        assert(distinct@[k] == before[k]);
                    } else {
                        assert(distinct@[before.len() as int].same(value));
                    }
                }
            }
        } else {
            proof {
                assert(distinct@[distinct@.len() - 1].same(value));
            }
        }
        i = i + 1;
    }
    proof {
        assert forall|j: int| 0 <= j < values@.len() implies holds_value(distinct@, #[trigger] values@[j]) by {
            crate::sorting::lemma_every_position_occurs(order@, values@.len(), j as usize);
            let k = choose|k: int| 0 <= k < order@.len() && order@[k] == j as usize;
            assert(holds_value(distinct@, values@[order@[k] as int]));
        }
        assert forall|j: int| 0 <= j < distinct@.len() implies !(#[trigger] distinct@[j]).nan() by {
            assert(values@.contains(distinct@[j]));
        }
    }
    distinct
}

/// The last step, counted from `min`, that does not lie behind `low`.
pub open spec fn first_step(low: F32, min: int, step: int) -> int {
    let from = if (low.index() as int) < min {
        min
    } else {
        low.index() as int
    };
    (from - min) / step
}

/// The first step, counted from `min`, that does not lie before `high`, or the
/// last one that does not lie behind `max`; -1 where `high` lies before `min`.
pub open spec fn last_step(high: F32, min: int, max: int, step: int) -> int {
    let to = if (high.index() as int) > max {
        max
    } else {
        high.index() as int
    };
    let reached = (to - min + step - 1) / step;
    let whole = (max - min) / step;
    if to < min {
        -1
    } else if reached < whole {
        reached
    } else {
        whole
    }
}

/// How many steps there are from `low` to `high`.
pub open spec fn step_count(low: F32, high: F32, min: int, max: int, step: int) -> nat {
    let first = first_step(low, min, step);
    let last = last_step(high, min, max, step);
    if first > last {
        0
    } else {
        (last - first + 1) as nat
    }
}

/// The whole numbers on the steps from `low` to `high`, counted from `min` and
/// no larger than `max`, at most `points` of them at equal distances.
pub open spec fn step_values(low: F32, high: F32, min: int, max: int, step: int, points: int) -> Seq<F32> {
    let count = step_count(low, high, min, max, step);
    let first = first_step(low, min, step);
    if count > points {
        let stride = (count as int) / points;
        Seq::new(points as nat, |i: int| number((min + (first + i * stride) * step) as nat))
    } else {
        Seq::new(count, |i: int| number((min + (first + i) * step) as nat))
    }
}

/// The step that a whole number lies on or before.
pub proof fn lemma_rounded_up(d: int, step: int)
    requires
        0 <= d,
        0 < step,
    ensures
        (d + step - 1) / step == if d % step == 0 {
            d / step
        } else {
            d / step + 1
        },
{
    vstd::arithmetic::div_mod::lemma_fundamental_div_mod(d, step);
    assert(step * (d / step) == (d / step) * step) by (nonlinear_arith);
    if d % step == 0 {
        vstd::arithmetic::div_mod::lemma_fundamental_div_mod_converse(d + step - 1, step, d / step, step - 1);
    } else {
        assert(d + step - 1 == step * (d / step + 1) + (d % step - 1)) by (nonlinear_arith)
            requires
                d == step * (d / step) + d % step,
        ;
        vstd::arithmetic::div_mod::lemma_fundamental_div_mod_converse(d + step - 1, step, d / step + 1, d % step - 1);
    }
}

/// A step that is no further than the last one leads to a whole number within
/// the bounds.
pub proof fn lemma_step_within(k: int, min: int, max: int, step: int)
    requires
        0 <= k <= (max - min) / step,
        0 <= min <= max,
        0 < step,
    ensures
        0 <= k * step,
        min <= min + k * step <= max,
        (k * step) % step == 0,
{
    let whole = (max - min) / step;
    vstd::arithmetic::div_mod::lemma_fundamental_div_mod(max - min, step);
    assert(0 <= k * step <= whole * step && whole * step == step * whole) by (nonlinear_arith)
        requires
            0 <= k <= whole,
            0 < step,
    ;
    vstd::arithmetic::div_mod::lemma_mod_multiples_basic(k, step);
}

/// The steps that are kept lie between the first and the last one.
pub proof fn lemma_kept_steps(low: F32, high: F32, min: int, max: int, step: int, points: int, i: int)
    requires
        0 <= min <= max,
        0 < step,
        0 < points,
        0 <= i < step_values(low, high, min, max, step, points).len(),
    ensures
        ({
            let count = step_count(low, high, min, max, step) as int;
            let first = first_step(low, min, step);
            let stride = if count > points {
                count / points
            } else {
                1
            };
            let k = first + i * stride;
            &&& first >= 0
            &&& stride >= 1
            &&& 0 <= i * stride < count
            &&& 0 <= k <= last_step(high, min, max, step) <= (max - min) / step
            &&& step_values(low, high, min, max, step, points)[i] == number((min + k * step) as nat)
        }),
{
    let count = step_count(low, high, min, max, step) as int;
    let first = first_step(low, min, step);
    let from = if (low.index() as int) < min {
        min
    } else {
        low.index() as int
    };
    assert(first >= 0) by (nonlinear_arith)
        requires
            first == (from - min) / step,
            from >= min,
            step > 0,
    ;
    assert((max - min) / step >= 0) by (nonlinear_arith)
        requires
            max >= min,
            step > 0,
    ;
    if count > points {
        let stride = count / points;
        lemma_stride(count - 1, points);
        assert(0 <= i * stride < count) by (nonlinear_arith)
            requires
                0 <= i < points,
                stride >= 1,
                points * stride <= count,
        ;
    } else {
        assert(i * 1 == i);
    }
}

/// The values of a discrete parameter between two ends: whole numbers between
/// `min` and `max` at intervals of `step`.
pub fn discrete_points(low: F32, high: F32, min: usize, max: usize, step: usize, points: usize) -> (values: Vec<F32>)
    requires
        min <= max,
        step > 0,
        points > 1,
    ensures
        values@ == step_values(low, high, min as int, max as int, step as int, points as int),
        no_nan(values@),
{
    let ghost s = step as int;
    let ghost expected = step_values(low, high, min as int, max as int, s, points as int);
    let mut values: Vec<F32> = Vec::new();
    let low_index: usize = low.to_index();
    let high_index: usize = high.to_index();
    let from: usize = if low_index < min {
        min
    } else {
        low_index
    };
    let to: usize = if high_index > max {
        max
    } else {
        high_index
    };
    if to < min {
        proof {
            assert(first_step(low, min as int, s) >= 0) by (nonlinear_arith)
                requires
                    first_step(low, min as int, s) == (from - min) / s,
                    from >= min,
                    s > 0,
            ;
            assert(values@ =~= expected);
        }
        return values;
    }
    let first: usize = (from - min) / step;
    let whole: usize = (max - min) / step;
    let distance: usize = to - min;
    let reached: usize = distance / step;
    proof {
        lemma_rounded_up(distance as int, s);
        vstd::arithmetic::div_mod::lemma_div_is_ordered(distance as int, max - min, s);
    }
    let last: usize = if distance % step != 0 && reached < whole {
        reached + 1
    } else {
        reached
    };
    assert(last == last_step(high, min as int, max as int, s));
    if first > last {
        assert(values@ =~= expected);
        return values;
    }
    let span: usize = last - first;
    let thin: bool = span >= points;
    let stride: usize = if thin {
        proof {
            lemma_stride(span as int, points as int);
        }
        let full: usize = span / points;
        if span % points == points - 1 {
            full + 1
        } else {
            full
        }
    } else {
        1
    };
    let wanted: usize = if thin {
        points
    } else {
        span + 1
    };
    assert(thin ==> stride == (span + 1) / (points as int));
    let mut i: usize = 0;
    while i < wanted
        invariant
            i <= wanted,
            min <= max,
            step > 0,
            points > 0,
            s == step,
            expected == step_values(low, high, min as int, max as int, s, points as int),
            wanted == expected.len(),
            first == first_step(low, min as int, s),
            span + 1 == step_count(low, high, min as int, max as int, s),
            stride == (if span + 1 > points {
                (span + 1) / (points as int)
            } else {
                1
            }),
            values@ == expected.take(i as int),
            no_nan(values@),
        decreases wanted - i,
    {
        proof {
            lemma_kept_steps(low, high, min as int, max as int, s, points as int, i as int);
            lemma_step_within(first + i * stride, min as int, max as int, s);
            let k = first + i * stride;
            assert((max - min) / s <= max - min) by (nonlinear_arith)
                requires
                    max >= min,
                    s >= 1,
            ;
        }
        let k: usize = first + i * stride;
        let n: usize = min + k * step;
        values.push(F32::from_index(n));
        i = i + 1;
        assert(values@ =~= expected.take(i as int));
    }
    assert(expected.take(wanted as int) =~= expected);
    values
}

/// The distance between the values that are kept of a list with `span + 1`
/// values.
proof fn lemma_stride(span: int, points: int)
    requires
        span >= points > 0,
    ensures
        (span + 1) / points == if span % points == points - 1 {
            span / points + 1
        } else {
            span / points
        },
        (span + 1) / points >= 1,
        points * ((span + 1) / points) <= span + 1,
        span / points <= span,
        points > 1 ==> span / points < span,
{
    let q = span / points;
    let r = span % points;
    vstd::arithmetic::div_mod::lemma_fundamental_div_mod(span, points);
    if r == points - 1 {
        assert(span + 1 == points * (q + 1) + 0) by (nonlinear_arith)
            requires
                span == points * q + r,
                r == points - 1,
        ;
        vstd::arithmetic::div_mod::lemma_fundamental_div_mod_converse(span + 1, points, q + 1, 0);
    } else {
        vstd::arithmetic::div_mod::lemma_fundamental_div_mod_converse(span + 1, points, q, r + 1);
    }
    vstd::arithmetic::div_mod::lemma_fundamental_div_mod(span + 1, points);
    assert(q >= 1) by (nonlinear_arith)
        requires
            span == points * q + r,
            r < points,
            span >= points > 0,
    ;
    assert(q <= span) by (nonlinear_arith)
        requires
            span == points * q + r,
            r >= 0,
            points > 0,
            q >= 1,
    ;
    if points > 1 {
        assert(q < span) by (nonlinear_arith)
            requires
                span == points * q + r,
                r >= 0,
                points > 1,
                q >= 1,
        ;
    }
}

/// Whether `x` is a whole number that a number of steps leads to from `min`, and
/// that is no larger than `max`.
pub open spec fn is_step(x: F32, min: int, max: int, step: int) -> bool {
    exists|n: nat| x == #[trigger] number(n) && min <= n <= max && (n - min) % step == 0
}

/// Steps lie between the bounds.
pub proof fn law_steps_stay_within_bounds(low: F32, high: F32, min: int, max: int, step: int, points: int)
    requires
        0 <= min <= max,
        0 < step,
        0 < points,
    ensures
        forall|i: int|
            0 <= i < step_values(low, high, min, max, step, points).len() ==> is_step(
                #[trigger] step_values(low, high, min, max, step, points)[i],
                min,
                max,
                step,
            ),
{
    let values = step_values(low, high, min, max, step, points);
    assert forall|i: int| 0 <= i < values.len() implies is_step(#[trigger] values[i], min, max, step) by {
        let count = step_count(low, high, min, max, step) as int;
        let stride = if count > points {
            count / points
        } else {
            1
        };
        let k = first_step(low, min, step) + i * stride;
        lemma_kept_steps(low, high, min, max, step, points, i);
        lemma_step_within(k, min, max, step);
        assert(values[i] == number((min + k * step) as nat));
    }
}

/// The position of the smallest of the first `n` distances; the first one where
/// several are as small.
pub open spec fn closest(distances: Seq<F32>, n: nat) -> int
    decreases n,
{
    if n <= 1 {
        0
    } else {
        let best = closest(distances, (n - 1) as nat);
        if distances[n - 1].less(distances[best]) {
            n - 1
        } else {
            best
        }
    }
}

/// The smallest distance is one of those looked at.
proof fn lemma_closest_is_there(distances: Seq<F32>, n: nat)
    requires
        n > 0,
    ensures
        0 <= closest(distances, n) < n,
    decreases n,
{
    if n > 1 {
        lemma_closest_is_there(distances, (n - 1) as nat);
    }
}

/// A list with `center` in place of its closest value, unless it holds `center`
/// or nothing.
pub open spec fn with_center_value(values: Seq<F32>, center: F32, distances: Seq<F32>) -> Seq<F32> {
    if holds_value(values, center) || values.len() == 0 {
        values
    } else {
        values.update(closest(distances, values.len()), center)
    }
}

/// Brings the center into a list of values and puts the list in order.
/// `distances` says how far each value is from the center.
pub fn with_center(values: &[F32], center: F32, distances: &[F32]) -> (placed: Vec<F32>)
    requires
        no_nan(values@),
        !center.nan(),
        distances@.len() == values@.len(),
    ensures
        sorted_values(placed@, with_center_value(values@, center, distances@)),
        no_nan(placed@),
        values@.len() > 0 ==> holds_value(placed@, center),
{
    let count: usize = values.len();
    let mut copy: Vec<F32> = Vec::new();
    let mut held: bool = false;
    let mut best: usize = 0;
    let mut i: usize = 0;
    while i < count
        invariant
            i <= count == values@.len() == distances@.len(),
            copy@ == values@.take(i as int),
            held == holds_value(values@.take(i as int), center),
            best == closest(distances@, i as nat),
            i > 0 ==> best < i,
        decreases count - i,
    {
        let ghost before = values@.take(i as int);
        let value: F32 = values[i];
        copy.push(value);
        let equal: bool = value.eq_value(center);
        assert(copy@ =~= values@.take(i + 1));
        proof {
            if held {
                let k = choose|k: int| 0 <= k < before.len() && (#[trigger] before[k]).same(center);
                assert(copy@[k].same(center));
            }
            if equal {
                assert(copy@[i as int].same(center));
            }
            if holds_value(copy@, center) && !equal {
                let k = choose|k: int| 0 <= k < copy@.len() && (#[trigger] copy@[k]).same(center);
                assert(before[k].same(center));
            }
        }
        held = held || equal;
        if i > 0 && distances[i].lt(distances[best]) {
            best = i;
        }
        i = i + 1;
    }
    assert(copy@ =~= values@);
    let ghost wanted = with_center_value(values@, center, distances@);
    if !held && count > 0 {
        copy.set(best, center);
        assert(copy@[best as int].same(center));
    }
    assert(copy@ == wanted);
    let placed: Vec<F32> = sort_and_dedup(copy.as_slice());
    proof {
        if values@.len() > 0 {
            assert(holds_value(wanted, center));
            let k = choose|k: int| 0 <= k < wanted.len() && (#[trigger] wanted[k]).same(center);
            assert(holds_value(placed@, wanted[k]));
            let j = choose|j: int| 0 <= j < placed@.len() && (#[trigger] placed@[j]).same(wanted[k]);
            assert(placed@[j].same(center));
        }
    }
    placed
}

/// How far whole numbers are from a whole number.
pub open spec fn index_distances(values: Seq<F32>, center: F32) -> Seq<F32> {
    values.map_values(
        |value: F32|
            number(
                if value.index() < center.index() {
                    (center.index() - value.index()) as nat
                } else {
                    (value.index() - center.index()) as nat
                },
            ),
    )
}

/// Whether `values` are those of a discrete parameter between two ends: the
/// whole numbers on its steps, with its center in place of the closest one.
pub open spec fn discrete_choice(
    param: ParamView,
    min: int,
    max: int,
    step: int,
    low: F32,
    high: F32,
    points: int,
    values: Seq<F32>,
) -> bool {
    let placed = step_values(low, high, min, max, step, points);
    let center = param.bounds.clamped(param.center);
    &&& sorted_values(values, with_center_value(placed, center, index_distances(placed, center)))
    &&& placed.len() > 0 ==> holds_value(values, center)
}

/// Whether `values` are those of a parameter: its center where a single one is
/// asked for, all indices where it has names, whole numbers between the two
/// ends where it is discrete, and what was computed where it is continuous.
pub open spec fn chosen_values(
    param: ParamView,
    points: int,
    low: F32,
    high: F32,
    computed: Seq<F32>,
    values: Seq<F32>,
) -> bool {
    if points == 1 {
        values == seq![param.center]
    } else {
        match param.bounds {
            BoundsView::Continuous { .. } => values == computed,
            BoundsView::Discrete { min, max, step } => discrete_choice(
                param,
                min as int,
                max as int,
                step as int,
                low,
                high,
                points,
                values,
            ),
            BoundsView::Categorical { values: names } => values == Seq::new(names.len(), |i: int| number(i as nat)),
        }
    }
}

/// The values of a discrete parameter lie between its bounds, at intervals of
/// its step from the smallest one.
pub proof fn law_discrete_values_stay_within_bounds(
    param: ParamView,
    points: int,
    low: F32,
    high: F32,
    computed: Seq<F32>,
    values: Seq<F32>,
)
    requires
        param.bounds is Discrete,
        param.bounds.valid(),
        points > 1,
        chosen_values(param, points, low, high, computed, values),
    ensures
        forall|i: int|
            0 <= i < values.len() ==> param.bounds.holds(#[trigger] values[i]) && is_step(
                values[i],
                param.bounds->Discrete_min as int,
                param.bounds->Discrete_max as int,
                param.bounds->step as int,
            ),
{
    let min = param.bounds->Discrete_min as int;
    let max = param.bounds->Discrete_max as int;
    let step = param.bounds->step as int;
    let placed = step_values(low, high, min, max, step, points);
    let center = param.bounds.clamped(param.center);
    let distances = index_distances(placed, center);
    law_steps_stay_within_bounds(low, high, min, max, step, points);
    let within = clip(param.center.index() as int, min, max);
    let k = (within - min) / step;
    vstd::arithmetic::div_mod::lemma_div_is_ordered(within - min, max - min, step);
    assert(k >= 0) by (nonlinear_arith)
        requires
            k == (within - min) / step,
            within >= min,
            step > 0,
    ;
    lemma_step_within(k, min, max, step);
    assert(center == number((min + k * step) as nat));
    assert(is_step(center, min, max, step));
    assert forall|i: int| 0 <= i < values.len() implies param.bounds.holds(#[trigger] values[i]) && is_step(
        values[i],
        min,
        max,
        step,
    ) by {
        let list = with_center_value(placed, center, distances);
        if placed.len() > 0 {
            lemma_closest_is_there(distances, placed.len());
        }
        assert(list.contains(values[i]));
        let j = choose|j: int| 0 <= j < list.len() && list[j] == values[i];
        assert(values[i] == center || values[i] == placed[j]);
        let n = choose|n: nat| values[i] == #[trigger] number(n) && min <= n <= max && (n - min) % step == 0;
        law_numbers_keep_their_order(min as usize, n as usize);
        law_numbers_keep_their_order(n as usize, max as usize);
    }
}

/// The values of a discrete parameter between two ends.
fn discrete_values(
    param: &ParamDef,
    min: usize,
    max: usize,
    step: usize,
    low: F32,
    high: F32,
    points: usize,
) -> (values: Vec<F32>)
    requires
        param@.bounds is Discrete,
        param@.bounds.valid(),
        min <= max,
        step > 0,
        points > 1,
    ensures
        discrete_choice(param@, min as int, max as int, step as int, low, high, points as int, values@),
        no_nan(values@),
{
    let placed: Vec<F32> = discrete_points(low, high, min, max, step, points);
    let center: F32 = param.bounds.clamp(param.center);
    let middle: usize = center.to_index();
    let count: usize = placed.len();
    let mut distances: Vec<F32> = Vec::new();
    let mut i: usize = 0;
    while i < count
        invariant
            i <= count == placed@.len(),
            middle == center.index(),
            distances@ == index_distances(placed@, center).take(i as int),
        decreases count - i,
    {
        let index: usize = placed[i].to_index();
        let distance: usize = if index < middle {
            middle - index
        } else {
            index - middle
        };
        distances.push(F32::from_index(distance));
        i = i + 1;
        assert(distances@ =~= index_distances(placed@, center).take(i as int));
    }
    assert(distances@ =~= index_distances(placed@, center));
    with_center(placed.as_slice(), center, distances.as_slice())
}

/// The values of a parameter. `low` and `high` are the ends between which a
/// discrete parameter is searched, `computed` holds the values of a continuous
/// one.
pub fn generate_param_values(param: &ParamDef, points: usize, low: F32, high: F32, computed: &[F32]) -> (values: Vec<F32>)
    requires
        points != 1 ==> (param@.bounds is Discrete ==> points > 0 && param@.bounds.valid()),
    ensures
        chosen_values(param@, points as int, low, high, computed@, values@),
{
    let mut values: Vec<F32> = Vec::new();
    if points == 1 {
        values.push(param.center);
        assert(values@ =~= seq![param@.center]);
        return values;
    }
    match &param.bounds {
        ParamBounds::Categorical { values: names } => {
            let count: usize = names.len();
            let mut i: usize = 0;
            while i < count
                invariant
                    i <= count == names@.len(),
                    values@ == Seq::new(i as nat, |j: int| number(j as nat)),
                decreases count - i,
            {
                values.push(F32::from_index(i));
                i = i + 1;
                assert(values@ =~= Seq::new(i as nat, |j: int| number(j as nat)));
            }
            values
        },
        ParamBounds::Discrete { min, max, step } => discrete_values(param, *min, *max, *step, low, high, points),
        ParamBounds::Continuous { .. } => {
            let count: usize = computed.len();
            let mut i: usize = 0;
            while i < count
                invariant
                    i <= count == computed@.len(),
                    values@ == computed@.take(i as int),
                decreases count - i,
            {
                values.push(computed[i]);
                i = i + 1;
                assert(values@ =~= computed@.take(i as int));
            }
            assert(computed@.take(count as int) =~= computed@);
            values
        },
    }
}

/// Every combination of one value per list; the last list varies fastest.
pub open spec fn combinations(lists: Seq<Seq<F32>>) -> Seq<Seq<F32>>
    decreases lists.len(),
{
    if lists.len() == 0 {
        seq![Seq::empty()]
    } else {
        let before = combinations(lists.drop_last());
        let last = lists.last();
        Seq::new(
            before.len() * last.len(),
            |k: int| before[k / (last.len() as int)].push(last[k % (last.len() as int)]),
        )
    }
}

/// The views of some rows.
pub open spec fn rows_view(rows: Seq<Vec<F32>>) -> Seq<Seq<F32>> {
    rows.map_values(|row: Vec<F32>| row@)
}

/// A row with one more value.
fn extended(row: &Vec<F32>, value: F32) -> (longer: Vec<F32>)
    ensures
        longer@ == row@.push(value),
{
    let mut longer: Vec<F32> = Vec::new();
    let count: usize = row.len();
    let mut i: usize = 0;
    while i < count
        invariant
            i <= count == row@.len(),
            longer@ == row@.take(i as int),
        decreases count - i,
    {
        longer.push(row[i]);
        i = i + 1;
        assert(longer@ =~= row@.take(i as int));
    }
    assert(row@.take(count as int) =~= row@);
    longer.push(value);
    longer
}

/// Every row with every value appended.
fn extend_all(rows: &Vec<Vec<F32>>, values: &Vec<F32>) -> (longer: Vec<Vec<F32>>)
    requires
        values@.len() > 0,
    ensures
        longer@.len() == rows@.len() * values@.len(),
        forall|k: int|
            0 <= k < longer@.len() ==> (#[trigger] longer@[k])@ == rows@[k / (values@.len() as int)]@.push(
                values@[k % (values@.len() as int)],
            ),
{
    let mut longer: Vec<Vec<F32>> = Vec::new();
    let count: usize = rows.len();
    let width: usize = values.len();
    let mut i: usize = 0;
    while i < count
        invariant
            i <= count == rows@.len(),
            width == values@.len(),
            width > 0,
            longer@.len() == i * width,
            forall|k: int|
                0 <= k < longer@.len() ==> (#[trigger] longer@[k])@ == rows@[k / (width as int)]@.push(
                    values@[k % (width as int)],
                ),
        decreases count - i,
    {
        let mut j: usize = 0;
        while j < width
            invariant
                i < count == rows@.len(),
                j <= width == values@.len(),
                width > 0,
                longer@.len() == i * width + j,
                forall|k: int|
                    0 <= k < longer@.len() ==> (#[trigger] longer@[k])@ == rows@[k / (width as int)]@.push(
                        values@[k % (width as int)],
                    ),
            decreases width - j,
        {
            proof {
                vstd::arithmetic::div_mod::lemma_fundamental_div_mod_converse(
                    i * width + j,
                    width as int,
                    i as int,
                    j as int,
                );
                assert(width * i == i * width) by (nonlinear_arith);
            }
            longer.push(extended(&rows[i], values[j]));
            j = j + 1;
        }
        assert((i + 1) * width == i * width + width) by (nonlinear_arith);
        i = i + 1;
    }
    longer
}

/// Every combination of one value per list.
fn all_combinations(lists: &Vec<Vec<F32>>) -> (rows: Vec<Vec<F32>>)
    requires
        forall|i: int| 0 <= i < lists@.len() ==> (#[trigger] lists@[i])@.len() > 0,
    ensures
        rows_view(rows@) == combinations(rows_view(lists@)),
{
    let mut rows: Vec<Vec<F32>> = Vec::new();
    rows.push(Vec::new());
    let count: usize = lists.len();
    let mut i: usize = 0;
    let ghost all = rows_view(lists@);
    assert(rows_view(rows@) =~= combinations(all.take(0)));
    while i < count
        invariant
            i <= count == lists@.len(),
            forall|j: int| 0 <= j < lists@.len() ==> (#[trigger] lists@[j])@.len() > 0,
            all == rows_view(lists@),
            rows_view(rows@) == combinations(all.take(i as int)),
        decreases count - i,
    {
        let ghost before = rows@;
        let longer = extend_all(&rows, &lists[i]);
        proof {
            assert(all.take(i + 1).drop_last() =~= all.take(i as int));
            assert(all.take(i + 1).last() == lists@[i as int]@);
            let width = lists@[i as int]@.len() as int;
            let expected = combinations(all.take(i + 1));
            assert forall|k: int| 0 <= k < longer@.len() implies rows_view(longer@)[k] == #[trigger] expected[k] by {
                lemma_division_in_range(k, before.len() as int, width);
                assert(rows_view(before)[k / width] == before[k / width]@);
            }
            assert(rows_view(longer@) =~= expected);
        }
        rows = longer;
        i = i + 1;
    }
    assert(all.take(count as int) =~= all);
    rows
}

proof fn lemma_division_in_range(k: int, rows: int, width: int)
    requires
        0 <= k < rows * width,
        width > 0,
    ensures
        0 <= k / width < rows,
        0 <= k % width < width,
{
    vstd::arithmetic::div_mod::lemma_fundamental_div_mod(k, width);
    vstd::arithmetic::div_mod::lemma_div_pos_is_pos(k, width);
    assert(k / width < rows) by (nonlinear_arith)
        requires
            k < rows * width,
            k == width * (k / width) + k % width,
            k % width >= 0,
            width > 0,
    ;
}

/// A row as values by the names of the parameters.
pub open spec fn named(params: Seq<ParamView>, row: Seq<F32>) -> Map<Seq<char>, F32>
    decreases params.len(),
{
    if params.len() == 0 {
        Map::empty()
    } else {
        named(params.drop_last(), row).insert(params.last().name.name(), row[params.len() - 1])
    }
}

/// Gives the values of a row their names.
fn candidate(params: &[ParamDef], row: &Vec<F32>) -> (values: ParamMap<F32>)
    requires
        row@.len() == params@.len(),
    ensures
        values.wf(),
        values@ == named(param_views(params@), row@),
{
    let ghost views = param_views(params@);
    let count: usize = params.len();
    let mut values: ParamMap<F32> = ParamMap::new();
    let mut i: usize = 0;
    while i < count
        invariant
            i <= count == params@.len() == row@.len(),
            views == param_views(params@),
            values.wf(),
            values@ == named(views.take(i as int), row@),
        decreases count - i,
    {
        values.insert(params[i].name_str().to_owned(), row[i]);
        assert(views.take(i + 1).drop_last() =~= views.take(i as int));
        assert(views.take(i + 1).last() == params@[i as int]@);
        i = i + 1;
    }
    assert(views.take(count as int) =~= views);
    values
}

/// Gives the values of some rows their names.
fn candidates(params: &[ParamDef], rows: &[Vec<F32>]) -> (found: Vec<ParamMap<F32>>)
    requires
        forall|k: int| 0 <= k < rows@.len() ==> (#[trigger] rows@[k])@.len() == params@.len(),
    ensures
        found@.len() == rows@.len(),
        forall|k: int|
            0 <= k < rows@.len() ==> (#[trigger] found@[k]).wf() && found@[k]@ == named(
                param_views(params@),
                rows@[k]@,
            ),
{
    let count: usize = rows.len();
    let mut found: Vec<ParamMap<F32>> = Vec::new();
    let mut k: usize = 0;
    while k < count
        invariant
            k <= count == rows@.len(),
            forall|j: int| 0 <= j < rows@.len() ==> (#[trigger] rows@[j])@.len() == params@.len(),
            found@.len() == k,
            forall|j: int|
                0 <= j < k ==> (#[trigger] found@[j]).wf() && found@[j]@ == named(param_views(params@), rows@[j]@),
        decreases count - k,
    {
        found.push(candidate(params, &rows[k]));
        k = k + 1;
    }
    found
}

/// Whether each list holds the values of the list beside it, once and in order.
pub open spec fn all_sorted(lists: Seq<Seq<F32>>, values: Seq<Seq<F32>>) -> bool {
    &&& lists.len() == values.len()
    &&& forall|i: int| 0 <= i < lists.len() ==> sorted_values(#[trigger] lists[i], values[i])
}

/// Every combination of one value per parameter, in order and each once.
pub fn generate_cartesian_grid(space: &ParameterSpace, param_values: &[Vec<F32>]) -> (grid: Vec<ParamMap<F32>>)
    requires
        distinct_params(space@),
        param_values@.len() == space@.len(),
        forall|i: int|
            0 <= i < param_values@.len() ==> (#[trigger] param_values@[i])@.len() > 0 && no_nan(param_values@[i]@),
    ensures
        exists|lists: Seq<Seq<F32>>|
            {
                &&& #[trigger] all_sorted(lists, rows_view(param_values@))
                &&& grid@.len() == combinations(lists).len()
                &&& forall|k: int|
                    0 <= k < grid@.len() ==> (#[trigger] grid@[k]).wf() && grid@[k]@ == named(
                        space@,
                        combinations(lists)[k],
                    )
            },
{
    let params: &[ParamDef] = space.params();
    let count: usize = param_values.len();
    let mut lists: Vec<Vec<F32>> = Vec::new();
    let mut i: usize = 0;
    while i < count
        invariant
            i <= count == param_values@.len(),
            forall|j: int|
                0 <= j < param_values@.len() ==> (#[trigger] param_values@[j])@.len() > 0 && no_nan(param_values@[j]@),
            lists@.len() == i,
            forall|j: int|
                0 <= j < i ==> sorted_values((#[trigger] lists@[j])@, param_values@[j]@) && lists@[j]@.len() > 0,
        decreases count - i,
    {
        let distinct = sort_and_dedup(param_values[i].as_slice());
        proof {
            assert(holds_value(distinct@, param_values@[i as int]@[0]));
        }
        lists.push(distinct);
        i = i + 1;
    }
    let rows = all_combinations(&lists);
    proof {
        let all = rows_view(lists@);
        assert forall|j: int| 0 <= j < all.len() implies sorted_values(#[trigger] all[j], rows_view(param_values@)[j]) by {
            assert(sorted_values(lists@[j]@, param_values@[j]@));
        }
        assert(all_sorted(all, rows_view(param_values@)));
        assert forall|k: int| 0 <= k < rows@.len() implies (#[trigger] rows@[k])@.len() == params@.len() by {
            lemma_combination_lengths(all, k);
            assert(rows_view(rows@)[k] == rows@[k]@);
        }
        assert(rows@.len() == rows_view(rows@).len());
        assert(forall|k: int| 0 <= k < rows@.len() ==> (#[trigger] rows@[k])@ == combinations(all)[k]) by {
            assert forall|k: int| 0 <= k < rows@.len() implies (#[trigger] rows@[k])@ == combinations(all)[k] by {
                assert(rows_view(rows@)[k] == rows@[k]@);
            }
        }
    }
    candidates(params, rows.as_slice())
}

/// A combination holds one value per list.
proof fn lemma_combination_lengths(lists: Seq<Seq<F32>>, k: int)
    requires
        0 <= k < combinations(lists).len(),
    ensures
        combinations(lists)[k].len() == lists.len(),
        forall|i: int| 0 <= i < lists.len() ==> lists[i].contains(#[trigger] combinations(lists)[k][i]),
    decreases lists.len(),
{
    if lists.len() > 0 {
        let shorter = lists.drop_last();
        let before = combinations(shorter);
        let last = lists.last();
        let width = last.len() as int;
        assert(width > 0) by (nonlinear_arith)
            requires
                0 <= k < before.len() * width,
                width >= 0,
        ;
        lemma_division_in_range(k, before.len() as int, width);
        lemma_combination_lengths(shorter, k / width);
        let row = combinations(lists)[k];
        assert(row == before[k / width].push(last[k % width]));
        assert forall|i: int| 0 <= i < lists.len() implies lists[i].contains(#[trigger] row[i]) by {
            if i < shorter.len() {
                assert(shorter[i].contains(before[k / width][i]));
            }
        }
    }
}

/// The product of the lengths of some lists.
pub open spec fn product_of_lengths(lists: Seq<Seq<F32>>) -> nat
    decreases lists.len(),
{
    if lists.len() == 0 {
        1
    } else {
        product_of_lengths(lists.drop_last()) * lists.last().len()
    }
}

/// There are as many combinations as the product of the lengths of the lists.
pub proof fn law_combinations_are_counted_by_the_product(lists: Seq<Seq<F32>>)
    ensures
        combinations(lists).len() == product_of_lengths(lists),
    decreases lists.len(),
{
    if lists.len() > 0 {
        law_combinations_are_counted_by_the_product(lists.drop_last());
    }
}

/// Every choice of one value per list is among the combinations.
pub proof fn law_every_choice_is_a_combination(lists: Seq<Seq<F32>>, row: Seq<F32>)
    requires
        row.len() == lists.len(),
        forall|i: int| 0 <= i < lists.len() ==> lists[i].contains(#[trigger] row[i]),
    ensures
        combinations(lists).contains(row),
    decreases lists.len(),
{
    if lists.len() == 0 {
        assert(combinations(lists)[0] =~= row);
    } else {
        let shorter = lists.drop_last();
        let before = combinations(shorter);
        let last = lists.last();
        let front = row.drop_last();
        assert forall|i: int| 0 <= i < shorter.len() implies shorter[i].contains(#[trigger] front[i]) by {
            assert(lists[i].contains(row[i]));
        }
        law_every_choice_is_a_combination(shorter, front);
        let r = choose|r: int| 0 <= r < before.len() && before[r] == front;
        assert(lists[row.len() - 1].contains(row[row.len() - 1]));
        let j = choose|j: int| 0 <= j < last.len() && last[j] == row.last();
        let width = last.len() as int;
        let k = r * width + j;
        assert(0 <= k < before.len() * width) by (nonlinear_arith)
            requires
                k == r * width + j,
                0 <= r < before.len(),
                0 <= j < width,
        ;
        assert(k == width * r + j) by (nonlinear_arith)
            requires
                k == r * width + j,
        ;
        vstd::arithmetic::div_mod::lemma_fundamental_div_mod_converse(k, width, r, j);
        assert(combinations(lists)[k] =~= row);
    }
}

/// Whether a row comes before another: the first value in which they differ is
/// smaller.
pub open spec fn row_before(a: Seq<F32>, b: Seq<F32>, at: int) -> bool {
    &&& 0 <= at < a.len()
    &&& at < b.len()
    &&& a[at].less(b[at])
    &&& forall|i: int| 0 <= i < at ==> a[i] == #[trigger] b[i]
}

/// Combinations of lists in order come in order themselves, so no two are the
/// same.
pub proof fn law_combinations_are_in_order(lists: Seq<Seq<F32>>, j: int, k: int) -> (at: int)
    requires
        forall|i: int| 0 <= i < lists.len() ==> ascending(#[trigger] lists[i]),
        0 <= j < k < combinations(lists).len(),
    ensures
        row_before(combinations(lists)[j], combinations(lists)[k], at),
    decreases lists.len(),
{
    assert(lists.len() > 0);
    let shorter = lists.drop_last();
    let before = combinations(shorter);
    let last = lists.last();
    let width = last.len() as int;
    assert(width > 0) by (nonlinear_arith)
        requires
            0 <= k < before.len() * width,
            width >= 0,
    ;
    lemma_division_in_range(j, before.len() as int, width);
    lemma_division_in_range(k, before.len() as int, width);
    vstd::arithmetic::div_mod::lemma_fundamental_div_mod(j, width);
    vstd::arithmetic::div_mod::lemma_fundamental_div_mod(k, width);
    lemma_combination_lengths(shorter, j / width);
    lemma_combination_lengths(shorter, k / width);
    let a = combinations(lists)[j];
    let b = combinations(lists)[k];
    assert(a == before[j / width].push(last[j % width]));
    assert(b == before[k / width].push(last[k % width]));
    assert(ascending(lists[lists.len() - 1]));
    if j / width == k / width {
        assert(j % width < k % width);
        assert(last[j % width].less(last[k % width]));
        lists.len() - 1
    } else {
        assert(j / width < k / width) by (nonlinear_arith)
            requires
                j < k,
                j == width * (j / width) + j % width,
                k == width * (k / width) + k % width,
                0 <= j % width < width,
                0 <= k % width < width,
                j / width != k / width,
                width > 0,
        ;
        assert forall|i: int| 0 <= i < shorter.len() implies ascending(#[trigger] shorter[i]) by {
            assert(ascending(lists[i]));
        }
        let at = law_combinations_are_in_order(shorter, j / width, k / width);
        assert forall|i: int| 0 <= i < at implies a[i] == #[trigger] b[i] by {
            assert(before[j / width][i] == before[k / width][i]);
        }
        at
    }
}

/// Where no parameter stands twice, a candidate holds each value of its row
/// under the name of its parameter.
pub proof fn law_candidate_holds_its_row(params: Seq<ParamView>, row: Seq<F32>, i: int)
    requires
        distinct_params(params),
        row.len() >= params.len(),
        0 <= i < params.len(),
    ensures
        named(params, row).dom().contains(params[i].name.name()),
        named(params, row)[params[i].name.name()] == row[i],
    decreases params.len(),
{
    let rest = params.drop_last();
    if i < rest.len() {
        assert forall|a: int, b: int| 0 <= a < b < rest.len() implies (#[trigger] rest[a]).name != (#[trigger] rest[b]).name by {
            assert(params[a].name != params[b].name);
        }
        law_candidate_holds_its_row(rest, row, i);
        assert(params[i].name != params[params.len() - 1].name);
        if params[i].name.name() == params.last().name.name() {
            law_names_are_distinct(params[i].name, params.last().name);
        }
    }
}

} // verus!
