//! Where values land when they are held to bounds, and where bounds land when
//! they are narrowed.

use crate::float::F32;
use crate::float_int::law_small_indices_are_exact;
use crate::tuner::bounds::{number, BoundsView};
use crate::tuner::narrowing::{narrowed, overlaps};
use crate::tuner::past_runs::ValueRange;
use crate::tuner::space::ParamView;
use vstd::prelude::*;

verus! {

/// A number outside continuous bounds becomes the end that it lies beyond, and
/// any other one stays as it is.
pub proof fn law_clamp_moves_to_the_nearer_end(min: F32, max: F32, log_scale: bool, value: F32)
    requires
        min.at_most(max),
    ensures
        ({
            let bounds = BoundsView::Continuous { min, max, log_scale };
            &&& value.less(min) ==> bounds.clamped(value) == min
            &&& max.less(value) ==> bounds.clamped(value) == max
            &&& !value.less(min) && !max.less(value) ==> bounds.clamped(value) == value
        }),
{
}

/// Held to steps, a number becomes the last step that does not lie above its
/// whole part: the first step where it lies below all of them, and a step up to
/// the upper bound where it lies above that.
pub proof fn law_clamp_goes_down_to_a_step(min: usize, max: usize, step: usize, value: F32)
    requires
        min <= max,
        step > 0,
    ensures
        exists|n: nat|
            {
                &&& (BoundsView::Discrete { min, max, step }).clamped(value) == #[trigger] number(n)
                &&& min <= n <= max
                &&& (n - min) % (step as int) == 0
                &&& value.index() <= min ==> n == min
                &&& min <= value.index() <= max ==> n <= value.index() < n + step
                &&& max <= value.index() ==> max < n + step
            },
{
    let bounds = BoundsView::Discrete { min, max, step };
    let low = min as int;
    let high = max as int;
    let at = value.index() as int;
    let within = if at < low {
        low
    } else if at > high {
        high
    } else {
        at
    };
    let d = step as int;
    let k = (within - low) / d;
    let n = low + k * d;
    assert(n <= within < n + d && k >= 0 && k * d >= 0 && (k * d) % d == 0) by {
        vstd::arithmetic::div_mod::lemma_fundamental_div_mod(within - low, d);
        vstd::arithmetic::div_mod::lemma_div_pos_is_pos(within - low, d);
        assert(d * k == k * d) by (nonlinear_arith);
        assert(k * d >= 0) by (nonlinear_arith)
            requires
                k >= 0,
                d > 0,
        ;
        vstd::arithmetic::div_mod::lemma_mod_multiples_basic(k, d);
    }
    if within == low {
        assert(k == 0) by (nonlinear_arith)
            requires
                within == low,
                k == (within - low) / d,
                d > 0,
        ;
        assert(k * d == 0) by (nonlinear_arith)
            requires
                k == 0,
        ;
    }
    assert(n - low == k * d);
    assert(bounds.clamped(value) == number(n as nat));
}

/// Held to a list, a number becomes its whole part where that is a position of
/// the list, and the last position where it lies beyond.
pub proof fn law_clamp_stays_in_the_list(values: Seq<Seq<char>>, value: F32)
    requires
        values.len() > 0,
    ensures
        ({
            let bounds = BoundsView::Categorical { values };
            &&& value.index() < values.len() ==> bounds.clamped(value) == number(value.index() as nat)
            &&& value.index() >= values.len() ==> bounds.clamped(value) == number((values.len() - 1) as nat)
        }),
{
}

/// What is no number, or lies below the least or above the greatest value, is
/// not within bounds; a list without entries holds nothing.
pub proof fn law_nothing_outside_is_held(bounds: BoundsView, value: F32)
    ensures
        value.nan() ==> !bounds.holds(value),
        match bounds {
            BoundsView::Continuous { min, max, .. } => {
                &&& value.less(min) || max.less(value) ==> !bounds.holds(value)
                &&& min.at_most(value) && value.at_most(max) ==> bounds.holds(value)
                &&& bounds.least() == min
                &&& bounds.greatest() == max
            },
            BoundsView::Discrete { min, max, .. } => {
                &&& value.less(number(min as nat)) || number(max as nat).less(value) ==> !bounds.holds(value)
                &&& number(min as nat).at_most(value) && value.at_most(number(max as nat)) ==> bounds.holds(value)
                &&& bounds.least() == number(min as nat)
                &&& bounds.greatest() == number(max as nat)
            },
            BoundsView::Categorical { values } => {
                &&& values.len() == 0 ==> !bounds.holds(value)
                &&& values.len() > 0 ==> {
                    let last = number((values.len() - 1) as nat);
                    &&& value.less(number(0)) || last.less(value) ==> !bounds.holds(value)
                    &&& number(0).at_most(value) && value.at_most(last) ==> bounds.holds(value)
                    &&& bounds.greatest() == last
                }
                &&& bounds.least().bits == 0
            },
        },
{
}

/// Bounds can be used when they are not turned round and their steps lead
/// somewhere.
pub proof fn law_valid_bounds(bounds: BoundsView)
    ensures
        match bounds {
            BoundsView::Continuous { min, max, .. } => bounds.valid() <==> min.at_most(max),
            BoundsView::Discrete { min, max, step } => bounds.valid() <==> min <= max && step != 0,
            BoundsView::Categorical { .. } => bounds.valid(),
        },
{
}

/// Continuous bounds are narrowed to what was observed, but never widened: the
/// new lower end is the larger of the old one and the least value observed, the
/// new upper end the smaller of the old one and the greatest. The center is the
/// middle that is handed in, held to the new bounds.
pub proof fn law_continuous_bounds_close_in(param: ParamView, range: ValueRange, middle: F32)
    requires
        param.bounds is Continuous,
        param.bounds.valid(),
        !range.least.nan(),
        !range.greatest.nan(),
        overlaps(param, Some(range)),
    ensures
        ({
            let min = param.bounds->Continuous_min;
            let max = param.bounds->Continuous_max;
            let after = narrowed(param, Some(range), middle);
            let low = after.bounds->Continuous_min;
            let high = after.bounds->Continuous_max;
            &&& after.name == param.name
            &&& after.bounds is Continuous
            &&& low == min || low == range.least
            &&& min.at_most(low) && range.least.at_most(low)
            &&& high == max || high == range.greatest
            &&& high.at_most(max) && high.at_most(range.greatest)
            &&& low.at_most(high)
            &&& middle.less(low) ==> after.center == low
            &&& high.less(middle) ==> after.center == high
            &&& !middle.less(low) && !high.less(middle) ==> after.center == middle
        }),
{
}

/// Stepped bounds are narrowed to what was observed, but never widened: the new
/// lower end is the last step at or below the larger of the old one and the least
/// value observed, the new upper end the last step at or below the smaller of the
/// old one and the greatest. The center is the last step at or below the middle
/// between the new ends.
pub proof fn law_stepped_bounds_close_in(param: ParamView, range: ValueRange, middle: F32)
    requires
        param.bounds is Discrete,
        param.bounds.valid(),
        param.bounds->Discrete_max <= 0x80_0000,
        overlaps(param, Some(range)),
    ensures
        ({
            let min = param.bounds->Discrete_min as int;
            let max = param.bounds->Discrete_max as int;
            let step = param.bounds->step as int;
            let least = range.least.index() as int;
            let greatest = range.greatest.index() as int;
            let from = if least > min { least } else { min };
            let to = if greatest < max { greatest } else { max };
            let after = narrowed(param, Some(range), middle);
            let low = after.bounds->Discrete_min as int;
            let high = after.bounds->Discrete_max as int;
            &&& after.name == param.name
            &&& after.bounds is Discrete
            &&& after.bounds->step == step
            &&& low <= from < low + step && (low - min) % step == 0
            &&& high <= to < high + step && (high - low) % step == 0
            &&& low <= high
            &&& exists|n: nat|
                after.center == #[trigger] number(n) && n <= (low + high) / 2 < n + step && (n - low) % step == 0
        }),
{
    let min = param.bounds->Discrete_min as int;
    let max = param.bounds->Discrete_max as int;
    let step = param.bounds->step as int;
    let least = range.least.index() as int;
    let greatest = range.greatest.index() as int;
    let from = if least > min { least } else { min };
    let to = if greatest < max { greatest } else { max };
    lemma_step_down(from - min, step);
    let low = ((from - min) / step) * step + min;
    lemma_step_down(to - low, step);
    let high = ((to - low) / step) * step + low;
    let between = (low + high) / 2;
    law_small_indices_are_exact(between as usize);
    let center = number(between as nat);
    assert(center.index() == between);
    law_clamp_goes_down_to_a_step(low as usize, high as usize, step as usize, center);
    let bounds = BoundsView::Discrete { min: low as usize, max: high as usize, step: step as usize };
    let after = narrowed(param, Some(range), middle);
    assert(after.bounds == bounds);
    assert(after.center == bounds.clamped(center));
}

/// The last multiple of a step that does not lie above a distance.
proof fn lemma_step_down(distance: int, step: int)
    requires
        distance >= 0,
        step > 0,
    ensures
        ({
            let down = (distance / step) * step;
            0 <= down <= distance < down + step && down % step == 0
        }),
{
    let k = distance / step;
    vstd::arithmetic::div_mod::lemma_fundamental_div_mod(distance, step);
    vstd::arithmetic::div_mod::lemma_div_pos_is_pos(distance, step);
    assert(step * k == k * step) by (nonlinear_arith);
    assert(k * step >= 0) by (nonlinear_arith)
        requires
            k >= 0,
            step > 0,
    ;
    vstd::arithmetic::div_mod::lemma_mod_multiples_basic(k, step);
}

/// A list is not narrowed; its center stays where that is a position of the list
/// and becomes the first one otherwise. Without observations nothing changes.
pub proof fn law_lists_are_not_narrowed(param: ParamView, range: Option<ValueRange>, middle: F32)
    ensures
        range is None ==> narrowed(param, range, middle) == param,
        param.bounds is Categorical && range is Some && param.bounds->values.len() <= 0x100_0000 ==> {
            let after = narrowed(param, range, middle);
            &&& after.name == param.name
            &&& after.bounds == param.bounds
            &&& param.center.index() < param.bounds->values.len() ==> after.center == number(
                param.center.index() as nat,
            )
            &&& param.center.index() >= param.bounds->values.len() ==> after.center == number(0)
        },
{
    if param.bounds is Categorical && range is Some && param.bounds->values.len() <= 0x100_0000 {
        if param.center.index() < param.bounds->values.len() {
            law_small_indices_are_exact(param.center.index());
        } else {
            law_small_indices_are_exact(0);
        }
    }
}

/// When bounds can be narrowed: where continuous ends stay in order, where steps
/// are left between the ends, and always for lists and without observations.
pub proof fn law_narrowing_needs_an_overlap(param: ParamView, range: ValueRange)
    requires
        param.bounds.valid(),
    ensures
        overlaps(param, None),
        param.bounds is Categorical ==> overlaps(param, Some(range)),
        param.bounds is Continuous && !range.least.nan() && !range.greatest.nan() ==> (overlaps(param, Some(range)) <==> {
            let min = param.bounds->Continuous_min;
            let max = param.bounds->Continuous_max;
            range.least.at_most(max) && min.at_most(range.greatest) && range.least.at_most(range.greatest)
        }),
        param.bounds is Discrete && range.least.index() > param.bounds->Discrete_max && param.bounds->step == 1
            ==> !overlaps(param, Some(range)),
        param.bounds is Discrete && range.greatest.index() < param.bounds->Discrete_min ==> !overlaps(
            param,
            Some(range),
        ),
{
    if param.bounds is Discrete {
        let min = param.bounds->Discrete_min as int;
        let step = param.bounds->step as int;
        let least = range.least.index() as int;
        let from = if least > min { least } else { min };
        lemma_step_down(from - min, step);
    }
}

} // verus!
