//! New bounds for the parameters of a space.

use crate::float::{F32, F32_ZERO};
use crate::tuner::bounds::{number, BoundsView, ParamBounds};
use crate::tuner::past_runs::{spans, ValueRange};
use crate::tuner::space::{param_views, placed, ParamDef, ParamView, ParameterSpace};
use vstd::prelude::*;

verus! {

/// The larger of two values; the other one where one is no number.
pub open spec fn larger(a: F32, b: F32) -> F32 {
    if a.nan() || a.less(b) {
        b
    } else {
        a
    }
}

/// The smaller of two values; the other one where one is no number.
pub open spec fn smaller(a: F32, b: F32) -> F32 {
    if a.nan() || b.less(a) {
        b
    } else {
        a
    }
}

/// The ends of continuous bounds that are narrowed to an observed range: those
/// of the range, where they lie within the bounds.
pub open spec fn narrowed_ends(min: F32, max: F32, range: ValueRange) -> (F32, F32) {
    (larger(range.least, min), smaller(range.greatest, max))
}

/// The smallest whole number that narrowed discrete bounds hold.
pub open spec fn narrowed_low(min: int, step: int, range: ValueRange) -> int {
    let least = range.least.index() as int;
    let low = if least > min {
        least
    } else {
        min
    };
    ((low - min) / step) * step + min
}

/// The largest whole number that an observed range leaves of discrete bounds.
pub open spec fn observed_high(max: int, range: ValueRange) -> int {
    let greatest = range.greatest.index() as int;
    if greatest < max {
        greatest
    } else {
        max
    }
}

/// The largest whole number that narrowed discrete bounds hold.
pub open spec fn narrowed_high(min: int, max: int, step: int, range: ValueRange) -> int {
    let low = narrowed_low(min, step, range);
    ((observed_high(max, range) - low) / step) * step + low
}

/// Whether something is left of the bounds of a parameter.
pub open spec fn overlaps(param: ParamView, range: Option<ValueRange>) -> bool {
    match range {
        None => true,
        Some(observed) => match param.bounds {
            BoundsView::Continuous { min, max, .. } => {
                let (low, high) = narrowed_ends(min, max, observed);
                low.at_most(high)
            },
            BoundsView::Discrete { min, max, step } => {
                &&& step > 0
                &&& narrowed_low(min as int, step as int, observed) <= observed_high(max as int, observed)
                &&& narrowed_low(min as int, step as int, observed) + narrowed_high(
                    min as int,
                    max as int,
                    step as int,
                    observed,
                ) <= usize::MAX
            },
            BoundsView::Categorical { .. } => true,
        },
    }
}

/// A parameter narrowed to what was observed, with its center in the middle:
/// for whole numbers the one halfway between the ends, for continuous bounds
/// `middle`. Without observations it stays as it is; names stay, and so does
/// the center among them unless it points past them.
pub open spec fn narrowed(param: ParamView, range: Option<ValueRange>, middle: F32) -> ParamView {
    match range {
        None => param,
        Some(observed) => match param.bounds {
            BoundsView::Continuous { min, max, log_scale } => {
                let (low, high) = narrowed_ends(min, max, observed);
                placed(param.name, BoundsView::Continuous { min: low, max: high, log_scale }, middle)
            },
            BoundsView::Discrete { min, max, step } => {
                let low = narrowed_low(min as int, step as int, observed);
                let high = narrowed_high(min as int, max as int, step as int, observed);
                placed(
                    param.name,
                    BoundsView::Discrete { min: low as usize, max: high as usize, step },
                    number(((low + high) / 2) as nat),
                )
            },
            BoundsView::Categorical { values } => placed(
                param.name,
                param.bounds,
                if param.center.index() < values.len() {
                    number(param.center.index() as nat)
                } else {
                    F32 { bits: F32_ZERO }
                },
            ),
        },
    }
}

/// The larger of two values.
fn larger_of(a: F32, b: F32) -> (chosen: F32)
    ensures
        chosen == larger(a, b),
{
    if a.is_nan() || a.lt(b) {
        b
    } else {
        a
    }
}

/// The smaller of two values.
fn smaller_of(a: F32, b: F32) -> (chosen: F32)
    ensures
        chosen == smaller(a, b),
{
    if a.is_nan() || b.lt(a) {
        b
    } else {
        a
    }
}

/// The ends of continuous bounds that are narrowed to an observed range.
pub fn continuous_ends(min: F32, max: F32, range: ValueRange) -> (ends: (F32, F32))
    ensures
        ends == narrowed_ends(min, max, range),
{
    (larger_of(range.least, min), smaller_of(range.greatest, max))
}

proof fn lemma_step_down(value: int, from: int, step: int)
    requires
        from <= value,
        step > 0,
    ensures
        from <= ((value - from) / step) * step + from <= value,
        (value - from) / step >= 0,
{
    let steps = (value - from) / step;
    vstd::arithmetic::div_mod::lemma_fundamental_div_mod(value - from, step);
    vstd::arithmetic::div_mod::lemma_div_pos_is_pos(value - from, step);
    assert(step * steps == steps * step) by (nonlinear_arith);
    assert(steps * step >= 0) by (nonlinear_arith)
        requires
            steps >= 0,
            step > 0,
    ;
}

/// The ends of narrowed discrete bounds, if something is left of them and their
/// sum can be computed.
fn discrete_ends(min: usize, max: usize, step: usize, range: ValueRange) -> (ends: Option<(usize, usize)>)
    requires
        step > 0,
    ensures
        ({
            let low = narrowed_low(min as int, step as int, range);
            let high = narrowed_high(min as int, max as int, step as int, range);
            match ends {
                Some((l, h)) => {
                    &&& l == low && h == high && l <= h
                    &&& low <= observed_high(max as int, range)
                    &&& low + high <= usize::MAX
                },
                None => low > observed_high(max as int, range) || low + high > usize::MAX,
            }
        }),
{
    let least: usize = range.least.to_index();
    let greatest: usize = range.greatest.to_index();
    let new_min: usize = if least > min {
        least
    } else {
        min
    };
    let new_max: usize = if greatest < max {
        greatest
    } else {
        max
    };
    proof {
        lemma_step_down(new_min as int, min as int, step as int);
    }
    let low: usize = ((new_min - min) / step) * step + min;
    if new_max < low {
        return None;
    }
    proof {
        lemma_step_down(new_max as int, low as int, step as int);
    }
    let high: usize = ((new_max - low) / step) * step + low;
    if high > usize::MAX - low {
        None
    } else {
        Some((low, high))
    }
}

/// Whether something is left of the bounds of a parameter.
pub fn can_narrow(param: &ParamDef, range: Option<ValueRange>) -> (can: bool)
    ensures
        can == overlaps(param@, range),
{
    match range {
        None => true,
        Some(observed) => match &param.bounds {
            ParamBounds::Continuous { min, max, .. } => {
                let (low, high): (F32, F32) = continuous_ends(*min, *max, observed);
                low.le(high)
            },
            ParamBounds::Discrete { min, max, step } => {
                if *step == 0 {
                    false
                } else {
                    discrete_ends(*min, *max, *step, observed).is_some()
                }
            },
            ParamBounds::Categorical { .. } => true,
        },
    }
}

/// Narrows a parameter.
fn narrow(param: &mut ParamDef, observed: ValueRange, middle: F32)
    requires
        overlaps(old(param)@, Some(observed)),
    ensures
        final(param)@ == narrowed(old(param)@, Some(observed), middle),
{
    let mut new_bounds: Option<ParamBounds> = None;
    let center: F32 = match &param.bounds {
        ParamBounds::Continuous { min, max, log_scale } => {
            let (low, high): (F32, F32) = continuous_ends(*min, *max, observed);
            new_bounds = Some(ParamBounds::Continuous { min: low, max: high, log_scale: *log_scale });
            middle
        },
        ParamBounds::Discrete { min, max, step } => {
            match discrete_ends(*min, *max, *step, observed) {
                Some((low, high)) => {
                    new_bounds = Some(ParamBounds::Discrete { min: low, max: high, step: *step });
                    F32::from_index((low + high) / 2)
                },
                None => F32 { bits: F32_ZERO },
            }
        },
        ParamBounds::Categorical { values } => {
            let current: usize = param.center.to_index();
            if current < values.len() {
                F32::from_index(current)
            } else {
                F32 { bits: F32_ZERO }
            }
        },
    };
    match new_bounds {
        Some(bounds) => {
            param.bounds = bounds;
        },
        None => {},
    }
    param.set_center(center);
}

impl ParameterSpace {
    /// Narrows the space to what the best trials of earlier runs hold. `middles`
    /// holds the value halfway between the new ends of each continuous parameter.
    pub fn constrain_from_history(self, ranges: &[Option<ValueRange>], middles: &[F32]) -> (space: ParameterSpace)
        requires
            ranges@.len() == self@.len(),
            middles@.len() == self@.len(),
            forall|i: int| 0 <= i < self@.len() ==> overlaps(#[trigger] self@[i], ranges@[i]),
        ensures
            space@.len() == self@.len(),
            forall|i: int| 0 <= i < self@.len() ==> #[trigger] space@[i] == narrowed(self@[i], ranges@[i], middles@[i]),
    {
        let mut space = self;
        let ghost before = space@;
        let params: &mut [ParamDef] = space.params_mut();
        let count: usize = params.len();
        let mut i: usize = 0;
        while i < count
            invariant
                i <= count == before.len(),
                params@.len() == count,
                ranges@.len() == count,
                middles@.len() == count,
                after_borrow(space)@ == param_views(final(params)@),
                forall|j: int| 0 <= j < count ==> overlaps(#[trigger] before[j], ranges@[j]),
                forall|j: int| 0 <= j < i ==> (#[trigger] params@[j])@ == narrowed(before[j], ranges@[j], middles@[j]),
                forall|j: int| i <= j < count ==> (#[trigger] params@[j])@ == before[j],
            decreases count - i,
        {
            assert(params@[i as int]@ == before[i as int]);
            assert(overlaps(before[i as int], ranges@[i as int]));
            match ranges[i] {
                Some(observed) => {
                    narrow(&mut params[i], observed, middles[i]);
                },
                None => {},
            }
            i = i + 1;
        }
        space
    }
}

/// Narrowing keeps which parameter it is and takes nothing in that was outside:
/// the ends stay within the old ones, a step stays as it is, and so do names.
/// Narrowed discrete bounds have both ends on the steps.
pub proof fn law_narrowing_only_takes_away(param: ParamView, range: Option<ValueRange>, middle: F32)
    requires
        param.bounds.valid(),
        overlaps(param, range),
    ensures
        ({
            let after = narrowed(param, range, middle);
            &&& after.name == param.name
            &&& after.bounds.valid()
            &&& match param.bounds {
                BoundsView::Continuous { min, max, log_scale } => after.bounds matches BoundsView::Continuous {
                    min: low,
                    max: high,
                    log_scale: scale,
                } && min.at_most(low) && high.at_most(max) && scale == log_scale,
                BoundsView::Discrete { min, max, step } => after.bounds matches BoundsView::Discrete {
                    min: low,
                    max: high,
                    step: distance,
                } && min <= low <= high <= max && distance == step && (low - min) % (step as int) == 0 && (range is Some ==> (
                high - low) % (step as int) == 0),
                BoundsView::Categorical { .. } => after.bounds == param.bounds,
            }
        }),
{
    match range {
        None => {
            match param.bounds {
                BoundsView::Discrete { min, max, step } => {
                    assert((min - min) % (step as int) == 0) by {
                        vstd::arithmetic::div_mod::lemma_mod_multiples_vanish(0, 0, step as int);
                    }
                },
                _ => {},
            }
        },
        Some(observed) => {
            match param.bounds {
                BoundsView::Discrete { min, max, step } => {
                    let least = observed.least.index() as int;
                    let new_min = if least > min {
                        least
                    } else {
                        min as int
                    };
                    lemma_step_down(new_min, min as int, step as int);
                    let low = narrowed_low(min as int, step as int, observed);
                    lemma_step_down(observed_high(max as int, observed), low, step as int);
                    vstd::arithmetic::div_mod::lemma_mod_multiples_basic((new_min - min) / (step as int), step as int);
                    vstd::arithmetic::div_mod::lemma_mod_multiples_basic(
                        (observed_high(max as int, observed) - low) / (step as int),
                        step as int,
                    );
                },
                _ => {},
            }
        },
    }
}

/// Continuous bounds are narrowed to the smallest and the largest value that was
/// observed: a new end is one of the observed values or an old end, and every
/// observed value that was within the bounds still is.
pub proof fn law_narrowed_bounds_are_those_observed(
    param: ParamView,
    range: ValueRange,
    middle: F32,
    values: Seq<F32>,
    i: int,
)
    requires
        param.bounds is Continuous,
        param.bounds.valid(),
        overlaps(param, Some(range)),
        spans(range, values),
        0 <= i < values.len(),
    ensures
        ({
            let after = narrowed(param, Some(range), middle).bounds;
            &&& after.least() == param.bounds.least() || values.contains(after.least())
            &&& after.greatest() == param.bounds.greatest() || values.contains(after.greatest())
            &&& param.bounds.holds(values[i]) ==> after.holds(values[i])
            &&& param.bounds.holds(range.least) ==> after.least().same(range.least)
            &&& param.bounds.holds(range.greatest) ==> after.greatest().same(range.greatest)
        }),
{
    assert(range.least.at_most(values[i]) && values[i].at_most(range.greatest));
}

} // verus!
