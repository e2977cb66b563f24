//! What values a parameter can take.

use crate::float::{F32, F32_ZERO};
use crate::float_int::{law_numbers_keep_their_order, law_small_indices_are_exact, nearest_bits};
use crate::text::same_text;
use vstd::prelude::*;

verus! {

/// The bounds of a parameter.
#[derive(Debug)]
#[allow(inconsistent_fields)]
pub enum ParamBounds {
    /// Any number between two others.
    Continuous {
        /// Smallest value.
        min: F32,
        /// Largest value.
        max: F32,
        /// Whether values are spread evenly over orders of magnitude.
        log_scale: bool,
    },
    /// Whole numbers at equal distances.
    Discrete {
        /// Smallest value.
        min: usize,
        /// Largest value.
        max: usize,
        /// Distance between neighbours.
        step: usize,
    },
    /// One of some names; a value is an index into them.
    Categorical {
        /// The names.
        values: Vec<String>,
    },
}

/// Bounds with their names as sequences.
#[allow(inconsistent_fields)]
pub enum BoundsView {
    /// Any number between two others.
    Continuous { min: F32, max: F32, log_scale: bool },
    /// Whole numbers at equal distances.
    Discrete { min: usize, max: usize, step: usize },
    /// One of some names.
    Categorical { values: Seq<Seq<char>> },
}

/// The number nearest to an index.
pub open spec fn number(n: nat) -> F32 {
    F32 { bits: nearest_bits(n) as u32 }
}

/// `x`, or the nearer end of a range that it lies outside of.
pub open spec fn clip(x: int, low: int, high: int) -> int {
    if x < low {
        low
    } else if x > high {
        high
    } else {
        x
    }
}

impl BoundsView {
    /// Whether there is anything within the bounds.
    pub open spec fn valid(self) -> bool {
        match self {
            BoundsView::Continuous { min, max, .. } => min.at_most(max),
            BoundsView::Discrete { min, max, step } => min <= max && step > 0,
            BoundsView::Categorical { .. } => true,
        }
    }

    /// A value brought within the bounds: continuous values to the nearer end,
    /// discrete ones also down to the step below, categorical ones to the last
    /// index.
    pub open spec fn clamped(self, value: F32) -> F32 {
        match self {
            BoundsView::Continuous { min, max, .. } => if value.less(min) {
                min
            } else if max.less(value) {
                max
            } else {
                value
            },
            BoundsView::Discrete { min, max, step } => {
                let within = clip(value.index() as int, min as int, max as int);
                number((min + ((within - min) / (step as int)) * step) as nat)
            },
            BoundsView::Categorical { values } => number(
                clip(value.index() as int, 0, last_index(values.len()) as int) as nat,
            ),
        }
    }

    /// Whether a value lies between the smallest and the largest one; none does
    /// where there are no names.
    pub open spec fn holds(self, value: F32) -> bool {
        match self {
            BoundsView::Continuous { min, max, .. } => min.at_most(value) && value.at_most(max),
            BoundsView::Discrete { min, max, .. } => number(min as nat).at_most(value) && value.at_most(
                number(max as nat),
            ),
            BoundsView::Categorical { values } => {
                &&& values.len() > 0
                &&& number(0).at_most(value)
                &&& value.at_most(number(last_index(values.len())))
            },
        }
    }

    /// The smallest value.
    pub open spec fn least(self) -> F32 {
        match self {
            BoundsView::Continuous { min, .. } => min,
            BoundsView::Discrete { min, .. } => number(min as nat),
            BoundsView::Categorical { .. } => F32 { bits: F32_ZERO },
        }
    }

    /// The largest value.
    pub open spec fn greatest(self) -> F32 {
        match self {
            BoundsView::Continuous { max, .. } => max,
            BoundsView::Discrete { max, .. } => number(max as nat),
            BoundsView::Categorical { values } => number(last_index(values.len())),
        }
    }
}

/// The last index of a list; 0 for an empty one.
pub open spec fn last_index(len: nat) -> nat {
    if len == 0 {
        0
    } else {
        (len - 1) as nat
    }
}

/// The views of some texts.
pub open spec fn texts(values: Seq<String>) -> Seq<Seq<char>> {
    values.map_values(|value: String| value@)
}

impl View for ParamBounds {
    type V = BoundsView;

    open spec fn view(&self) -> BoundsView {
        match self {
            ParamBounds::Continuous { min, max, log_scale } => BoundsView::Continuous {
                min: *min,
                max: *max,
                log_scale: *log_scale,
            },
            ParamBounds::Discrete { min, max, step } => BoundsView::Discrete { min: *min, max: *max, step: *step },
            ParamBounds::Categorical { values } => BoundsView::Categorical { values: texts(values@) },
        }
    }
}

impl ParamBounds {
    /// Any number between `min` and `max`.
    pub fn continuous(min: F32, max: F32) -> (bounds: ParamBounds)
        ensures
            bounds@ == (BoundsView::Continuous { min, max, log_scale: false }),
    {
        ParamBounds::Continuous { min, max, log_scale: false }
    }

    /// Any number between `min` and `max`, spread over orders of magnitude.
    pub fn log_continuous(min: F32, max: F32) -> (bounds: ParamBounds)
        ensures
            bounds@ == (BoundsView::Continuous { min, max, log_scale: true }),
    {
        ParamBounds::Continuous { min, max, log_scale: true }
    }

    /// The whole numbers from `min` to `max`.
    pub fn discrete(min: usize, max: usize) -> (bounds: ParamBounds)
        ensures
            bounds@ == (BoundsView::Discrete { min, max, step: 1 }),
    {
        ParamBounds::Discrete { min, max, step: 1 }
    }

    /// The whole numbers from `min` to `max` at a distance of `step`.
    pub fn discrete_step(min: usize, max: usize, step: usize) -> (bounds: ParamBounds)
        ensures
            bounds@ == (BoundsView::Discrete { min, max, step }),
    {
        ParamBounds::Discrete { min, max, step }
    }

    /// One of some names.
    pub fn categorical(values: Vec<String>) -> (bounds: ParamBounds)
        ensures
            bounds@ == (BoundsView::Categorical { values: texts(values@) }),
    {
        ParamBounds::Categorical { values }
    }

    /// One of some names.
    pub fn categorical_from_strs(values: &[&str]) -> (bounds: ParamBounds)
        ensures
            bounds@ == (BoundsView::Categorical { values: values@.map_values(|value: &str| value@) }),
    {
        let count: usize = values.len();
        let mut names: Vec<String> = Vec::new();
        let mut i: usize = 0;
        while i < count
            invariant
                i <= count == values@.len(),
                names@.len() == i,
                forall|j: int| 0 <= j < i ==> (#[trigger] names@[j])@ == values@[j]@,
            decreases count - i,
        {
            names.push(values[i].to_owned());
            i = i + 1;
        }
        assert(texts(names@) =~= values@.map_values(|value: &str| value@));
        ParamBounds::Categorical { values: names }
    }

    /// Brings a value within the bounds.
    pub fn clamp(&self, value: F32) -> (clamped: F32)
        requires
            self@.valid(),
        ensures
            clamped == self@.clamped(value),
            !(self@ is Continuous) ==> !clamped.nan(),
    {
        match self {
            ParamBounds::Continuous { min, max, .. } => {
                if value.lt(*min) {
                    *min
                } else if max.lt(value) {
                    *max
                } else {
                    value
                }
            },
            ParamBounds::Discrete { min, max, step } => {
                let index: usize = value.to_index();
                let within: usize = if index < *min {
                    *min
                } else if index > *max {
                    *max
                } else {
                    index
                };
                let steps: usize = (within - *min) / *step;
                proof {
                    vstd::arithmetic::div_mod::lemma_fundamental_div_mod(within - *min, *step as int);
                    assert(steps * *step == *step * steps) by (nonlinear_arith);
                    assert(steps * *step >= 0) by (nonlinear_arith);
                }
                F32::from_index(*min + steps * *step)
            },
            ParamBounds::Categorical { values } => {
                let count: usize = values.len();
                let top: usize = if count == 0 {
                    0
                } else {
                    count - 1
                };
                let index: usize = value.to_index();
                if index > top {
                    F32::from_index(top)
                } else {
                    F32::from_index(index)
                }
            },
        }
    }

    /// Whether a value lies between the smallest and the largest one; none does
    /// where there are no names.
    pub fn contains(&self, value: F32) -> (within: bool)
        ensures
            within == self@.holds(value),
    {
        match self {
            ParamBounds::Continuous { min, max, .. } => min.le(value) && value.le(*max),
            ParamBounds::Discrete { min, max, .. } => F32::from_index(*min).le(value) && value.le(
                F32::from_index(*max),
            ),
            ParamBounds::Categorical { values } => {
                let count: usize = values.len();
                count > 0 && F32::from_index(0).le(value) && value.le(F32::from_index(count - 1))
            },
        }
    }

    /// The smallest value.
    pub fn min_value(&self) -> (least: F32)
        ensures
            least == self@.least(),
    {
        match self {
            ParamBounds::Continuous { min, .. } => *min,
            ParamBounds::Discrete { min, .. } => F32::from_index(*min),
            ParamBounds::Categorical { .. } => F32 { bits: F32_ZERO },
        }
    }

    /// The largest value.
    pub fn max_value(&self) -> (greatest: F32)
        ensures
            greatest == self@.greatest(),
    {
        match self {
            ParamBounds::Continuous { max, .. } => *max,
            ParamBounds::Discrete { max, .. } => F32::from_index(*max),
            ParamBounds::Categorical { values } => {
                let count: usize = values.len();
                if count == 0 {
                    F32::from_index(0)
                } else {
                    F32::from_index(count - 1)
                }
            },
        }
    }

    /// Whether values are spread over orders of magnitude.
    pub fn is_log_scale(&self) -> (log_scale: bool)
        ensures
            log_scale == (self@ matches BoundsView::Continuous { log_scale: true, .. }),
    {
        match self {
            ParamBounds::Continuous { log_scale, .. } => *log_scale,
            _ => false,
        }
    }

    /// Whether values are indices into names.
    pub fn is_categorical(&self) -> (categorical: bool)
        ensures
            categorical == (self@ is Categorical),
    {
        match self {
            ParamBounds::Categorical { .. } => true,
            _ => false,
        }
    }

    /// The names, if values are indices into some.
    pub fn categorical_values(&self) -> (values: Option<&[String]>)
        ensures
            match values {
                Some(names) => self@ == (BoundsView::Categorical { values: texts(names@) }),
                None => !(self@ is Categorical),
            },
    {
        match self {
            ParamBounds::Categorical { values } => Some(values.as_slice()),
            _ => None,
        }
    }

    /// The name at an index.
    pub fn get_categorical_value(&self, index: usize) -> (value: Option<&str>)
        ensures
            match value {
                Some(name) => self@ is Categorical && index < self@->values.len() && name@ == self@->values[index as int],
                None => !(self@ is Categorical && index < self@->values.len()),
            },
    {
        match self {
            ParamBounds::Categorical { values } => {
                if index < values.len() {
                    Some(values[index].as_str())
                } else {
                    None
                }
            },
            _ => None,
        }
    }

    /// The first index of a name.
    pub fn categorical_index(&self, value: &str) -> (index: Option<usize>)
        ensures
            match index {
                Some(i) => {
                    &&& self@ is Categorical
                    &&& i < self@->values.len()
                    &&& self@->values[i as int] == value@
                    &&& forall|j: int| 0 <= j < i ==> #[trigger] self@->values[j] != value@
                },
                None => self@ is Categorical ==> !self@->values.contains(value@),
            },
    {
        match self {
            ParamBounds::Categorical { values } => {
                let count: usize = values.len();
                let mut i: usize = 0;
                while i < count
                    invariant
                        i <= count == values@.len(),
                        self@ == (BoundsView::Categorical { values: texts(values@) }),
                        forall|j: int| 0 <= j < i ==> #[trigger] self@->values[j] != value@,
                    decreases count - i,
                {
                    if same_text(values[i].as_str(), value) {
                        return Some(i);
                    }
                    i = i + 1;
                }
                None
            },
            _ => None,
        }
    }
}

/// A copy of some texts.
pub fn copy_texts(values: &Vec<String>) -> (copy: Vec<String>)
    ensures
        copy@ == values@,
        texts(copy@) == texts(values@),
{
    let count: usize = values.len();
    let mut copy: Vec<String> = Vec::new();
    let mut i: usize = 0;
    while i < count
        invariant
            i <= count == values@.len(),
            copy@ == values@.take(i as int),
        decreases count - i,
    {
        copy.push(values[i].clone());
        i = i + 1;
        assert(copy@ =~= values@.take(i as int));
    }
    assert(values@.take(count as int) =~= values@);
    copy
}

impl Clone for ParamBounds {
    fn clone(&self) -> (copy: ParamBounds)
        ensures
            copy@ == self@,
    {
        match self {
            ParamBounds::Continuous { min, max, log_scale } => ParamBounds::Continuous {
                min: *min,
                max: *max,
                log_scale: *log_scale,
            },
            ParamBounds::Discrete { min, max, step } => ParamBounds::Discrete { min: *min, max: *max, step: *step },
            ParamBounds::Categorical { values } => ParamBounds::Categorical { values: copy_texts(values) },
        }
    }
}

/// Bounds whose whole numbers are exact as floating-point numbers.
pub open spec fn exact(bounds: BoundsView) -> bool {
    match bounds {
        BoundsView::Continuous { .. } => true,
        BoundsView::Discrete { max, .. } => max <= 0x100_0000,
        BoundsView::Categorical { values } => values.len() <= 0x100_0000,
    }
}

/// The whole number that a clamped value of discrete bounds stands for.
proof fn lemma_step_below(value: int, min: int, max: int, step: int)
    requires
        min <= value <= max,
        step > 0,
    ensures
        min <= min + ((value - min) / step) * step <= value,
        (((value - min) / step) * step) / step == (value - min) / step,
{
    let steps = (value - min) / step;
    vstd::arithmetic::div_mod::lemma_fundamental_div_mod(value - min, step);
    vstd::arithmetic::div_mod::lemma_div_pos_is_pos(value - min, step);
    assert(step * steps == steps * step) by (nonlinear_arith);
    assert(steps * step >= 0) by (nonlinear_arith)
        requires
            steps >= 0,
            step > 0,
    ;
    assert((value - min) % step >= 0);
    vstd::arithmetic::div_mod::lemma_div_by_multiple(steps, step);
}

/// A clamped value is within the bounds, unless it is no number or there is
/// nothing to choose from.
pub proof fn law_clamped_is_within(bounds: BoundsView, value: F32)
    requires
        bounds.valid(),
        bounds is Continuous ==> !value.nan(),
        bounds matches BoundsView::Categorical { values } ==> 0 < values.len() <= usize::MAX,
    ensures
        bounds.holds(bounds.clamped(value)),
{
    match bounds {
        BoundsView::Continuous { .. } => {},
        BoundsView::Discrete { min, max, step } => {
            let within = clip(value.index() as int, min as int, max as int);
            lemma_step_below(within, min as int, max as int, step as int);
            let chosen = (min + ((within - min) / (step as int)) * step) as usize;
            law_numbers_keep_their_order(min, chosen);
            law_numbers_keep_their_order(chosen, max);
        },
        BoundsView::Categorical { values } => {
            let last = last_index(values.len()) as int;
            let chosen = clip(value.index() as int, 0, last) as usize;
            law_numbers_keep_their_order(0, chosen);
            law_numbers_keep_their_order(chosen, last as usize);
        },
    }
}

/// Clamping a clamped value changes nothing.
pub proof fn law_clamping_twice_is_clamping_once(bounds: BoundsView, value: F32)
    requires
        bounds.valid(),
        exact(bounds),
    ensures
        bounds.clamped(bounds.clamped(value)) == bounds.clamped(value),
{
    match bounds {
        BoundsView::Continuous { .. } => {},
        BoundsView::Discrete { min, max, step } => {
            let within = clip(value.index() as int, min as int, max as int);
            lemma_step_below(within, min as int, max as int, step as int);
            let chosen = min + ((within - min) / (step as int)) * step;
            law_small_indices_are_exact(chosen as usize);
            assert(clip(chosen, min as int, max as int) == chosen);
            assert((chosen - min) / (step as int) == (within - min) / (step as int));
        },
        BoundsView::Categorical { values } => {
            let last = last_index(values.len()) as int;
            law_small_indices_are_exact(clip(value.index() as int, 0, last) as usize);
        },
    }
}

/// Clamping leaves a value of continuous bounds as it is where it is within
/// them.
pub proof fn law_clamp_keeps_what_is_within(bounds: BoundsView, value: F32)
    requires
        bounds.valid(),
        bounds is Continuous,
        bounds.holds(value),
    ensures
        bounds.clamped(value) == value,
{
}

} // verus!
