//! The space that a search runs through: parameters, their bounds and their
//! current centers.

use crate::float::{F32, F32_ONE, F32_ZERO};
use crate::fractions::{
    FIFTH, FIFTY, FIVE, FOUR_FIFTHS, HALF, HUNDRED, HUNDREDTH, SIX, TEN, TENTH, THREE_FIFTHS, THREE_TENTHS,
    TWENTIETH, TWO_FIFTHS,
};
use crate::tuner::bounds::{BoundsView, ParamBounds};
use crate::tuner::params::{law_names_are_distinct, TunableParam};
use crate::tuner::values::ParamMap;
use vstd::prelude::*;

verus! {

/// A parameter to tune.
#[derive(Debug)]
pub struct ParamDef {
    /// Which parameter.
    pub name: TunableParam,
    /// What values it can take.
    pub bounds: ParamBounds,
    /// The value around which candidates are placed.
    pub center: F32,
}

/// A parameter with its bounds as a mathematical value.
pub struct ParamView {
    /// Which parameter.
    pub name: TunableParam,
    /// What values it can take.
    pub bounds: BoundsView,
    /// The value around which candidates are placed.
    pub center: F32,
}

impl View for ParamDef {
    type V = ParamView;

    open spec fn view(&self) -> ParamView {
        ParamView { name: self.name, bounds: self.bounds@, center: self.center }
    }
}

/// A parameter with its center brought within its bounds.
pub open spec fn placed(name: TunableParam, bounds: BoundsView, center: F32) -> ParamView {
    ParamView { name, bounds, center: bounds.clamped(center) }
}

impl ParamDef {
    /// A parameter with its center brought within its bounds.
    pub fn new(name: TunableParam, bounds: ParamBounds, center: F32) -> (def: ParamDef)
        requires
            bounds@.valid(),
        ensures
            def@ == placed(name, bounds@, center),
    {
        let center = bounds.clamp(center);
        ParamDef { name, bounds, center }
    }

    /// A parameter by its name, with its center brought within its bounds.
    pub fn from_str(name: &str, bounds: ParamBounds, center: F32) -> (def: Result<ParamDef, String>)
        requires
            bounds@.valid(),
        ensures
            match def {
                Ok(d) => d.name.name() == name@ && d@ == placed(d.name, bounds@, center),
                Err(message) => {
                    &&& forall|param: TunableParam| #[trigger] param.name() != name@
                    &&& message@ == TunableParam::unknown_name(name@)
                },
            },
    {
        match TunableParam::parse(name) {
            Ok(param) => Ok(ParamDef::new(param, bounds, center)),
            Err(message) => Err(message),
        }
    }

    /// The name of the parameter.
    pub fn name_str(&self) -> (name: &'static str)
        ensures
            name@ == self@.name.name(),
    {
        self.name.to_string()
    }

    /// Moves the center, brought within the bounds.
    pub fn set_center(&mut self, center: F32)
        requires
            old(self)@.bounds.valid(),
        ensures
            final(self)@ == placed(old(self)@.name, old(self)@.bounds, center),
    {
        self.center = self.bounds.clamp(center);
    }
}

impl Clone for ParamDef {
    fn clone(&self) -> (copy: ParamDef)
        ensures
            copy@ == self@,
    {
        ParamDef { name: self.name, bounds: self.bounds.clone(), center: self.center }
    }
}

/// Ready-made spaces.
#[derive(Debug, Clone, Copy, PartialEq, Eq, Structural)]
pub enum SpacePreset {
    /// Depth and learning rate only.
    Minimal,
    /// What matters in regression.
    Regression,
    /// What matters in classification.
    Classification,
    /// Regression, column sampling and gradient-based sampling.
    Exhaustive,
    /// The mode of a universal model and what all modes share.
    Universal,
}

/// The parameters to tune.
#[derive(Debug)]
pub struct ParameterSpace {
    params: Vec<ParamDef>,
}

/// The views of some parameters.
pub open spec fn param_views(params: Seq<ParamDef>) -> Seq<ParamView> {
    params.map_values(|def: ParamDef| def@)
}

impl View for ParameterSpace {
    type V = Seq<ParamView>;

    closed spec fn view(&self) -> Seq<ParamView> {
        param_views(self.params@)
    }
}

/// Whether no parameter stands in a space twice.
pub open spec fn distinct_params(params: Seq<ParamView>) -> bool {
    forall|i: int, j: int| 0 <= i < j < params.len() ==> (#[trigger] params[i]).name != (#[trigger] params[j]).name
}

/// A space without a parameter.
pub open spec fn without(params: Seq<ParamView>, name: TunableParam) -> Seq<ParamView> {
    params.filter(|param: ParamView| param.name != name)
}

/// Whether a parameter is the first of its name in a space.
pub open spec fn first_named(params: Seq<ParamView>, name: TunableParam, i: int) -> bool {
    &&& 0 <= i < params.len()
    &&& params[i].name == name
    &&& forall|j: int| 0 <= j < i ==> (#[trigger] params[j]).name != name
}

/// The centers by name. Where a name stands twice, the last one counts.
pub open spec fn center_map(params: Seq<ParamView>) -> Map<Seq<char>, F32>
    decreases params.len(),
{
    if params.len() == 0 {
        Map::empty()
    } else {
        center_map(params.drop_last()).insert(params.last().name.name(), params.last().center)
    }
}

/// A parameter with its center moved where there is a new one for its name.
pub open spec fn recentered(param: ParamView, centers: Map<Seq<char>, F32>) -> ParamView {
    if centers.dom().contains(param.name.name()) {
        placed(param.name, param.bounds, centers[param.name.name()])
    } else {
        param
    }
}

/// Continuous bounds from bits.
pub open spec fn span(min: u32, max: u32) -> BoundsView {
    BoundsView::Continuous { min: F32 { bits: min }, max: F32 { bits: max }, log_scale: false }
}

/// Continuous bounds over orders of magnitude from bits.
pub open spec fn log_span(min: u32, max: u32) -> BoundsView {
    BoundsView::Continuous { min: F32 { bits: min }, max: F32 { bits: max }, log_scale: true }
}

/// The whole numbers of a range.
pub open spec fn whole(min: usize, max: usize) -> BoundsView {
    BoundsView::Discrete { min, max, step: 1 }
}

/// The modes of a universal model.
pub open spec fn modes() -> BoundsView {
    BoundsView::Categorical { values: seq!["PureTree"@, "LinearThenTree"@, "RandomForest"@] }
}

/// A parameter of a ready-made space.
pub open spec fn at(name: TunableParam, bounds: BoundsView, center: u32) -> ParamView {
    placed(name, bounds, F32 { bits: center })
}

/// The parameters of a ready-made space.
pub open spec fn preset_params(preset: SpacePreset) -> Seq<ParamView> {
    match preset {
        SpacePreset::Minimal => seq![
            at(TunableParam::MaxDepth, whole(3, 10), SIX),
            at(TunableParam::LearningRate, log_span(HUNDREDTH, THREE_TENTHS), TENTH),
        ],
        SpacePreset::Regression => seq![
            at(TunableParam::MaxDepth, whole(2, 12), SIX),
            at(TunableParam::LearningRate, log_span(HUNDREDTH, HALF), TENTH),
            at(TunableParam::Subsample, span(HALF, F32_ONE), FOUR_FIFTHS),
            at(TunableParam::Lambda, span(F32_ZERO, TEN), F32_ONE),
            at(TunableParam::EntropyWeight, span(F32_ZERO, HALF), F32_ZERO),
        ],
        SpacePreset::Classification => seq![
            at(TunableParam::MaxDepth, whole(2, 10), FIVE),
            at(TunableParam::LearningRate, log_span(HUNDREDTH, THREE_TENTHS), TENTH),
            at(TunableParam::Subsample, span(THREE_FIFTHS, F32_ONE), FOUR_FIFTHS),
            at(TunableParam::Lambda, span(F32_ZERO, FIVE), F32_ONE),
            at(TunableParam::EntropyWeight, span(F32_ZERO, THREE_TENTHS), F32_ZERO),
        ],
        SpacePreset::Exhaustive => seq![
            at(TunableParam::MaxDepth, whole(2, 12), SIX),
            at(TunableParam::LearningRate, log_span(HUNDREDTH, HALF), TENTH),
            at(TunableParam::Subsample, span(HALF, F32_ONE), FOUR_FIFTHS),
            at(TunableParam::Colsample, span(HALF, F32_ONE), F32_ONE),
            at(TunableParam::Lambda, span(F32_ZERO, TEN), F32_ONE),
            at(TunableParam::EntropyWeight, span(F32_ZERO, HALF), F32_ZERO),
            at(TunableParam::GossTopRate, span(TENTH, TWO_FIFTHS), FIFTH),
            at(TunableParam::GossOtherRate, span(TWENTIETH, FIFTH), TENTH),
        ],
        SpacePreset::Universal => seq![
            at(TunableParam::Mode, modes(), F32_ZERO),
            at(TunableParam::NumRounds, whole(50, 200), HUNDRED),
            at(TunableParam::LearningRate, log_span(HUNDREDTH, THREE_TENTHS), TENTH),
            at(TunableParam::Subsample, span(THREE_FIFTHS, F32_ONE), FOUR_FIFTHS),
            at(TunableParam::TreeMaxDepth, whole(3, 10), SIX),
            at(TunableParam::TreeLambda, span(F32_ZERO, TEN), F32_ONE),
        ],
    }
}

/// The parameters of a linear model followed by trees.
pub open spec fn linear_then_tree_params() -> Seq<ParamView> {
    seq![
        at(TunableParam::NumRounds, whole(30, 150), FIFTY),
        at(TunableParam::LearningRate, log_span(HUNDREDTH, THREE_TENTHS), TENTH),
        at(TunableParam::LinearRounds, whole(5, 30), TEN),
        at(TunableParam::LinearLambda, log_span(HUNDREDTH, TEN), F32_ONE),
        at(TunableParam::TreeMaxDepth, whole(3, 8), FIVE),
    ]
}

/// A parameter over a range of numbers.
fn over_span(name: TunableParam, min: u32, max: u32, center: u32) -> (def: ParamDef)
    requires
        span(min, max).valid(),
    ensures
        def@ == at(name, span(min, max), center),
{
    ParamDef::new(name, ParamBounds::continuous(F32 { bits: min }, F32 { bits: max }), F32 { bits: center })
}

/// A parameter over orders of magnitude.
fn over_log_span(name: TunableParam, min: u32, max: u32, center: u32) -> (def: ParamDef)
    requires
        log_span(min, max).valid(),
    ensures
        def@ == at(name, log_span(min, max), center),
{
    ParamDef::new(name, ParamBounds::log_continuous(F32 { bits: min }, F32 { bits: max }), F32 { bits: center })
}

/// A parameter over whole numbers.
fn over_whole(name: TunableParam, min: usize, max: usize, center: u32) -> (def: ParamDef)
    requires
        min <= max,
    ensures
        def@ == at(name, whole(min, max), center),
{
    ParamDef::new(name, ParamBounds::discrete(min, max), F32 { bits: center })
}

/// The mode of a universal model.
fn over_modes() -> (def: ParamDef)
    ensures
        def@ == at(TunableParam::Mode, modes(), F32_ZERO),
{
    let names: [&str; 3] = ["PureTree", "LinearThenTree", "RandomForest"];
    let bounds = ParamBounds::categorical_from_strs(names.as_slice());
    assert(bounds@->values =~= modes()->values);
    ParamDef::new(TunableParam::Mode, bounds, F32 { bits: F32_ZERO })
}

impl ParameterSpace {
    /// A space with nothing to tune.
    pub fn new() -> (space: ParameterSpace)
        ensures
            space@ == Seq::<ParamView>::empty(),
    {
        let space = ParameterSpace { params: Vec::new() };
        assert(space@ =~= Seq::<ParamView>::empty());
        space
    }

    /// A ready-made space.
    pub fn with_preset(preset: SpacePreset) -> (space: ParameterSpace)
        ensures
            space@ == preset_params(preset),
    {
        match preset {
            SpacePreset::Minimal => ParameterSpace::minimal_space(),
            SpacePreset::Regression => ParameterSpace::regression_space(),
            SpacePreset::Classification => ParameterSpace::classification_space(),
            SpacePreset::Exhaustive => ParameterSpace::exhaustive(),
            SpacePreset::Universal => ParameterSpace::universal_space(),
        }
    }

    /// The space of regression with column sampling and gradient-based sampling.
    pub fn exhaustive() -> (space: ParameterSpace)
        ensures
            space@ == preset_params(SpacePreset::Exhaustive),
    {
        let mut params: Vec<ParamDef> = Vec::new();
        params.push(over_whole(TunableParam::MaxDepth, 2, 12, SIX));
        params.push(over_log_span(TunableParam::LearningRate, HUNDREDTH, HALF, TENTH));
        params.push(over_span(TunableParam::Subsample, HALF, F32_ONE, FOUR_FIFTHS));
        params.push(over_span(TunableParam::Colsample, HALF, F32_ONE, F32_ONE));
        params.push(over_span(TunableParam::Lambda, F32_ZERO, TEN, F32_ONE));
        params.push(over_span(TunableParam::EntropyWeight, F32_ZERO, HALF, F32_ZERO));
        params.push(over_span(TunableParam::GossTopRate, TENTH, TWO_FIFTHS, FIFTH));
        params.push(over_span(TunableParam::GossOtherRate, TWENTIETH, FIFTH, TENTH));
        assert(param_views(params@) =~= preset_params(SpacePreset::Exhaustive));
        ParameterSpace { params }
    }

    /// The mode of a universal model only.
    pub fn universal_mode_only() -> (space: ParameterSpace)
        ensures
            space@ == seq![at(TunableParam::Mode, modes(), F32_ZERO)],
    {
        let mut params: Vec<ParamDef> = Vec::new();
        params.push(over_modes());
        assert(param_views(params@) =~= seq![at(TunableParam::Mode, modes(), F32_ZERO)]);
        ParameterSpace { params }
    }

    fn regression_space() -> (space: ParameterSpace)
        ensures
            space@ == preset_params(SpacePreset::Regression),
    {
        let mut params: Vec<ParamDef> = Vec::new();
        params.push(over_whole(TunableParam::MaxDepth, 2, 12, SIX));
        params.push(over_log_span(TunableParam::LearningRate, HUNDREDTH, HALF, TENTH));
        params.push(over_span(TunableParam::Subsample, HALF, F32_ONE, FOUR_FIFTHS));
        params.push(over_span(TunableParam::Lambda, F32_ZERO, TEN, F32_ONE));
        params.push(over_span(TunableParam::EntropyWeight, F32_ZERO, HALF, F32_ZERO));
        assert(param_views(params@) =~= preset_params(SpacePreset::Regression));
        ParameterSpace { params }
    }

    fn classification_space() -> (space: ParameterSpace)
        ensures
            space@ == preset_params(SpacePreset::Classification),
    {
        let mut params: Vec<ParamDef> = Vec::new();
        params.push(over_whole(TunableParam::MaxDepth, 2, 10, FIVE));
        params.push(over_log_span(TunableParam::LearningRate, HUNDREDTH, THREE_TENTHS, TENTH));
        params.push(over_span(TunableParam::Subsample, THREE_FIFTHS, F32_ONE, FOUR_FIFTHS));
        params.push(over_span(TunableParam::Lambda, F32_ZERO, FIVE, F32_ONE));
        params.push(over_span(TunableParam::EntropyWeight, F32_ZERO, THREE_TENTHS, F32_ZERO));
        assert(param_views(params@) =~= preset_params(SpacePreset::Classification));
        ParameterSpace { params }
    }

    fn minimal_space() -> (space: ParameterSpace)
        ensures
            space@ == preset_params(SpacePreset::Minimal),
    {
        let mut params: Vec<ParamDef> = Vec::new();
        params.push(over_whole(TunableParam::MaxDepth, 3, 10, SIX));
        params.push(over_log_span(TunableParam::LearningRate, HUNDREDTH, THREE_TENTHS, TENTH));
        assert(param_views(params@) =~= preset_params(SpacePreset::Minimal));
        ParameterSpace { params }
    }

    fn universal_space() -> (space: ParameterSpace)
        ensures
            space@ == preset_params(SpacePreset::Universal),
    {
        let mut params: Vec<ParamDef> = Vec::new();
        params.push(over_modes());
        params.push(over_whole(TunableParam::NumRounds, 50, 200, HUNDRED));
        params.push(over_log_span(TunableParam::LearningRate, HUNDREDTH, THREE_TENTHS, TENTH));
        params.push(over_span(TunableParam::Subsample, THREE_FIFTHS, F32_ONE, FOUR_FIFTHS));
        params.push(over_whole(TunableParam::TreeMaxDepth, 3, 10, SIX));
        params.push(over_span(TunableParam::TreeLambda, F32_ZERO, TEN, F32_ONE));
        assert(param_views(params@) =~= preset_params(SpacePreset::Universal));
        ParameterSpace { params }
    }

    /// The space of a linear model followed by trees.
    pub fn universal_linear_then_tree() -> (space: ParameterSpace)
        ensures
            space@ == linear_then_tree_params(),
    {
        let mut params: Vec<ParamDef> = Vec::new();
        params.push(over_whole(TunableParam::NumRounds, 30, 150, FIFTY));
        params.push(over_log_span(TunableParam::LearningRate, HUNDREDTH, THREE_TENTHS, TENTH));
        params.push(over_whole(TunableParam::LinearRounds, 5, 30, TEN));
        params.push(over_log_span(TunableParam::LinearLambda, HUNDREDTH, TEN, F32_ONE));
        params.push(over_whole(TunableParam::TreeMaxDepth, 3, 8, FIVE));
        assert(param_views(params@) =~= linear_then_tree_params());
        ParameterSpace { params }
    }
}

impl Default for ParameterSpace {
    fn default() -> (space: ParameterSpace)
        ensures
            space@ == preset_params(SpacePreset::Regression),
    {
        ParameterSpace::with_preset(SpacePreset::Regression)
    }
}

impl Clone for ParameterSpace {
    fn clone(&self) -> (copy: ParameterSpace)
        ensures
            copy@ == self@,
    {
        let count: usize = self.params.len();
        let mut params: Vec<ParamDef> = Vec::new();
        let mut i: usize = 0;
        while i < count
            invariant
                i <= count == self.params@.len(),
                params@.len() == i,
                forall|j: int| 0 <= j < i ==> (#[trigger] params@[j])@ == self.params@[j]@,
            decreases count - i,
        {
            params.push(self.params[i].clone());
            i = i + 1;
        }
        assert(param_views(params@) =~= self@);
        ParameterSpace { params }
    }
}

impl ParameterSpace {
    /// Drops the parameters of a name.
    fn drop_param(&mut self, name: TunableParam)
        ensures
            final(self)@ == without(old(self)@, name),
    {
        let ghost all = self@;
        let ghost keep = |param: ParamView| param.name != name;
        let mut i: usize = 0;
        let ghost mut seen: int = 0;
        assert(all.take(0).filter(keep) =~= Seq::<ParamView>::empty()) by {
            reveal(Seq::filter);
        }
        assert(all.skip(0) =~= all);
        while i < self.params.len()
            invariant
                all == old(self)@,
                keep == (|param: ParamView| param.name != name),
                i <= self.params@.len(),
                0 <= seen <= all.len(),
                self.params@.len() - i == all.len() - seen,
                param_views(self.params@).take(i as int) == all.take(seen).filter(keep),
                param_views(self.params@).skip(i as int) == all.skip(seen),
            decreases self.params@.len() - i,
        {
            let ghost before = param_views(self.params@);
            proof {
                assert(before[i as int] == before.skip(i as int)[0]);
                assert(all[seen] == all.skip(seen)[0]);
                assert(all.take(seen + 1).drop_last() =~= all.take(seen));
                assert(all.take(seen + 1).last() == all[seen]);
                reveal(Seq::filter);
            }
            if self.params[i].name == name {
                self.params.remove(i);
                proof {
                    let after = param_views(self.params@);
                    assert(after =~= before.remove(i as int));
                    assert(after.take(i as int) =~= before.take(i as int));
                    assert(after.skip(i as int) =~= before.skip(i as int).skip(1));
                    assert(all.skip(seen + 1) =~= all.skip(seen).skip(1));
                    seen = seen + 1;
                }
            } else {
                i = i + 1;
                proof {
                    assert(before.take(i as int) =~= before.take(i - 1).push(before[i - 1]));
                    assert(before.skip(i as int) =~= before.skip(i - 1).skip(1));
                    assert(all.skip(seen + 1) =~= all.skip(seen).skip(1));
                    seen = seen + 1;
                }
            }
        }
        assert(all.take(seen) =~= all);
        assert(param_views(self.params@).take(i as int) =~= self@);
    }

    /// The space with a parameter added as the last one, in place of any of the
    /// same name.
    pub fn with_param(self, name: TunableParam, bounds: ParamBounds, center: F32) -> (space: ParameterSpace)
        requires
            bounds@.valid(),
        ensures
            space@ == without(self@, name).push(placed(name, bounds@, center)),
    {
        let mut space = self;
        space.drop_param(name);
        let ghost kept = space@;
        let def = ParamDef::new(name, bounds, center);
        let ghost added = def@;
        space.params.push(def);
        assert(space@ =~= kept.push(added));
        space
    }

    /// The space without a parameter.
    pub fn without_param(self, name: TunableParam) -> (space: ParameterSpace)
        ensures
            space@ == without(self@, name),
    {
        let mut space = self;
        space.drop_param(name);
        space
    }

    /// Where a parameter stands.
    fn position(&self, name: TunableParam) -> (at: Option<usize>)
        ensures
            match at {
                Some(i) => first_named(self@, name, i as int),
                None => forall|j: int| 0 <= j < self@.len() ==> (#[trigger] self@[j]).name != name,
            },
            at matches Some(i) ==> i < self.params@.len(),
    {
        let count: usize = self.params.len();
        let mut i: usize = 0;
        while i < count
            invariant
                i <= count == self.params@.len(),
                forall|j: int| 0 <= j < i ==> (#[trigger] self@[j]).name != name,
            decreases count - i,
        {
            assert(self@[i as int] == self.params@[i as int]@);
            if self.params[i].name == name {
                return Some(i);
            }
            i = i + 1;
        }
        None
    }

    /// The first parameter of a name.
    pub fn get(&self, name: TunableParam) -> (found: Option<&ParamDef>)
        ensures
            match found {
                Some(def) => exists|i: int| #[trigger] first_named(self@, name, i) && def@ == self@[i],
                None => forall|j: int| 0 <= j < self@.len() ==> (#[trigger] self@[j]).name != name,
            },
    {
        match self.position(name) {
            Some(i) => {
                assert(first_named(self@, name, i as int) && self.params@[i as int]@ == self@[i as int]);
                Some(&self.params[i])
            },
            None => None,
        }
    }

    /// The first parameter of a name, to change it.
    pub fn get_mut(&mut self, name: TunableParam) -> (found: Option<&mut ParamDef>)
        ensures
            match found {
                Some(def) => exists|i: int| #[trigger]
                    first_named(old(self)@, name, i) && def@ == old(self)@[i] && final(self)@ == old(self)@.update(
                        i,
                        final(def)@,
                    ),
                None => {
                    &&& final(self)@ == old(self)@
                    &&& forall|j: int| 0 <= j < old(self)@.len() ==> (#[trigger] old(self)@[j]).name != name
                },
            },
    {
        match self.position(name) {
            Some(i) => {
                assert(first_named(self@, name, i as int) && self.params@[i as int]@ == self@[i as int]);
                Some(&mut self.params[i])
            },
            None => None,
        }
    }

    /// The parameters.
    pub fn params(&self) -> (params: &[ParamDef])
        ensures
            param_views(params@) == self@,
    {
        self.params.as_slice()
    }

    /// The parameters, to change them.
    pub fn params_mut(&mut self) -> (params: &mut [ParamDef])
        ensures
            param_views(params@) == old(self)@,
            final(self)@ == param_views(final(params)@),
    {
        self.params.as_mut_slice()
    }

    /// How many parameters there are.
    pub fn len(&self) -> (count: usize)
        ensures
            count == self@.len(),
    {
        self.params.len()
    }

    /// Whether there is nothing to tune.
    pub fn is_empty(&self) -> (empty: bool)
        ensures
            empty == (self@.len() == 0),
    {
        self.params.len() == 0
    }

    /// The names of the parameters.
    pub fn param_names(&self) -> (names: Vec<&'static str>)
        ensures
            names@.len() == self@.len(),
            forall|i: int| 0 <= i < self@.len() ==> (#[trigger] names@[i])@ == self@[i].name.name(),
    {
        let count: usize = self.params.len();
        let mut names: Vec<&'static str> = Vec::new();
        let mut i: usize = 0;
        while i < count
            invariant
                i <= count == self.params@.len(),
                names@.len() == i,
                forall|j: int| 0 <= j < i ==> (#[trigger] names@[j])@ == self@[j].name.name(),
            decreases count - i,
        {
            assert(self@[i as int] == self.params@[i as int]@);
            names.push(self.params[i].name.to_string());
            i = i + 1;
        }
        names
    }

    /// The centers by name.
    pub fn centers(&self) -> (centers: ParamMap<F32>)
        ensures
            centers.wf(),
            centers@ == center_map(self@),
    {
        let count: usize = self.params.len();
        let mut centers: ParamMap<F32> = ParamMap::new();
        let mut i: usize = 0;
        while i < count
            invariant
                i <= count == self.params@.len(),
                centers.wf(),
                centers@ == center_map(self@.take(i as int)),
            decreases count - i,
        {
            assert(self@[i as int] == self.params@[i as int]@);
            centers.insert(self.params[i].name.to_string().to_owned(), self.params[i].center);
            assert(self@.take(i + 1).drop_last() =~= self@.take(i as int));
            i = i + 1;
        }
        assert(self@.take(count as int) =~= self@);
        centers
    }

    /// Moves the centers that have a new value, brought within their bounds.
    pub fn set_centers(&mut self, centers: &ParamMap<F32>)
        requires
            forall|i: int|
                0 <= i < old(self)@.len() && centers@.dom().contains((#[trigger] old(self)@[i]).name.name())
                    ==> old(self)@[i].bounds.valid(),
        ensures
            final(self)@ == old(self)@.map_values(|param: ParamView| recentered(param, centers@)),
    {
        let count: usize = self.params.len();
        let mut i: usize = 0;
        while i < count
            invariant
                i <= count == self.params@.len() == old(self)@.len(),
                forall|j: int|
                    0 <= j < old(self)@.len() && centers@.dom().contains((#[trigger] old(self)@[j]).name.name())
                        ==> old(self)@[j].bounds.valid(),
                forall|j: int| 0 <= j < i ==> (#[trigger] self.params@[j])@ == recentered(old(self)@[j], centers@),
                forall|j: int| i <= j < count ==> (#[trigger] self.params@[j])@ == old(self)@[j],
            decreases count - i,
        {
            assert(self.params@[i as int]@ == old(self)@[i as int]);
            match centers.get(self.params[i].name.to_string()) {
                Some(center) => {
                    let def = &mut self.params[i];
                    def.set_center(*center);
                },
                None => {},
            }
            i = i + 1;
        }
        assert(self@ =~= old(self)@.map_values(|param: ParamView| recentered(param, centers@)));
    }
}

impl ParameterSpace {
    /// Moves every center, brought within its bounds.
    pub fn move_centers(&mut self, centers: &[F32])
        requires
            centers@.len() == old(self)@.len(),
            forall|i: int| 0 <= i < old(self)@.len() ==> (#[trigger] old(self)@[i]).bounds.valid(),
        ensures
            final(self)@ == Seq::new(
                old(self)@.len(),
                |i: int| placed(old(self)@[i].name, old(self)@[i].bounds, centers@[i]),
            ),
    {
        let ghost before = self@;
        let count: usize = self.params.len();
        let mut i: usize = 0;
        while i < count
            invariant
                i <= count == self.params@.len() == before.len(),
                centers@.len() == count,
                forall|j: int| 0 <= j < before.len() ==> (#[trigger] before[j]).bounds.valid(),
                forall|j: int|
                    0 <= j < i ==> (#[trigger] self.params@[j])@ == placed(before[j].name, before[j].bounds, centers@[j]),
                forall|j: int| i <= j < count ==> (#[trigger] self.params@[j])@ == before[j],
            decreases count - i,
        {
            assert(self.params@[i as int]@ == before[i as int]);
            let def = &mut self.params[i];
            def.set_center(centers[i]);
            i = i + 1;
        }
        assert(self@ =~= Seq::new(before.len(), |i: int| placed(before[i].name, before[i].bounds, centers@[i])));
    }
}

/// What a space holds without a parameter: the others, in their order.
proof fn lemma_without(params: Seq<ParamView>, name: TunableParam)
    ensures
        forall|i: int| 0 <= i < without(params, name).len() ==> (#[trigger] without(params, name)[i]).name != name,
        distinct_params(params) ==> distinct_params(without(params, name)),
        forall|param: ParamView| #[trigger] without(params, name).contains(param) ==> params.contains(param),
        forall|param: ParamView| params.contains(param) && param.name != name ==> #[trigger] without(params, name).contains(param),
    decreases params.len(),
{
    reveal(Seq::filter);
    let keep = |param: ParamView| param.name != name;
    if params.len() > 0 {
        let rest = params.drop_last();
        let last = params.last();
        lemma_without(rest, name);
        let kept = without(params, name);
        assert(kept == if last.name != name {
            without(rest, name).push(last)
        } else {
            without(rest, name)
        });
        assert forall|param: ParamView| #[trigger] kept.contains(param) implies params.contains(param) by {
            if without(rest, name).contains(param) {
                let i = choose|i: int| 0 <= i < rest.len() && rest[i] == param;
                assert(params[i] == param);
            } else {
                assert(param == last);
                assert(params[params.len() - 1] == last);
            }
        }
        assert forall|param: ParamView| params.contains(param) && param.name != name implies #[trigger] kept.contains(param) by {
            let i = choose|i: int| 0 <= i < params.len() && params[i] == param;
            if i < rest.len() {
                assert(rest[i] == param);
                assert(without(rest, name).contains(param));
                let j = choose|j: int| 0 <= j < without(rest, name).len() && without(rest, name)[j] == param;
                assert(kept[j] == param);
            } else {
                assert(kept[kept.len() - 1] == param);
            }
        }
        if distinct_params(params) {
            assert forall|i: int, j: int| 0 <= i < j < rest.len() implies (#[trigger] rest[i]).name != (#[trigger] rest[j]).name by {
                assert(params[i].name != params[j].name);
            }
            assert forall|i: int, j: int| 0 <= i < j < kept.len() implies (#[trigger] kept[i]).name != (#[trigger] kept[j]).name by {
                if j == without(rest, name).len() {
                    assert(without(rest, name).contains(kept[i]));
                    let k = choose|k: int| 0 <= k < rest.len() && rest[k] == kept[i];
                    assert(params[k].name != params[params.len() - 1].name);
                } else {
                    assert(without(rest, name)[i].name != without(rest, name)[j].name);
                }
            }
        }
    }
}

/// A parameter that was added is in the space, last and once, with its new
/// bounds and center. The other parameters stay.
pub proof fn law_added_param_replaces_the_old(params: Seq<ParamView>, name: TunableParam, bounds: BoundsView, center: F32, other: ParamView)
    ensures
        ({
            let after = without(params, name).push(placed(name, bounds, center));
            &&& first_named(after, name, after.len() - 1)
            &&& after.last() == placed(name, bounds, center)
            &&& distinct_params(params) ==> distinct_params(after)
            &&& other.name != name ==> (after.contains(other) <==> params.contains(other))
        }),
{
    let kept = without(params, name);
    let added = placed(name, bounds, center);
    let after = kept.push(added);
    lemma_without(params, name);
    assert forall|j: int| 0 <= j < after.len() - 1 implies (#[trigger] after[j]).name != name by {
        assert(kept[j].name != name);
    }
    if distinct_params(params) {
        assert forall|i: int, j: int| 0 <= i < j < after.len() implies (#[trigger] after[i]).name != (#[trigger] after[j]).name by {
            assert(kept[i].name != name);
            if j < kept.len() {
                assert(kept[i].name != kept[j].name);
            }
        }
    }
    if other.name != name {
        if after.contains(other) {
            let i = choose|i: int| 0 <= i < after.len() && after[i] == other;
            assert(kept[i] == other);
            assert(kept.contains(other));
        }
        if params.contains(other) {
            assert(kept.contains(other));
            let i = choose|i: int| 0 <= i < kept.len() && kept[i] == other;
            assert(after[i] == other);
        }
    }
}

/// A parameter that was removed is not in the space. The other parameters stay.
pub proof fn law_removed_param_is_gone(params: Seq<ParamView>, name: TunableParam, other: ParamView)
    ensures
        forall|i: int| 0 <= i < without(params, name).len() ==> (#[trigger] without(params, name)[i]).name != name,
        distinct_params(params) ==> distinct_params(without(params, name)),
        other.name != name ==> (without(params, name).contains(other) <==> params.contains(other)),
{
    lemma_without(params, name);
    if other.name != name {
        if without(params, name).contains(other) {
            assert(params.contains(other));
        }
        if params.contains(other) {
            assert(without(params, name).contains(other));
        }
    }
}

/// No ready-made space holds a parameter twice.
pub proof fn law_presets_hold_each_param_once(preset: SpacePreset)
    ensures
        distinct_params(preset_params(preset)),
        distinct_params(linear_then_tree_params()),
{
}

/// Where no parameter stands twice, its center is found under its name.
pub proof fn law_centers_are_found_by_name(params: Seq<ParamView>, i: int)
    requires
        distinct_params(params),
        0 <= i < params.len(),
    ensures
        center_map(params).dom().contains(params[i].name.name()),
        center_map(params)[params[i].name.name()] == params[i].center,
    decreases params.len(),
{
    let rest = params.drop_last();
    if i < rest.len() {
        assert forall|a: int, b: int| 0 <= a < b < rest.len() implies (#[trigger] rest[a]).name != (#[trigger] rest[b]).name by {
            assert(params[a].name != params[b].name);
        }
        law_centers_are_found_by_name(rest, i);
        assert(params[i].name != params[params.len() - 1].name);
        if params[i].name.name() == params.last().name.name() {
            law_names_are_distinct(params[i].name, params.last().name);
        }
    }
}

/// Moving the centers to where they are changes nothing, if they are within
/// their bounds.
pub proof fn law_own_centers_change_nothing(params: Seq<ParamView>, i: int)
    requires
        distinct_params(params),
        0 <= i < params.len(),
        params[i].bounds.clamped(params[i].center) == params[i].center,
    ensures
        recentered(params[i], center_map(params)) == params[i],
{
    law_centers_are_found_by_name(params, i);
}

/// New centers go to the parameters of their names, held to the bounds; a
/// parameter without one keeps its center, and no name or bounds change.
pub proof fn law_centers_go_to_their_names(param: ParamView, centers: Map<Seq<char>, F32>)
    ensures
        recentered(param, centers).name == param.name,
        recentered(param, centers).bounds == param.bounds,
        centers.dom().contains(param.name.name()) ==> recentered(param, centers).center == param.bounds.clamped(
            centers[param.name.name()],
        ),
        !centers.dom().contains(param.name.name()) ==> recentered(param, centers).center == param.center,
{
}

/// A parameter that is placed starts where it is told, held to its bounds.
pub proof fn law_placed_within_bounds(name: TunableParam, bounds: BoundsView, center: F32)
    requires
        bounds.valid(),
    ensures
        placed(name, bounds, center).name == name,
        placed(name, bounds, center).bounds == bounds,
        bounds is Continuous && bounds.holds(center) ==> placed(name, bounds, center).center == center,
        bounds is Continuous && center.less(bounds.least()) ==> placed(name, bounds, center).center == bounds.least(),
        bounds is Continuous && bounds.greatest().less(center) ==> placed(name, bounds, center).center
            == bounds.greatest(),
{
}

} // verus!
