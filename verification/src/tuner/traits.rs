//! What a model has to offer to be tuned, and the values that it is handed.

use crate::dataset::BinnedDataset;
use crate::float::{F32, F32_ZERO};
use crate::tuner::bounds::BoundsView;
use crate::tuner::config::{rule_error, ConfigError};
use crate::tuner::params::{law_names_are_distinct, TunableParam};
use crate::tuner::space::{first_named, ParamView, ParameterSpace};
use crate::tuner::values::ParamMap;
use vstd::prelude::*;

verus! {

/// The value of a parameter.
#[derive(Debug)]
pub enum ParamValue {
    /// A number.
    Numeric(F32),
    /// A name.
    Categorical(String),
}

/// The value of a parameter with its name as a sequence.
pub enum ParamValueView {
    /// A number.
    Numeric(F32),
    /// A name.
    Categorical(Seq<char>),
}

impl View for ParamValue {
    type V = ParamValueView;

    open spec fn view(&self) -> ParamValueView {
        match self {
            ParamValue::Numeric(v) => ParamValueView::Numeric(*v),
            ParamValue::Categorical(s) => ParamValueView::Categorical(s@),
        }
    }
}

impl ParamValue {
    /// The number; 0 for a name.
    pub fn as_numeric(&self) -> (value: F32)
        ensures
            value == match self@ {
                ParamValueView::Numeric(v) => v,
                ParamValueView::Categorical(_) => F32 { bits: F32_ZERO },
            },
    {
        match self {
            ParamValue::Numeric(v) => *v,
            ParamValue::Categorical(_) => F32 { bits: F32_ZERO },
        }
    }

    /// The name, if it is one.
    pub fn as_categorical(&self) -> (name: Option<&str>)
        ensures
            match name {
                Some(s) => self@ == ParamValueView::Categorical(s@),
                None => self@ is Numeric,
            },
    {
        match self {
            ParamValue::Categorical(s) => Some(s.as_str()),
            ParamValue::Numeric(_) => None,
        }
    }

    /// Whether it is a number.
    pub fn is_numeric(&self) -> (numeric: bool)
        ensures
            numeric == (self@ is Numeric),
    {
        match self {
            ParamValue::Numeric(_) => true,
            ParamValue::Categorical(_) => false,
        }
    }

    /// Whether it is a name.
    pub fn is_categorical(&self) -> (categorical: bool)
        ensures
            categorical == (self@ is Categorical),
    {
        match self {
            ParamValue::Numeric(_) => false,
            ParamValue::Categorical(_) => true,
        }
    }
}

impl From<F32> for ParamValue {
    fn from(v: F32) -> (value: ParamValue) {
        ParamValue::Numeric(v)
    }
}

impl vstd::std_specs::convert::FromSpecImpl<F32> for ParamValue {
    open spec fn obeys_from_spec() -> bool {
        true
    }

    open spec fn from_spec(v: F32) -> ParamValue {
        ParamValue::Numeric(v)
    }
}

impl From<String> for ParamValue {
    fn from(s: String) -> (value: ParamValue) {
        ParamValue::Categorical(s)
    }
}

impl vstd::std_specs::convert::FromSpecImpl<String> for ParamValue {
    open spec fn obeys_from_spec() -> bool {
        true
    }

    open spec fn from_spec(s: String) -> ParamValue {
        ParamValue::Categorical(s)
    }
}

impl<'a> From<&'a str> for ParamValue {
    fn from(s: &'a str) -> (value: ParamValue)
        ensures
            value@ == ParamValueView::Categorical(s@),
    {
        ParamValue::named(s)
    }
}

impl<'a> vstd::std_specs::convert::FromSpecImpl<&'a str> for ParamValue {
    open spec fn obeys_from_spec() -> bool {
        false
    }

    open spec fn from_spec(s: &'a str) -> ParamValue {
        arbitrary()
    }
}

impl ParamValue {
    /// A name.
    pub fn named(name: &str) -> (value: ParamValue)
        ensures
            value@ == ParamValueView::Categorical(name@),
    {
        ParamValue::Categorical(name.to_owned())
    }
}

/// The first parameter of a space with a name.
pub open spec fn param_named(params: Seq<ParamView>, name: Seq<char>) -> Option<ParamView>
    decreases params.len(),
{
    if params.len() == 0 {
        None
    } else if params[0].name.name() == name {
        Some(params[0])
    } else {
        param_named(params.skip(1), name)
    }
}

/// What a number stands for: a name where its parameter has names and it is an
/// index into them, itself otherwise.
pub open spec fn meaning(params: Seq<ParamView>, name: Seq<char>, value: F32) -> ParamValueView {
    match param_named(params, name) {
        Some(param) => match param.bounds {
            BoundsView::Categorical { values } => if value.index() < values.len() {
                ParamValueView::Categorical(values[value.index() as int])
            } else {
                ParamValueView::Numeric(value)
            },
            _ => ParamValueView::Numeric(value),
        },
        None => ParamValueView::Numeric(value),
    }
}

proof fn lemma_param_named(params: Seq<ParamView>, param: TunableParam, i: int)
    requires
        first_named(params, param, i),
    ensures
        param_named(params, param.name()) == Some(params[i]),
    decreases params.len(),
{
    if i > 0 {
        assert(params[0].name != param);
        if params[0].name.name() == param.name() {
            law_names_are_distinct(params[0].name, param);
        }
        let rest = params.skip(1);
        assert forall|j: int| 0 <= j < i - 1 implies (#[trigger] rest[j]).name != param by {
            assert(params[j + 1].name != param);
        }
        assert(first_named(rest, param, i - 1));
        lemma_param_named(rest, param, i - 1);
    }
}

proof fn lemma_param_not_named(params: Seq<ParamView>, name: Seq<char>)
    requires
        forall|j: int| 0 <= j < params.len() ==> (#[trigger] params[j]).name.name() != name,
    ensures
        param_named(params, name) is None,
    decreases params.len(),
{
    if params.len() > 0 {
        assert(params[0].name.name() != name);
        let rest = params.skip(1);
        assert forall|j: int| 0 <= j < rest.len() implies (#[trigger] rest[j]).name.name() != name by {
            assert(rest[j] == params[j + 1]);
        }
        lemma_param_not_named(rest, name);
    }
}

/// What a number stands for.
fn meaning_of(space: &ParameterSpace, name: &str, value: F32) -> (found: ParamValue)
    ensures
        found@ == meaning(space@, name@, value),
{
    match TunableParam::parse(name) {
        Ok(param) => {
            match space.get(param) {
                Some(def) => {
                    proof {
                        let i = choose|i: int| #[trigger] first_named(space@, param, i) && def@ == space@[i];
                        lemma_param_named(space@, param, i);
                    }
                    match def.bounds.get_categorical_value(value.to_index()) {
                        Some(text) => {
                            return ParamValue::named(text);
                        },
                        None => {},
                    }
                },
                None => {
                    proof {
                        assert forall|j: int| 0 <= j < space@.len() implies (#[trigger] space@[j]).name.name() != name@ by {
                            if space@[j].name.name() == param.name() {
                                law_names_are_distinct(space@[j].name, param);
                            }
                        }
                        lemma_param_not_named(space@, name@);
                    }
                },
            }
        },
        Err(_) => {
            proof {
                lemma_param_not_named(space@, name@);
            }
        },
    }
    ParamValue::Numeric(value)
}

/// Turns numbers by name into values by name.
pub trait ParamMapExt: Sized {
    /// The numbers by name.
    spec fn numbers(&self) -> Map<Seq<char>, F32>;

    /// Whether no name stands twice.
    spec fn sound(&self) -> bool;

    /// Every number as a number.
    fn to_param_values(&self) -> (values: ParamMap<ParamValue>)
        requires
            self.sound(),
        ensures
            values.wf(),
            values@.dom() == self.numbers().dom(),
            forall|name: Seq<char>| #[trigger]
                values@.dom().contains(name) ==> values@[name]@ == ParamValueView::Numeric(self.numbers()[name]),
    ;

    /// Every number as what it stands for in a space.
    fn to_param_values_with_space(&self, space: &ParameterSpace) -> (values: ParamMap<ParamValue>)
        requires
            self.sound(),
        ensures
            values.wf(),
            values@.dom() == self.numbers().dom(),
            forall|name: Seq<char>| #[trigger]
                values@.dom().contains(name) ==> values@[name]@ == meaning(space@, name, self.numbers()[name]),
    ;
}

impl ParamMapExt for ParamMap<F32> {
    open spec fn numbers(&self) -> Map<Seq<char>, F32> {
        self@
    }

    open spec fn sound(&self) -> bool {
        self.wf()
    }

    fn to_param_values(&self) -> (values: ParamMap<ParamValue>) {
        let empty: ParameterSpace = ParameterSpace::new();
        let values = self.to_param_values_with_space(&empty);
        proof {
            assert forall|name: Seq<char>| #[trigger] values@.dom().contains(name) implies values@[name]@
                == ParamValueView::Numeric(self@[name]) by {
                assert(param_named(empty@, name) is None);
            }
        }
        values
    }

    fn to_param_values_with_space(&self, space: &ParameterSpace) -> (values: ParamMap<ParamValue>) {
        let count: usize = self.len();
        let mut values: ParamMap<ParamValue> = ParamMap::new();
        let mut i: usize = 0;
        while i < count
            invariant
                i <= count == self.items().len(),
                self.wf(),
                values.wf(),
                forall|name: Seq<char>| #[trigger]
                    values@.dom().contains(name) <==> exists|j: int| 0 <= j < i && self.items()[j].0 == name,
                forall|j: int|
                    0 <= j < i ==> values@[(#[trigger] self.items()[j]).0]@ == meaning(
                        space@,
                        self.items()[j].0,
                        self.items()[j].1,
                    ),
            decreases count - i,
        {
            let ghost before = values@;
            let name: &str = self.name(i);
            let value: F32 = *self.value(i);
            let found = meaning_of(space, name, value);
            let ghost added = found@;
            values.insert(name.to_owned(), found);
            i = i + 1;
            proof {
                let key = self.items()[i - 1].0;
                assert forall|text: Seq<char>| #[trigger] values@.dom().contains(text) <==> exists|j: int|
                    0 <= j < i && self.items()[j].0 == text by {
                    if values@.dom().contains(text) {
                        if text == key {
                            assert(self.items()[i - 1].0 == text);
                        } else {
                            assert(before.dom().contains(text));
                        }
                    }
                    if exists|j: int| 0 <= j < i && self.items()[j].0 == text {
                        let j = choose|j: int| 0 <= j < i && self.items()[j].0 == text;
                        if j < i - 1 {
                            assert(before.dom().contains(text));
                        }
                    }
                }
                assert forall|j: int| 0 <= j < i implies values@[(#[trigger] self.items()[j]).0]@ == meaning(
                    space@,
                    self.items()[j].0,
                    self.items()[j].1,
                ) by {
                    if j < i - 1 {
                        assert(self.items()[j].0 != self.items()[i - 1].0);
                    }
                }
            }
        }
        proof {
            let items = self.items();
            assert forall|name: Seq<char>| values@.dom().contains(name) <==> #[trigger] self@.dom().contains(name) by {
                if values@.dom().contains(name) {
                    let j = choose|j: int| 0 <= j < items.len() && items[j].0 == name;
                    assert forall|k: int| 0 <= k < j implies (#[trigger] items[k]).0 != name by {
                        assert(items[k].0 != items[j].0);
                    }
                    crate::tuner::values::lemma_lookup(items, name, j);
                }
                if self@.dom().contains(name) {
                    let j = crate::tuner::values::lemma_lookup_found(items, name);
                    assert(items[j].0 == name);
                }
            }
            assert(values@.dom() =~= self@.dom());
            assert forall|name: Seq<char>| #[trigger] values@.dom().contains(name) implies values@[name]@ == meaning(
                space@,
                name,
                self@[name],
            ) by {
                assert(self@.dom().contains(name));
                let j = crate::tuner::values::lemma_lookup_found(items, name);
                assert(values@[items[j].0]@ == meaning(space@, items[j].0, items[j].1));
            }
        }
        values
    }
}

/// A model that can be tuned.
pub trait TunableModel: Sized + Clone + Send + Sync {
    /// The settings of the model.
    type Config: Clone + Send + Sync;

    /// Trains a model.
    fn train(dataset: &BinnedDataset, config: &Self::Config) -> (trained: Result<Self, ConfigError>);

    /// Trains a model that may stop early by its loss on other rows. Without
    /// support for that, the other rows are not looked at.
    fn train_with_validation(
        train_data: &BinnedDataset,
        val_data: &BinnedDataset,
        val_targets: &[F32],
        config: &Self::Config,
    ) -> (trained: Result<Self, ConfigError>)
        default_ensures
            call_ensures(Self::train, (train_data, config), trained),
    {
        Self::train(train_data, config)
    }

    /// The predictions for the rows of a dataset.
    fn predict(&self, dataset: &BinnedDataset) -> (predictions: Vec<F32>);

    /// The number of trees.
    fn num_trees(&self) -> (count: usize);

    /// Sets parameters; the others keep their values.
    fn apply_params(config: &mut Self::Config, params: &ParamMap<ParamValue>);

    /// The names of the parameters that the model knows.
    fn valid_params() -> (names: &'static [&'static str]);

    /// The settings to start from.
    fn default_config() -> (config: Self::Config);

    /// Whether training uses a graphics card, so that trials cannot run side by
    /// side.
    fn is_gpu_config(config: &Self::Config) -> (gpu: bool)
        default_ensures
            !gpu,
    {
        false
    }

    /// The learning rate of some settings.
    fn get_learning_rate(config: &Self::Config) -> (rate: F32)
        default_ensures
            rate == (F32 { bits: crate::defaults::DEFAULT_LEARNING_RATE }),
    {
        F32 { bits: crate::defaults::DEFAULT_LEARNING_RATE }
    }

    /// Sets when training stops early.
    fn configure_validation(config: &mut Self::Config, validation_ratio: F32, early_stopping_rounds: usize)
        default_ensures
            *final(config) == *old(config),
    {
    }

    /// Sets the number of training rounds.
    fn set_num_rounds(config: &mut Self::Config, num_rounds: usize)
        default_ensures
            *final(config) == *old(config),
    {
    }

    /// The model in the zero-copy format, if it has one.
    fn to_rkyv(&self) -> (saved: Result<Vec<u8>, ConfigError>)
        default_ensures
            saved matches Err(error) && Some(error@) == crate::tuner::config::broken(
                "Model serialization not supported for this model type"@,
            ),
    {
        Err(rule_error("Model serialization not supported for this model type"))
    }

    /// The model in the compact format, if it has one.
    fn to_bincode(&self) -> (saved: Result<Vec<u8>, ConfigError>)
        default_ensures
            saved matches Err(error) && Some(error@) == crate::tuner::config::broken(
                "Model serialization not supported for this model type"@,
            ),
    {
        Err(rule_error("Model serialization not supported for this model type"))
    }

    /// Whether the model has prediction intervals.
    fn supports_conformal() -> (supported: bool)
        default_ensures
            !supported,
    {
        false
    }

    /// The half width of the prediction intervals, if they are calibrated.
    fn conformal_quantile(&self) -> (quantile: Option<F32>)
        default_ensures
            quantile is None,
    {
        None
    }

    /// Sets how prediction intervals are calibrated.
    fn configure_conformal(config: &mut Self::Config, calibration_ratio: F32, quantile: F32)
        default_ensures
            *final(config) == *old(config),
    {
    }
}

/// The message for a model without prediction intervals.
pub open spec fn no_intervals() -> Seq<char> {
    "Conformal evaluation is not supported for this model type. Use EvalStrategy::Holdout for generic model tuning."@
}

/// Whether a model can be evaluated by its prediction intervals, given whether
/// it has them.
pub fn conformal_support(supported: bool) -> (checked: Result<(), ConfigError>)
    ensures
        crate::tuner::config::reports(
            checked,
            if supported {
                None
            } else {
                crate::tuner::config::broken(no_intervals())
            },
        ),
{
    if !supported {
        return Err(
            rule_error(
                "Conformal evaluation is not supported for this model type. Use EvalStrategy::Holdout for generic model tuning.",
            ),
        );
    }
    Ok(())
}

/// Whether a model can be evaluated by its prediction intervals: it can exactly
/// where the model says that it has them.
pub fn check_conformal_support<M: TunableModel>() -> (checked: Result<(), ConfigError>)
    ensures
        exists|supported: bool| #[trigger]
            call_ensures(M::supports_conformal, (), supported) && crate::tuner::config::reports(
                checked,
                if supported {
                    None
                } else {
                    crate::tuner::config::broken(no_intervals())
                },
            ),
{
    conformal_support(M::supports_conformal())
}

} // verus!
