//! Settings of gradient boosting that scripts make.

use crate::backend::{BackendType, GpuMode};
use crate::float::{F32, F32_ONE, F32_ZERO};
use crate::interface::names::{
    backend_meant, gpu_mode_meant, lowercase, model_format_meant, outcome, parse_backend, parse_gpu_mode, parse_model_format,
    SaveFormat,
};
use crate::tree::split::MonotonicConstraint;
use vstd::prelude::*;

verus! {

/// A loss.
#[derive(Debug, Clone, Copy, PartialEq, Eq, Structural)]
pub enum LossType {
    /// Squared error.
    Mse,
    /// Squared near 0, linear far from it.
    PseudoHuber {
        /// Where it turns linear.
        delta: F32,
    },
    /// Log loss of two classes.
    BinaryLogLoss,
    /// Log loss of several classes.
    MultiClassLogLoss {
        /// Number of classes.
        num_classes: usize,
    },
}

/// The settings of gradient boosting.
#[derive(Debug)]
pub struct GbdtSettings {
    /// Boosting rounds.
    pub num_rounds: usize,
    /// Learning rate.
    pub learning_rate: F32,
    /// Largest depth.
    pub max_depth: usize,
    /// Most leaves.
    pub max_leaves: usize,
    /// Fewest rows in a leaf.
    pub min_samples_leaf: usize,
    /// Smallest hessian sum in a leaf.
    pub min_hessian_leaf: F32,
    /// Smallest gain of a split.
    pub min_gain: F32,
    /// L2 regularization.
    pub lambda: F32,
    /// Weight of the entropy bonus.
    pub entropy_weight: F32,
    /// The loss.
    pub loss_type: LossType,
    /// Share of the rows that a round uses.
    pub subsample: F32,
    /// Share of the features that a tree uses.
    pub colsample: F32,
    /// Bins of a feature.
    pub num_bins: usize,
    /// Share of the rows that calibrate prediction intervals.
    pub calibration_ratio: F32,
    /// Coverage of prediction intervals.
    pub conformal_quantile: F32,
    /// Rounds without improvement before training stops; 0 for never.
    pub early_stopping_rounds: usize,
    /// Share of the rows that early stopping looks at.
    pub validation_ratio: F32,
    /// Whether rows are predicted side by side.
    pub parallel_prediction: bool,
    /// Whether columns are put in order of importance.
    pub column_reordering: bool,
    /// Whether features with few bins are packed.
    pub packed_dataset: bool,
    /// Whether gradients are computed side by side.
    pub parallel_gradient: bool,
    /// Whether graphics cards use subgroups.
    pub use_gpu_subgroups: bool,
    /// The backend.
    pub backend_type: BackendType,
    /// How much of the work a graphics card does.
    pub gpu_mode: GpuMode,
    /// In which direction features may act.
    pub monotonic_constraints: Vec<MonotonicConstraint>,
    /// Whether all eras have to agree on a split.
    pub era_splitting: bool,
    /// Which features may stand on one path.
    pub interaction_groups: Vec<Vec<usize>>,
}

/// Whether a number is at most 0.
pub open spec fn not_positive(x: F32) -> bool {
    x.at_most(F32 { bits: F32_ZERO })
}

/// Whether a number is below 0.
pub open spec fn negative(x: F32) -> bool {
    x.less(F32 { bits: F32_ZERO })
}

/// Whether a number is above 1.
pub open spec fn above_one(x: F32) -> bool {
    (F32 { bits: F32_ONE }).less(x)
}

/// Whether a number is at least 1.
pub open spec fn at_least_one(x: F32) -> bool {
    (F32 { bits: F32_ONE }).at_most(x)
}

/// Whether a number is at least 0 and below 1.
pub open spec fn proper_share(x: F32) -> bool {
    (F32 { bits: F32_ZERO }).at_most(x) && x.less(F32 { bits: F32_ONE })
}

/// Whether a number is at most 0.
pub fn is_not_positive(x: F32) -> (is: bool)
    ensures
        is == not_positive(x),
{
    x.le(F32 { bits: F32_ZERO })
}

/// Whether a number is below 0.
pub fn is_negative(x: F32) -> (is: bool)
    ensures
        is == negative(x),
{
    x.lt(F32 { bits: F32_ZERO })
}

/// Whether a number is above 1.
pub fn is_above_one(x: F32) -> (is: bool)
    ensures
        is == above_one(x),
{
    let one = F32 { bits: F32_ONE };
    one.lt(x)
}

/// Whether a number is at least 1.
pub fn is_at_least_one(x: F32) -> (is: bool)
    ensures
        is == at_least_one(x),
{
    let one = F32 { bits: F32_ONE };
    one.le(x)
}

/// Whether a number is at least 0 and below 1.
pub fn is_proper_share(x: F32) -> (is: bool)
    ensures
        is == proper_share(x),
{
    let zero = F32 { bits: F32_ZERO };
    let one = F32 { bits: F32_ONE };
    zero.le(x) && x.lt(one)
}

/// The direction that a number stands for.
pub open spec fn direction(code: i32) -> Option<MonotonicConstraint> {
    if code == 1 {
        Some(MonotonicConstraint::Increasing)
    } else if code == -1 {
        Some(MonotonicConstraint::Decreasing)
    } else if code == 0 {
        Some(MonotonicConstraint::Unconstrained)
    } else {
        None
    }
}

/// The directions that some numbers stand for: 1 up, -1 down, 0 either.
pub fn parse_monotonic_constraints(codes: &[i32]) -> (found: Result<Vec<MonotonicConstraint>, String>)
    ensures
        match found {
            Ok(list) => {
                &&& list@.len() == codes@.len()
                &&& forall|i: int| 0 <= i < codes@.len() ==> Some(list@[i]) == direction(#[trigger] codes@[i])
            },
            Err(message) => {
                &&& exists|i: int| 0 <= i < codes@.len() && direction(#[trigger] codes@[i]) is None
                &&& message@ == "Constraint must be 1 (increasing), -1 (decreasing), or 0 (none)"@
            },
        },
{
    let count: usize = codes.len();
    let mut list: Vec<MonotonicConstraint> = Vec::new();
    let mut i: usize = 0;
    while i < count
        invariant
            i <= count == codes@.len(),
            list@.len() == i,
            forall|j: int| 0 <= j < i ==> Some(list@[j]) == direction(#[trigger] codes@[j]),
        decreases count - i,
    {
        let code: i32 = codes[i];
        if code == 1 {
            list.push(MonotonicConstraint::Increasing);
        } else if code == -1 {
            list.push(MonotonicConstraint::Decreasing);
        } else if code == 0 {
            list.push(MonotonicConstraint::Unconstrained);
        } else {
            assert(direction(codes@[i as int]) is None);
            return Err("Constraint must be 1 (increasing), -1 (decreasing), or 0 (none)".to_owned());
        }
        i = i + 1;
    }
    Ok(list)
}

/// The number that stands for a direction.
pub fn constraint_to_int(constraint: MonotonicConstraint) -> (code: i32)
    ensures
        direction(code) == Some(constraint),
{
    match constraint {
        MonotonicConstraint::Increasing => 1,
        MonotonicConstraint::Decreasing => -1,
        MonotonicConstraint::Unconstrained => 0,
    }
}

/// The formats that scripts name, in order; the zero-copy one where they name
/// none.
pub fn parse_formats(names: Option<&[String]>) -> (formats: Result<Vec<SaveFormat>, String>)
    ensures
        match names {
            None => formats matches Ok(list) && list@ == seq![SaveFormat::Rkyv],
            Some(given) => match formats {
                Ok(list) => {
                    &&& given@.len() > 0
                    &&& list@.len() == given@.len()
                    &&& forall|i: int|
                        0 <= i < given@.len() ==> Some(list@[i]) == model_format_meant(
                            lowercase((#[trigger] given@[i])@),
                        )
                },
                Err(message) => {
                    ||| given@.len() == 0 && message@ == "formats list must not be empty"@
                    ||| given@.len() > 0 && message@ == "format must be 'rkyv' or 'bincode'"@ && exists|i: int|
                        0 <= i < given@.len() && model_format_meant(lowercase((#[trigger] given@[i])@)) is None
                },
            },
        },
{
    let mut list: Vec<SaveFormat> = Vec::new();
    match names {
        None => {
            list.push(SaveFormat::Rkyv);
            assert(list@ =~= seq![SaveFormat::Rkyv]);
            Ok(list)
        },
        Some(given) => {
            let count: usize = given.len();
            if count == 0 {
                return Err("formats list must not be empty".to_owned());
            }
            let mut i: usize = 0;
            while i < count
                invariant
                    names == Some(given),
                    i <= count == given@.len(),
                    list@.len() == i,
                    forall|j: int|
                        0 <= j < i ==> Some(list@[j]) == model_format_meant(lowercase((#[trigger] given@[j])@)),
                decreases count - i,
            {
                match parse_model_format(given[i].as_str()) {
                    Ok(format) => {
                        list.push(format);
                    },
                    Err(message) => {
                        assert(model_format_meant(lowercase(given@[i as int]@)) is None);
                        return Err(message);
                    },
                }
                i = i + 1;
            }
            Ok(list)
        },
    }
}

impl GbdtSettings {
    /// Sets the boosting rounds.
    pub fn with_num_rounds(self, value: usize) -> (changed: Result<GbdtSettings, String>)
        ensures
            outcome(changed, value >= 1, GbdtSettings { num_rounds: value, ..self }, "num_rounds must be >= 1"@),
    {
        if value == 0 {
            return Err("num_rounds must be >= 1".to_owned());
        }
        Ok(GbdtSettings { num_rounds: value, ..self })
    }

    /// Sets the learning rate.
    pub fn with_learning_rate(self, value: F32) -> (changed: Result<GbdtSettings, String>)
        ensures
            outcome(changed, !(not_positive(value) || above_one(value)), GbdtSettings { learning_rate: value, ..self }, "learning_rate must be in (0.0, 1.0]"@),
    {
        if is_not_positive(value) || is_above_one(value) {
            return Err("learning_rate must be in (0.0, 1.0]".to_owned());
        }
        Ok(GbdtSettings { learning_rate: value, ..self })
    }

    /// Sets the largest depth.
    pub fn with_max_depth(self, value: usize) -> (changed: Result<GbdtSettings, String>)
        ensures
            outcome(changed, value >= 1, GbdtSettings { max_depth: value, ..self }, "max_depth must be >= 1"@),
    {
        if value == 0 {
            return Err("max_depth must be >= 1".to_owned());
        }
        Ok(GbdtSettings { max_depth: value, ..self })
    }

    /// Sets the most leaves.
    pub fn with_max_leaves(self, value: usize) -> (changed: Result<GbdtSettings, String>)
        ensures
            outcome(changed, value >= 2, GbdtSettings { max_leaves: value, ..self }, "max_leaves must be >= 2"@),
    {
        if value < 2 {
            return Err("max_leaves must be >= 2".to_owned());
        }
        Ok(GbdtSettings { max_leaves: value, ..self })
    }

    /// Sets the fewest rows in a leaf.
    pub fn with_min_samples_leaf(self, value: usize) -> (changed: Result<GbdtSettings, String>)
        ensures
            outcome(changed, value >= 1, GbdtSettings { min_samples_leaf: value, ..self }, "min_samples_leaf must be >= 1"@),
    {
        if value == 0 {
            return Err("min_samples_leaf must be >= 1".to_owned());
        }
        Ok(GbdtSettings { min_samples_leaf: value, ..self })
    }

    /// Sets the smallest hessian sum in a leaf.
    pub fn with_min_hessian_leaf(self, value: F32) -> (changed: Result<GbdtSettings, String>)
        ensures
            outcome(changed, !negative(value), GbdtSettings { min_hessian_leaf: value, ..self }, "min_hessian_leaf must be >= 0.0"@),
    {
        if is_negative(value) {
            return Err("min_hessian_leaf must be >= 0.0".to_owned());
        }
        Ok(GbdtSettings { min_hessian_leaf: value, ..self })
    }

    /// Sets the smallest gain of a split.
    pub fn with_min_gain(self, value: F32) -> (changed: Result<GbdtSettings, String>)
        ensures
            outcome(changed, !negative(value), GbdtSettings { min_gain: value, ..self }, "min_gain must be >= 0.0"@),
    {
        if is_negative(value) {
            return Err("min_gain must be >= 0.0".to_owned());
        }
        Ok(GbdtSettings { min_gain: value, ..self })
    }

    /// Sets the L2 regularization.
    pub fn with_lambda(self, value: F32) -> (changed: Result<GbdtSettings, String>)
        ensures
            outcome(changed, !negative(value), GbdtSettings { lambda: value, ..self }, "lambda must be >= 0.0"@),
    {
        if is_negative(value) {
            return Err("lambda must be >= 0.0".to_owned());
        }
        Ok(GbdtSettings { lambda: value, ..self })
    }

    /// Sets the weight of the entropy bonus.
    pub fn with_entropy_weight(self, value: F32) -> (changed: Result<GbdtSettings, String>)
        ensures
            outcome(changed, !negative(value), GbdtSettings { entropy_weight: value, ..self }, "entropy_weight must be >= 0.0"@),
    {
        if is_negative(value) {
            return Err("entropy_weight must be >= 0.0".to_owned());
        }
        Ok(GbdtSettings { entropy_weight: value, ..self })
    }

    /// Sets the share of the rows that a round uses.
    pub fn with_subsample(self, value: F32) -> (changed: Result<GbdtSettings, String>)
        ensures
            outcome(changed, !(not_positive(value) || above_one(value)), GbdtSettings { subsample: value, ..self }, "subsample must be in (0.0, 1.0]"@),
    {
        if is_not_positive(value) || is_above_one(value) {
            return Err("subsample must be in (0.0, 1.0]".to_owned());
        }
        Ok(GbdtSettings { subsample: value, ..self })
    }

    /// Sets the share of the features that a tree uses.
    pub fn with_colsample(self, value: F32) -> (changed: Result<GbdtSettings, String>)
        ensures
            outcome(changed, !(not_positive(value) || above_one(value)), GbdtSettings { colsample: value, ..self }, "colsample must be in (0.0, 1.0]"@),
    {
        if is_not_positive(value) || is_above_one(value) {
            return Err("colsample must be in (0.0, 1.0]".to_owned());
        }
        Ok(GbdtSettings { colsample: value, ..self })
    }

    /// Sets the bins of a feature.
    pub fn with_num_bins(self, value: usize) -> (changed: Result<GbdtSettings, String>)
        ensures
            outcome(changed, 2 <= value <= 255, GbdtSettings { num_bins: value, ..self }, "num_bins must be in [2, 255]"@),
    {
        if value < 2 || value > 255 {
            return Err("num_bins must be in [2, 255]".to_owned());
        }
        Ok(GbdtSettings { num_bins: value, ..self })
    }

    /// Sets the share of the rows that calibrate prediction intervals.
    pub fn with_calibration_ratio(self, value: F32) -> (changed: Result<GbdtSettings, String>)
        ensures
            outcome(changed, proper_share(value), GbdtSettings { calibration_ratio: value, ..self }, "calibration_ratio must be in [0.0, 1.0)"@),
    {
        if !is_proper_share(value) {
            return Err("calibration_ratio must be in [0.0, 1.0)".to_owned());
        }
        Ok(GbdtSettings { calibration_ratio: value, ..self })
    }

    /// Sets the coverage of prediction intervals.
    pub fn with_conformal_quantile(self, value: F32) -> (changed: Result<GbdtSettings, String>)
        ensures
            outcome(changed, !(not_positive(value) || at_least_one(value)), GbdtSettings { conformal_quantile: value, ..self }, "conformal_quantile must be in (0.0, 1.0)"@),
    {
        if is_not_positive(value) || is_at_least_one(value) {
            return Err("conformal_quantile must be in (0.0, 1.0)".to_owned());
        }
        Ok(GbdtSettings { conformal_quantile: value, ..self })
    }

    /// Sets the share of the rows that early stopping looks at.
    pub fn with_validation_ratio(self, value: F32) -> (changed: Result<GbdtSettings, String>)
        ensures
            outcome(changed, proper_share(value), GbdtSettings { validation_ratio: value, ..self }, "validation_ratio must be in [0.0, 1.0)"@),
    {
        if !is_proper_share(value) {
            return Err("validation_ratio must be in [0.0, 1.0)".to_owned());
        }
        Ok(GbdtSettings { validation_ratio: value, ..self })
    }

    /// Sets a loss that is squared near 0 and linear far from it.
    pub fn with_pseudo_huber_loss(self, delta: F32) -> (changed: Result<GbdtSettings, String>)
        ensures
            outcome(changed, !not_positive(delta), GbdtSettings { loss_type: LossType::PseudoHuber { delta }, ..self }, "delta must be > 0.0"@),
    {
        if is_not_positive(delta) {
            return Err("delta must be > 0.0".to_owned());
        }
        Ok(GbdtSettings { loss_type: LossType::PseudoHuber { delta }, ..self })
    }

    /// Sets the log loss of several classes.
    pub fn with_multiclass_logloss(self, num_classes: usize) -> (changed: Result<GbdtSettings, String>)
        ensures
            outcome(changed, num_classes >= 2, GbdtSettings { loss_type: LossType::MultiClassLogLoss { num_classes }, ..self }, "num_classes must be >= 2"@),
    {
        if num_classes < 2 {
            return Err("num_classes must be >= 2".to_owned());
        }
        Ok(GbdtSettings { loss_type: LossType::MultiClassLogLoss { num_classes }, ..self })
    }

    /// Sets when training stops.
    pub fn with_early_stopping_rounds(self, value: usize) -> (changed: GbdtSettings)
        ensures
            changed == (GbdtSettings { early_stopping_rounds: value, ..self }),
    {
        GbdtSettings { early_stopping_rounds: value, ..self }
    }

    /// Sets whether rows are predicted side by side.
    pub fn with_parallel_prediction(self, value: bool) -> (changed: GbdtSettings)
        ensures
            changed == (GbdtSettings { parallel_prediction: value, ..self }),
    {
        GbdtSettings { parallel_prediction: value, ..self }
    }

    /// Sets whether columns are put in order of importance.
    pub fn with_column_reordering(self, value: bool) -> (changed: GbdtSettings)
        ensures
            changed == (GbdtSettings { column_reordering: value, ..self }),
    {
        GbdtSettings { column_reordering: value, ..self }
    }

    /// Sets whether features with few bins are packed.
    pub fn with_packed_dataset(self, value: bool) -> (changed: GbdtSettings)
        ensures
            changed == (GbdtSettings { packed_dataset: value, ..self }),
    {
        GbdtSettings { packed_dataset: value, ..self }
    }

    /// Sets whether gradients are computed side by side.
    pub fn with_parallel_gradient(self, value: bool) -> (changed: GbdtSettings)
        ensures
            changed == (GbdtSettings { parallel_gradient: value, ..self }),
    {
        GbdtSettings { parallel_gradient: value, ..self }
    }

    /// Sets whether graphics cards use subgroups.
    pub fn with_gpu_subgroups(self, value: bool) -> (changed: GbdtSettings)
        ensures
            changed == (GbdtSettings { use_gpu_subgroups: value, ..self }),
    {
        GbdtSettings { use_gpu_subgroups: value, ..self }
    }

    /// Sets whether all eras have to agree on a split.
    pub fn with_era_splitting(self, value: bool) -> (changed: GbdtSettings)
        ensures
            changed == (GbdtSettings { era_splitting: value, ..self }),
    {
        GbdtSettings { era_splitting: value, ..self }
    }

    /// Sets the squared error.
    pub fn with_mse_loss(self) -> (changed: GbdtSettings)
        ensures
            changed == (GbdtSettings { loss_type: LossType::Mse, ..self }),
    {
        GbdtSettings { loss_type: LossType::Mse, ..self }
    }

    /// Sets the log loss of two classes.
    pub fn with_binary_logloss(self) -> (changed: GbdtSettings)
        ensures
            changed == (GbdtSettings { loss_type: LossType::BinaryLogLoss, ..self }),
    {
        GbdtSettings { loss_type: LossType::BinaryLogLoss, ..self }
    }

    /// Sets in which direction features may act.
    pub fn with_constraints(self, constraints: Vec<MonotonicConstraint>) -> (changed: GbdtSettings)
        ensures
            changed == (GbdtSettings { monotonic_constraints: constraints, ..self }),
    {
        GbdtSettings { monotonic_constraints: constraints, ..self }
    }

    /// Sets which features may stand on one path.
    pub fn with_interaction_groups(self, groups: Vec<Vec<usize>>) -> (changed: GbdtSettings)
        ensures
            changed == (GbdtSettings { interaction_groups: groups, ..self }),
    {
        GbdtSettings { interaction_groups: groups, ..self }
    }

    /// Sets the backend by its name.
    pub fn with_backend(self, name: &str) -> (changed: Result<GbdtSettings, String>)
        ensures
            outcome(
                changed,
                backend_meant(lowercase(name@)) is Some,
                GbdtSettings { backend_type: backend_meant(lowercase(name@))->0, ..self },
                "backend must be one of: 'auto' (or 'gpu'), 'cpu' (or 'scalar'), 'wgpu', 'cuda', 'rocm', 'metal'"@,
            ),
    {
        match parse_backend(name) {
            Ok(found) => Ok(GbdtSettings { backend_type: found, ..self }),
            Err(message) => Err(message),
        }
    }

    /// Sets how much of the work a graphics card does, by name.
    pub fn with_gpu_mode(self, name: &str) -> (changed: Result<GbdtSettings, String>)
        ensures
            outcome(
                changed,
                gpu_mode_meant(lowercase(name@)) is Some,
                GbdtSettings { gpu_mode: gpu_mode_meant(lowercase(name@))->0, ..self },
                "gpu_mode must be one of: 'auto', 'hybrid', 'full'"@,
            ),
    {
        match parse_gpu_mode(name) {
            Ok(found) => Ok(GbdtSettings { gpu_mode: found, ..self }),
            Err(message) => Err(message),
        }
    }

    /// Sets in which direction features may act, by numbers.
    pub fn with_monotonic_constraints(self, codes: &[i32]) -> (changed: Result<GbdtSettings, String>)
        ensures
            match changed {
                Ok(new) => {
                    &&& new == (GbdtSettings { monotonic_constraints: new.monotonic_constraints, ..self })
                    &&& new.monotonic_constraints@.len() == codes@.len()
                    &&& forall|i: int|
                        0 <= i < codes@.len() ==> Some(new.monotonic_constraints@[i]) == direction(#[trigger] codes@[i])
                },
                Err(message) => {
                    &&& exists|i: int| 0 <= i < codes@.len() && direction(#[trigger] codes@[i]) is None
                    &&& message@ == "Constraint must be 1 (increasing), -1 (decreasing), or 0 (none)"@
                },
            },
    {
        match parse_monotonic_constraints(codes) {
            Ok(list) => Ok(GbdtSettings { monotonic_constraints: list, ..self }),
            Err(message) => Err(message),
        }
    }
}

} // verus!
