//! The parameters that can be tuned.

use crate::text::same_text;
use vstd::prelude::*;
use vstd::string::StringExecFns;

verus! {

/// A parameter that can be tuned.
#[derive(Debug, Clone, Copy, PartialEq, Eq, Hash, Structural)]
pub enum TunableParam {
    /// Largest tree depth.
    MaxDepth,
    /// Learning rate.
    LearningRate,
    /// Share of the rows that a round uses.
    Subsample,
    /// Share of the features that a tree uses.
    Colsample,
    /// L2 regularization.
    Lambda,
    /// Weight of the entropy bonus.
    EntropyWeight,
    /// Fewest rows in a leaf.
    MinSamplesLeaf,
    /// Smallest hessian sum in a leaf.
    MinHessianLeaf,
    /// Smallest gain of a split.
    MinGain,
    /// Number of boosting rounds.
    NumRounds,
    /// Share of the rows with the largest gradients that are kept.
    GossTopRate,
    /// Share of the other rows that are kept.
    GossOtherRate,
    /// Boosting mode.
    Mode,
    /// Share of the rows for early stopping.
    ValidationRatio,
    /// Rounds without improvement before training stops.
    EarlyStoppingRounds,
    /// Number of linear boosting rounds.
    LinearRounds,
    /// Largest tree depth of a universal model.
    TreeMaxDepth,
    /// Largest number of leaves of a universal model.
    TreeMaxLeaves,
    /// L2 regularization of the trees of a universal model.
    TreeLambda,
    /// L2 regularization of the linear part.
    LinearLambda,
    /// Most iterations of the linear solver.
    LinearMaxIter,
}

impl TunableParam {
    /// The name of the parameter.
    pub open spec fn name(self) -> Seq<char> {
        match self {
            TunableParam::MaxDepth => "max_depth"@,
            TunableParam::LearningRate => "learning_rate"@,
            TunableParam::Subsample => "subsample"@,
            TunableParam::Colsample => "colsample"@,
            TunableParam::Lambda => "lambda"@,
            TunableParam::EntropyWeight => "entropy_weight"@,
            TunableParam::MinSamplesLeaf => "min_samples_leaf"@,
            TunableParam::MinHessianLeaf => "min_hessian_leaf"@,
            TunableParam::MinGain => "min_gain"@,
            TunableParam::NumRounds => "num_rounds"@,
            TunableParam::GossTopRate => "goss_top_rate"@,
            TunableParam::GossOtherRate => "goss_other_rate"@,
            TunableParam::Mode => "mode"@,
            TunableParam::ValidationRatio => "validation_ratio"@,
            TunableParam::EarlyStoppingRounds => "early_stopping_rounds"@,
            TunableParam::LinearRounds => "linear_rounds"@,
            TunableParam::TreeMaxDepth => "tree_max_depth"@,
            TunableParam::TreeMaxLeaves => "tree_max_leaves"@,
            TunableParam::TreeLambda => "tree_lambda"@,
            TunableParam::LinearLambda => "linear_lambda"@,
            TunableParam::LinearMaxIter => "linear_max_iter"@,
        }
    }

    /// The name of the parameter.
    pub fn to_string(&self) -> (name: &'static str)
        ensures
            name@ == self.name(),
    {
        match self {
            TunableParam::MaxDepth => "max_depth",
            TunableParam::LearningRate => "learning_rate",
            TunableParam::Subsample => "subsample",
            TunableParam::Colsample => "colsample",
            TunableParam::Lambda => "lambda",
            TunableParam::EntropyWeight => "entropy_weight",
            TunableParam::MinSamplesLeaf => "min_samples_leaf",
            TunableParam::MinHessianLeaf => "min_hessian_leaf",
            TunableParam::MinGain => "min_gain",
            TunableParam::NumRounds => "num_rounds",
            TunableParam::GossTopRate => "goss_top_rate",
            TunableParam::GossOtherRate => "goss_other_rate",
            TunableParam::Mode => "mode",
            TunableParam::ValidationRatio => "validation_ratio",
            TunableParam::EarlyStoppingRounds => "early_stopping_rounds",
            TunableParam::LinearRounds => "linear_rounds",
            TunableParam::TreeMaxDepth => "tree_max_depth",
            TunableParam::TreeMaxLeaves => "tree_max_leaves",
            TunableParam::TreeLambda => "tree_lambda",
            TunableParam::LinearLambda => "linear_lambda",
            TunableParam::LinearMaxIter => "linear_max_iter",
        }
    }

    /// All names, first those of gradient boosting, then those of universal
    /// models.
    pub open spec fn name_list() -> Seq<Seq<char>> {
        seq![
            "max_depth"@,
            "learning_rate"@,
            "subsample"@,
            "colsample"@,
            "lambda"@,
            "entropy_weight"@,
            "min_samples_leaf"@,
            "min_hessian_leaf"@,
            "min_gain"@,
            "num_rounds"@,
            "goss_top_rate"@,
            "goss_other_rate"@,
            "mode"@,
            "validation_ratio"@,
            "early_stopping_rounds"@,
            "linear_rounds"@,
            "tree_max_depth"@,
            "tree_max_leaves"@,
            "tree_lambda"@,
            "linear_lambda"@,
            "linear_max_iter"@,
        ]
    }

    /// All names, first those of gradient boosting, then those of universal
    /// models.
    pub fn all_names() -> (names: &'static [&'static str])
        ensures
            names@.map_values(|name: &'static str| name@) == TunableParam::name_list(),
    {
        let names: &'static [&'static str] = &[
            "max_depth",
            "learning_rate",
            "subsample",
            "colsample",
            "lambda",
            "entropy_weight",
            "min_samples_leaf",
            "min_hessian_leaf",
            "min_gain",
            "num_rounds",
            "goss_top_rate",
            "goss_other_rate",
            "mode",
            "validation_ratio",
            "early_stopping_rounds",
            "linear_rounds",
            "tree_max_depth",
            "tree_max_leaves",
            "tree_lambda",
            "linear_lambda",
            "linear_max_iter",
        ];
        assert(names@.map_values(|name: &'static str| name@) =~= TunableParam::name_list());
        names
    }

    /// The parameters of gradient boosting.
    pub fn gbdt_params() -> (params: &'static [TunableParam])
        ensures
            params@ == seq![
                TunableParam::MaxDepth,
                TunableParam::LearningRate,
                TunableParam::Subsample,
                TunableParam::Colsample,
                TunableParam::Lambda,
                TunableParam::EntropyWeight,
                TunableParam::MinSamplesLeaf,
                TunableParam::MinHessianLeaf,
                TunableParam::MinGain,
                TunableParam::NumRounds,
                TunableParam::GossTopRate,
                TunableParam::GossOtherRate,
            ],
    {
        let params: &'static [TunableParam] = &[
            TunableParam::MaxDepth,
            TunableParam::LearningRate,
            TunableParam::Subsample,
            TunableParam::Colsample,
            TunableParam::Lambda,
            TunableParam::EntropyWeight,
            TunableParam::MinSamplesLeaf,
            TunableParam::MinHessianLeaf,
            TunableParam::MinGain,
            TunableParam::NumRounds,
            TunableParam::GossTopRate,
            TunableParam::GossOtherRate,
        ];
        params
    }

    /// The parameters of universal models.
    pub fn universal_params() -> (params: &'static [TunableParam])
        ensures
            params@ == seq![
                TunableParam::Mode,
                TunableParam::NumRounds,
                TunableParam::LearningRate,
                TunableParam::Subsample,
                TunableParam::ValidationRatio,
                TunableParam::EarlyStoppingRounds,
                TunableParam::LinearRounds,
                TunableParam::TreeMaxDepth,
                TunableParam::TreeMaxLeaves,
                TunableParam::TreeLambda,
                TunableParam::LinearLambda,
                TunableParam::LinearMaxIter,
            ],
    {
        let params: &'static [TunableParam] = &[
            TunableParam::Mode,
            TunableParam::NumRounds,
            TunableParam::LearningRate,
            TunableParam::Subsample,
            TunableParam::ValidationRatio,
            TunableParam::EarlyStoppingRounds,
            TunableParam::LinearRounds,
            TunableParam::TreeMaxDepth,
            TunableParam::TreeMaxLeaves,
            TunableParam::TreeLambda,
            TunableParam::LinearLambda,
            TunableParam::LinearMaxIter,
        ];
        params
    }

    /// What [`TunableParam::parse`] says of a name that is none: the name, and
    /// all names that are.
    pub open spec fn unknown_name(s: Seq<char>) -> Seq<char> {
        "Unknown parameter '"@ + s
            + "'. Valid parameters: [\"max_depth\", \"learning_rate\", \"subsample\", \"colsample\", \"lambda\", \"entropy_weight\", \"min_samples_leaf\", \"min_hessian_leaf\", \"min_gain\", \"num_rounds\", \"goss_top_rate\", \"goss_other_rate\", \"mode\", \"validation_ratio\", \"early_stopping_rounds\", \"linear_rounds\", \"tree_max_depth\", \"tree_max_leaves\", \"tree_lambda\", \"linear_lambda\", \"linear_max_iter\"]"@
    }

    /// The parameter of a name.
    pub fn parse(s: &str) -> (parsed: Result<TunableParam, String>)
        ensures
            match parsed {
                Ok(param) => param.name() == s@,
                Err(message) => {
                    &&& forall|param: TunableParam| #[trigger] param.name() != s@
                    &&& message@ == TunableParam::unknown_name(s@)
                },
            },
    {
        if same_text(s, "max_depth") {
            return Ok(TunableParam::MaxDepth);
        }
        if same_text(s, "learning_rate") {
            return Ok(TunableParam::LearningRate);
        }
        if same_text(s, "subsample") {
            return Ok(TunableParam::Subsample);
        }
        if same_text(s, "colsample") {
            return Ok(TunableParam::Colsample);
        }
        if same_text(s, "lambda") {
            return Ok(TunableParam::Lambda);
        }
        if same_text(s, "entropy_weight") {
            return Ok(TunableParam::EntropyWeight);
        }
        if same_text(s, "min_samples_leaf") {
            return Ok(TunableParam::MinSamplesLeaf);
        }
        if same_text(s, "min_hessian_leaf") {
            return Ok(TunableParam::MinHessianLeaf);
        }
        if same_text(s, "min_gain") {
            return Ok(TunableParam::MinGain);
        }
        if same_text(s, "num_rounds") {
            return Ok(TunableParam::NumRounds);
        }
        if same_text(s, "goss_top_rate") {
            return Ok(TunableParam::GossTopRate);
        }
        if same_text(s, "goss_other_rate") {
            return Ok(TunableParam::GossOtherRate);
        }
        if same_text(s, "mode") {
            return Ok(TunableParam::Mode);
        }
        if same_text(s, "validation_ratio") {
            return Ok(TunableParam::ValidationRatio);
        }
        if same_text(s, "early_stopping_rounds") {
            return Ok(TunableParam::EarlyStoppingRounds);
        }
        if same_text(s, "linear_rounds") {
            return Ok(TunableParam::LinearRounds);
        }
        if same_text(s, "tree_max_depth") {
            return Ok(TunableParam::TreeMaxDepth);
        }
        if same_text(s, "tree_max_leaves") {
            return Ok(TunableParam::TreeMaxLeaves);
        }
        if same_text(s, "tree_lambda") {
            return Ok(TunableParam::TreeLambda);
        }
        if same_text(s, "linear_lambda") {
            return Ok(TunableParam::LinearLambda);
        }
        if same_text(s, "linear_max_iter") {
            return Ok(TunableParam::LinearMaxIter);
        }
        let mut message: String = "Unknown parameter '".to_owned();
        message.append(s);
        message.append(
            "'. Valid parameters: [\"max_depth\", \"learning_rate\", \"subsample\", \"colsample\", \"lambda\", \"entropy_weight\", \"min_samples_leaf\", \"min_hessian_leaf\", \"min_gain\", \"num_rounds\", \"goss_top_rate\", \"goss_other_rate\", \"mode\", \"validation_ratio\", \"early_stopping_rounds\", \"linear_rounds\", \"tree_max_depth\", \"tree_max_leaves\", \"tree_lambda\", \"linear_lambda\", \"linear_max_iter\"]",
        );
        Err(message)
    }
}

/// The length of a parameter's name and three of its characters, which tell
/// the parameters apart.
spec fn name_mark(param: TunableParam) -> (int, char, char, char) {
    match param {
        TunableParam::MaxDepth => (9, 'm', 'a', 't'),
        TunableParam::LearningRate => (13, 'l', 'e', 'g'),
        TunableParam::Subsample => (9, 's', 'u', 'l'),
        TunableParam::Colsample => (9, 'c', 'o', 'l'),
        TunableParam::Lambda => (6, 'l', 'a', ' '),
        TunableParam::EntropyWeight => (14, 'e', 'n', '_'),
        TunableParam::MinSamplesLeaf => (16, 'm', 'i', 'p'),
        TunableParam::MinHessianLeaf => (16, 'm', 'i', 's'),
        TunableParam::MinGain => (8, 'm', 'i', 'n'),
        TunableParam::NumRounds => (10, 'n', 'u', 'n'),
        TunableParam::GossTopRate => (13, 'g', 'o', 'p'),
        TunableParam::GossOtherRate => (15, 'g', 'o', 'h'),
        TunableParam::Mode => (4, 'm', 'o', ' '),
        TunableParam::ValidationRatio => (16, 'v', 'a', 'i'),
        TunableParam::EarlyStoppingRounds => (21, 'e', 'a', 't'),
        TunableParam::LinearRounds => (13, 'l', 'i', 'r'),
        TunableParam::TreeMaxDepth => (14, 't', 'r', 'x'),
        TunableParam::TreeMaxLeaves => (15, 't', 'r', 'x'),
        TunableParam::TreeLambda => (11, 't', 'r', 'm'),
        TunableParam::LinearLambda => (13, 'l', 'i', 'l'),
        TunableParam::LinearMaxIter => (15, 'l', 'i', 'm'),
    }
}

proof fn lemma_name_mark(param: TunableParam)
    ensures
        param.name().len() == name_mark(param).0,
        param.name()[0] == name_mark(param).1,
        param.name()[1] == name_mark(param).2,
        param.name().len() > 7 ==> param.name()[7] == name_mark(param).3,
{
    match param {
        TunableParam::MaxDepth => reveal_strlit("max_depth"),
        TunableParam::LearningRate => reveal_strlit("learning_rate"),
        TunableParam::Subsample => reveal_strlit("subsample"),
        TunableParam::Colsample => reveal_strlit("colsample"),
        TunableParam::Lambda => reveal_strlit("lambda"),
        TunableParam::EntropyWeight => reveal_strlit("entropy_weight"),
        TunableParam::MinSamplesLeaf => reveal_strlit("min_samples_leaf"),
        TunableParam::MinHessianLeaf => reveal_strlit("min_hessian_leaf"),
        TunableParam::MinGain => reveal_strlit("min_gain"),
        TunableParam::NumRounds => reveal_strlit("num_rounds"),
        TunableParam::GossTopRate => reveal_strlit("goss_top_rate"),
        TunableParam::GossOtherRate => reveal_strlit("goss_other_rate"),
        TunableParam::Mode => reveal_strlit("mode"),
        TunableParam::ValidationRatio => reveal_strlit("validation_ratio"),
        TunableParam::EarlyStoppingRounds => reveal_strlit("early_stopping_rounds"),
        TunableParam::LinearRounds => reveal_strlit("linear_rounds"),
        TunableParam::TreeMaxDepth => reveal_strlit("tree_max_depth"),
        TunableParam::TreeMaxLeaves => reveal_strlit("tree_max_leaves"),
        TunableParam::TreeLambda => reveal_strlit("tree_lambda"),
        TunableParam::LinearLambda => reveal_strlit("linear_lambda"),
        TunableParam::LinearMaxIter => reveal_strlit("linear_max_iter"),
    }
}

/// No two parameters have the same name.
pub proof fn law_names_are_distinct(a: TunableParam, b: TunableParam)
    requires
        a.name() == b.name(),
    ensures
        a == b,
{
    lemma_name_mark(a);
    lemma_name_mark(b);
}

} // verus!
