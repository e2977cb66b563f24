//! A run of tuning a linear model followed by trees: which trial comes next, and
//! what the results decide.

use crate::defaults::DEFAULT_LTT_SHRINKAGE;
use crate::float::{F32, F32_INFINITY, F32_NEG_INFINITY, F32_ZERO};
use crate::tuner::ltt::{
    JointTrial, LinearHyperparams, LinearTrial, LttTunerConfig, LttTuningHistory, TreeHyperparams, TreeTrial,
};
use vstd::prelude::*;

verus! {

/// What to do next.
#[derive(Debug, Clone, Copy, PartialEq, Eq, Structural)]
pub enum LttStep {
    /// Train a linear model.
    FitLinear {
        /// Regularization.
        lambda: F32,
        /// Share of the L1 penalty.
        l1_ratio: F32,
    },
    /// Train a few trees on what the best linear model leaves at a weight.
    ProbeShrinkage {
        /// The weight.
        shrinkage: F32,
    },
    /// Search for the trees.
    SearchTrees,
    /// Train the best linear model with a damping.
    FitDamping {
        /// The damping.
        damping: F32,
    },
    /// Train both parts and score them together.
    ScoreBoth,
    /// Nothing: no linear model explained anything.
    GiveUp,
    /// Nothing: all is done.
    Finish,
}

/// The phases of a run.
#[derive(Debug, Clone, Copy, PartialEq, Eq, Structural)]
pub enum LttPhase {
    /// Linear models.
    Linear,
    /// Weights of the linear model.
    Shrinkage,
    /// Trees.
    Trees,
    /// Dampings.
    Joint,
    /// The final score.
    Score,
    /// No linear model explained anything.
    Failed,
    /// All is done.
    Done,
}

/// The position of the linear model that explains most among the first `n`; the
/// first one where several explain as much. One that explains nothing that can be
/// told, or infinitely less than nothing, does not count.
pub open spec fn best_linear(trials: Seq<LinearTrial>, n: nat) -> Option<int>
    decreases n,
{
    if n == 0 {
        None
    } else {
        let before = best_linear(trials, (n - 1) as nat);
        let bar = match before {
            Some(i) => trials[i].r2,
            None => F32 { bits: F32_NEG_INFINITY },
        };
        if bar.less(trials[n - 1].r2) {
            Some(n - 1)
        } else {
            before
        }
    }
}

/// The position of the smallest of the first `n` errors; the first one where
/// several are as small.
pub open spec fn smallest(errors: Seq<F32>, n: nat) -> int
    decreases n,
{
    if n <= 1 {
        0
    } else {
        let before = smallest(errors, (n - 1) as nat);
        if errors[n - 1].less(errors[before]) {
            n - 1
        } else {
            before
        }
    }
}

/// The damping with the smallest error among the first `n` trials, or `start`
/// where no error is smaller than infinite.
pub open spec fn best_damping(trials: Seq<JointTrial>, start: F32, n: nat) -> (F32, F32)
    decreases n,
{
    if n == 0 {
        (start, F32 { bits: F32_INFINITY })
    } else {
        let before = best_damping(trials, start, (n - 1) as nat);
        if trials[n - 1].combined_rmse.less(before.1) {
            (trials[n - 1].extrapolation_damping, trials[n - 1].combined_rmse)
        } else {
            before
        }
    }
}

/// A run.
#[derive(Debug)]
pub struct LttRun<'a> {
    config: &'a LttTunerConfig,
    phase: LttPhase,
    history: LttTuningHistory,
    errors: Vec<F32>,
    linear: LinearHyperparams,
    linear_r2: F32,
    linear_trial: usize,
    damped: (F32, F32),
    tree: TreeHyperparams,
    final_rmse: F32,
}

/// The linear model that the trials of linear models decide on.
pub open spec fn linear_choice(trials: Seq<LinearTrial>, shrinkage: F32) -> LinearHyperparams {
    let best = trials[best_linear(trials, trials.len())->0];
    LinearHyperparams {
        lambda: best.lambda,
        l1_ratio: best.l1_ratio,
        shrinkage_factor: shrinkage,
        extrapolation_damping: F32 { bits: F32_ZERO },
    }
}

/// The weight that the errors decide on: the one with the smallest error, or the
/// only one.
pub open spec fn shrinkage_choice(values: Seq<F32>, errors: Seq<F32>) -> F32 {
    if values.len() == 0 {
        F32 { bits: DEFAULT_LTT_SHRINKAGE }
    } else if values.len() == 1 {
        values[0]
    } else {
        values[smallest(errors, errors.len())]
    }
}

/// Whether trials of linear models were made with the combinations of the
/// values, the last values varying fastest.
pub open spec fn follows_grid(trials: Seq<LinearTrial>, lambdas: Seq<F32>, ratios: Seq<F32>) -> bool {
    forall|i: int|
        0 <= i < trials.len() ==> (#[trigger] trials[i]).lambda == lambdas[i / (ratios.len() as int)] && trials[i].l1_ratio
            == ratios[i % (ratios.len() as int)]
}

/// Whether trials were made with the dampings in order.
pub open spec fn follows_dampings(trials: Seq<JointTrial>, dampings: Seq<F32>) -> bool {
    forall|i: int| 0 <= i < trials.len() ==> (#[trigger] trials[i]).extrapolation_damping == dampings[i]
}

/// How many linear models are trained.
pub open spec fn linear_total(config: LttTunerConfig) -> int {
    (config.lambda_values@.len() * config.l1_ratio_values@.len()) as int
}

impl<'a> LttRun<'a> {
    /// What is tried.
    pub closed spec fn settings(self) -> LttTunerConfig {
        *self.config
    }

    /// The phase of the run.
    pub closed spec fn stage(self) -> LttPhase {
        self.phase
    }

    /// The trials of linear models.
    pub closed spec fn linear_trials(self) -> Seq<LinearTrial> {
        self.history.linear_trials@
    }

    /// The trials of trees.
    pub closed spec fn tree_trials(self) -> Seq<TreeTrial> {
        self.history.tree_trials@
    }

    /// The trials of dampings.
    pub closed spec fn joint_trials(self) -> Seq<JointTrial> {
        self.history.joint_trials@
    }

    /// The errors of the weights.
    pub closed spec fn probe_errors(self) -> Seq<F32> {
        self.errors@
    }

    /// The linear model so far.
    pub closed spec fn linear_model(self) -> LinearHyperparams {
        self.linear
    }

    /// The trees so far.
    pub closed spec fn trees(self) -> TreeHyperparams {
        self.tree
    }

    /// The final score so far.
    pub closed spec fn score(self) -> F32 {
        self.final_rmse
    }

    /// Whether the linear model is what the trials so far decide on.
    pub open spec fn linear_decided(self) -> bool {
        let trials = self.linear_trials();
        &&& trials.len() == linear_total(self.settings())
        &&& best_linear(trials, trials.len()) is Some
        &&& ({
            let shrinkage = shrinkage_choice(self.settings().shrinkage_factor_values@, self.probe_errors());
            let decided = linear_choice(trials, shrinkage);
            self.linear_model() == match self.stage() {
                LttPhase::Shrinkage => linear_choice(trials, F32 { bits: DEFAULT_LTT_SHRINKAGE }),
                LttPhase::Joint => decided,
                LttPhase::Score | LttPhase::Done => LinearHyperparams {
                    extrapolation_damping: best_damping(
                        self.joint_trials(),
                        F32 { bits: F32_ZERO },
                        self.joint_trials().len(),
                    ).0,
                    ..decided
                },
                _ => decided,
            }
        })
    }

    /// Whether the run is in order: the trials follow what is tried, none is made
    /// before its phase, and what was decided follows from them.
    pub closed spec fn wf(self) -> bool {
        let config = *self.config;
        let weights = config.shrinkage_factor_values@.len();
        let dampings = config.extrapolation_damping_values@.len();
        &&& config.problem() is None
        &&& linear_total(config) <= usize::MAX
        &&& follows_grid(self.history.linear_trials@, config.lambda_values@, config.l1_ratio_values@)
        &&& follows_dampings(self.history.joint_trials@, config.extrapolation_damping_values@)
        &&& forall|i: int| 0 <= i < self.errors@.len() ==> !(#[trigger] self.errors@[i]).nan()
        &&& self.history.linear_trials@.len() > 0 && best_linear(
            self.history.linear_trials@,
            self.history.linear_trials@.len(),
        ) is Some ==> {
            &&& self.linear_trial == best_linear(self.history.linear_trials@, self.history.linear_trials@.len())->0
            &&& self.linear_trial < self.history.linear_trials@.len()
            &&& self.linear_r2 == self.history.linear_trials@[self.linear_trial as int].r2
        }
        &&& best_linear(self.history.linear_trials@, self.history.linear_trials@.len()) is None ==> self.linear_r2 == (
        F32 { bits: F32_NEG_INFINITY })
        &&& self.damped == best_damping(
            self.history.joint_trials@,
            F32 { bits: F32_ZERO },
            self.history.joint_trials@.len(),
        )
        &&& match self.phase {
            LttPhase::Linear => {
                &&& self.history.linear_trials@.len() < linear_total(config)
                &&& self.errors@.len() == 0
                &&& self.history.joint_trials@.len() == 0
            },
            LttPhase::Failed => {
                &&& self.history.linear_trials@.len() == linear_total(config)
                &&& best_linear(self.history.linear_trials@, self.history.linear_trials@.len()) is None
                &&& self.errors@.len() == 0
                &&& self.history.joint_trials@.len() == 0
            },
            LttPhase::Shrinkage => {
                &&& self.linear_decided()
                &&& weights > 1
                &&& self.errors@.len() < weights
                &&& self.history.joint_trials@.len() == 0
            },
            LttPhase::Trees => {
                &&& self.linear_decided()
                &&& weights > 1 ==> self.errors@.len() == weights
                &&& self.history.joint_trials@.len() == 0
            },
            LttPhase::Joint => {
                &&& self.linear_decided()
                &&& weights > 1 ==> self.errors@.len() == weights
                &&& config.enable_joint_refinement
                &&& self.history.joint_trials@.len() < dampings
            },
            LttPhase::Score | LttPhase::Done => {
                &&& self.linear_decided()
                &&& weights > 1 ==> self.errors@.len() == weights
                &&& self.history.joint_trials@.len() == if config.enable_joint_refinement {
                    dampings
                } else {
                    0
                }
            },
        }
    }

    /// What comes next.
    pub open spec fn next(self) -> LttStep {
        let config = self.settings();
        match self.stage() {
            LttPhase::Linear => {
                let i = self.linear_trials().len() as int;
                let width = config.l1_ratio_values@.len() as int;
                LttStep::FitLinear {
                    lambda: config.lambda_values@[i / width],
                    l1_ratio: config.l1_ratio_values@[i % width],
                }
            },
            LttPhase::Shrinkage => LttStep::ProbeShrinkage {
                shrinkage: config.shrinkage_factor_values@[self.probe_errors().len() as int],
            },
            LttPhase::Trees => LttStep::SearchTrees,
            LttPhase::Joint => LttStep::FitDamping {
                damping: config.extrapolation_damping_values@[self.joint_trials().len() as int],
            },
            LttPhase::Score => LttStep::ScoreBoth,
            LttPhase::Failed => LttStep::GiveUp,
            LttPhase::Done => LttStep::Finish,
        }
    }

    /// A run that has not begun.
    pub fn start(config: &'a LttTunerConfig) -> (run: LttRun<'a>)
        requires
            config.problem() is None,
            linear_total(*config) <= usize::MAX,
        ensures
            run.wf(),
            run.settings() == *config,
            run.stage() == LttPhase::Linear,
            run.linear_trials().len() == 0,
            run.probe_errors().len() == 0,
            run.tree_trials().len() == 0,
            run.joint_trials().len() == 0,
    {
        proof {
            assert(linear_total(*config) > 0) by (nonlinear_arith)
                requires
                    config.lambda_values@.len() > 0,
                    config.l1_ratio_values@.len() > 0,
                    linear_total(*config) == config.lambda_values@.len() * config.l1_ratio_values@.len(),
            ;
        }
        LttRun {
            config,
            phase: LttPhase::Linear,
            history: LttTuningHistory::default(),
            errors: Vec::new(),
            linear: LinearHyperparams::default(),
            linear_r2: F32 { bits: F32_NEG_INFINITY },
            linear_trial: 0,
            damped: (F32 { bits: F32_ZERO }, F32 { bits: F32_INFINITY }),
            tree: TreeHyperparams::default(),
            final_rmse: F32 { bits: F32_INFINITY },
        }
    }

    /// What comes next.
    pub fn step(&self) -> (step: LttStep)
        requires
            self.wf(),
        ensures
            step == self.next(),
    {
        match self.phase {
            LttPhase::Linear => {
                let i: usize = self.history.linear_trials.len();
                let width: usize = self.config.l1_ratio_values.len();
                proof {
                    lemma_in_grid(i as int, self.config.lambda_values@.len() as int, width as int);
                }
                LttStep::FitLinear {
                    lambda: self.config.lambda_values[i / width],
                    l1_ratio: self.config.l1_ratio_values[i % width],
                }
            },
            LttPhase::Shrinkage => LttStep::ProbeShrinkage {
                shrinkage: self.config.shrinkage_factor_values[self.errors.len()],
            },
            LttPhase::Trees => LttStep::SearchTrees,
            LttPhase::Joint => LttStep::FitDamping {
                damping: self.config.extrapolation_damping_values[self.history.joint_trials.len()],
            },
            LttPhase::Score => LttStep::ScoreBoth,
            LttPhase::Failed => LttStep::GiveUp,
            LttPhase::Done => LttStep::Finish,
        }
    }

    /// Records how the linear model did that came next. After the last one the
    /// best is chosen: the run gives up where there is none, and goes on to the
    /// weights, or to the trees where there is only one weight.
    pub fn record_linear(&mut self, r2: F32, rmse: F32)
        requires
            old(self).wf(),
            old(self).stage() == LttPhase::Linear,
        ensures
            final(self).wf(),
            final(self).settings() == old(self).settings(),
            final(self).probe_errors() == old(self).probe_errors(),
            final(self).tree_trials() == old(self).tree_trials(),
            final(self).joint_trials() == old(self).joint_trials(),
            old(self).next() matches LttStep::FitLinear { lambda, l1_ratio } && final(self).linear_trials() == old(
                self,
            ).linear_trials().push(LinearTrial { lambda, l1_ratio, r2, rmse }),
            ({
                let trials = final(self).linear_trials();
                final(self).stage() == if trials.len() < linear_total(final(self).settings()) {
                    LttPhase::Linear
                } else if best_linear(trials, trials.len()) is None {
                    LttPhase::Failed
                } else if final(self).settings().shrinkage_factor_values@.len() > 1 {
                    LttPhase::Shrinkage
                } else {
                    LttPhase::Trees
                }
            }),
            final(self).stage() != LttPhase::Linear && final(self).stage() != LttPhase::Failed
                ==> final(self).linear_decided(),
    {
        let i: usize = self.history.linear_trials.len();
        let width: usize = self.config.l1_ratio_values.len();
        let rows: usize = self.config.lambda_values.len();
        let ghost before = self.history.linear_trials@;
        proof {
            lemma_in_grid(i as int, rows as int, width as int);
            assert(rows * width >= 0) by (nonlinear_arith);
        }
        let lambda: F32 = self.config.lambda_values[i / width];
        let l1_ratio: F32 = self.config.l1_ratio_values[i % width];
        self.history.linear_trials.push(LinearTrial { lambda, l1_ratio, r2, rmse });
        let ghost trials = self.history.linear_trials@;
        proof {
            lemma_best_linear_prefix(before, trials, before.len());
            assert(trials.len() == before.len() + 1);
            assert(trials[i as int].r2 == r2);
        }
        if self.linear_r2.lt(r2) {
            self.linear_r2 = r2;
            self.linear_trial = i;
        }
        let total: usize = rows * width;
        if i + 1 < total {
            return;
        }
        let neg_infinity = F32 { bits: F32_NEG_INFINITY };
        proof {
            lemma_best_linear_bar(trials, trials.len());
        }
        if !neg_infinity.lt(self.linear_r2) {
            self.phase = LttPhase::Failed;
            return;
        }
        let best: LinearTrial = self.history.linear_trials[self.linear_trial];
        let weights: usize = self.config.shrinkage_factor_values.len();
        let shrinkage: F32 = if weights == 1 {
            self.config.shrinkage_factor_values[0]
        } else {
            F32 { bits: DEFAULT_LTT_SHRINKAGE }
        };
        self.linear = LinearHyperparams {
            lambda: best.lambda,
            l1_ratio: best.l1_ratio,
            shrinkage_factor: shrinkage,
            extrapolation_damping: F32 { bits: F32_ZERO },
        };
        self.phase = if weights > 1 {
            LttPhase::Shrinkage
        } else {
            LttPhase::Trees
        };
    }

    /// The number of the trial of the best linear model, whose predictions the
    /// trees build on.
    pub fn best_linear_trial(&self) -> (trial: usize)
        requires
            self.wf(),
            self.stage() != LttPhase::Linear,
            self.stage() != LttPhase::Failed,
        ensures
            best_linear(self.linear_trials(), self.linear_trials().len()) == Some(trial as int),
            trial < self.linear_trials().len(),
    {
        self.linear_trial
    }

    /// Records the error of the weight that came next: the root mean squared
    /// error, on the validation rows, of the weighted linear predictions and
    /// what the trees add. After the last one the weight with the smallest
    /// error is chosen.
    pub fn record_probe(&mut self, rmse: F32)
        requires
            old(self).wf(),
            old(self).stage() == LttPhase::Shrinkage,
            !rmse.nan(),
        ensures
            final(self).wf(),
            final(self).settings() == old(self).settings(),
            final(self).linear_trials() == old(self).linear_trials(),
            final(self).tree_trials() == old(self).tree_trials(),
            final(self).joint_trials() == old(self).joint_trials(),
            final(self).linear_decided(),
            final(self).probe_errors() == old(self).probe_errors().push(rmse),
            final(self).stage() == if final(self).probe_errors().len()
                < final(self).settings().shrinkage_factor_values@.len() {
                LttPhase::Shrinkage
            } else {
                LttPhase::Trees
            },
            final(self).stage() == LttPhase::Trees ==> {
                let values = final(self).settings().shrinkage_factor_values@;
                let errors = final(self).probe_errors();
                exists|k: int|
                    {
                        &&& 0 <= k < values.len() == errors.len()
                        &&& final(self).linear_model().shrinkage_factor == #[trigger] values[k]
                        &&& forall|i: int| 0 <= i < errors.len() ==> errors[k].at_most(#[trigger] errors[i])
                    }
            },
    {
        self.errors.push(rmse);
        let weights: usize = self.config.shrinkage_factor_values.len();
        if self.errors.len() < weights {
            return;
        }
        let mut best: usize = 0;
        let mut i: usize = 1;
        while i < weights
            invariant
                1 <= i <= weights == self.errors@.len(),
                best < i,
                best == smallest(self.errors@, i as nat),
            decreases weights - i,
        {
            if self.errors[i].lt(self.errors[best]) {
                best = i;
            }
            i = i + 1;
        }
        self.linear = LinearHyperparams {
            shrinkage_factor: self.config.shrinkage_factor_values[best],
            ..self.linear
        };
        self.phase = LttPhase::Trees;
        proof {
            lemma_smallest(self.errors@, self.errors@.len());
            assert(self.linear.shrinkage_factor == self.config.shrinkage_factor_values@[best as int]);
        }
    }

    /// Records what the search for the trees came to.
    pub fn record_trees(&mut self, best: TreeHyperparams, trials: Vec<TreeTrial>)
        requires
            old(self).wf(),
            old(self).stage() == LttPhase::Trees,
        ensures
            final(self).wf(),
            final(self).settings() == old(self).settings(),
            final(self).linear_trials() == old(self).linear_trials(),
            final(self).probe_errors() == old(self).probe_errors(),
            final(self).joint_trials() == old(self).joint_trials(),
            final(self).linear_model() == old(self).linear_model(),
            final(self).tree_trials() == trials@,
            final(self).trees() == best,
            final(self).stage() == if final(self).settings().enable_joint_refinement {
                LttPhase::Joint
            } else {
                LttPhase::Score
            },
    {
        self.tree = best;
        self.history.tree_trials = trials;
        self.phase = if self.config.enable_joint_refinement {
            LttPhase::Joint
        } else {
            LttPhase::Score
        };
        assert(self.history.joint_trials@.len() == 0);
    }

    /// Records the error at the damping that came next. After the last one the
    /// damping with the smallest error is chosen.
    pub fn record_damping(&mut self, rmse: F32)
        requires
            old(self).wf(),
            old(self).stage() == LttPhase::Joint,
        ensures
            final(self).wf(),
            final(self).settings() == old(self).settings(),
            final(self).linear_trials() == old(self).linear_trials(),
            final(self).probe_errors() == old(self).probe_errors(),
            final(self).tree_trials() == old(self).tree_trials(),
            final(self).trees() == old(self).trees(),
            final(self).linear_decided(),
            old(self).next() matches LttStep::FitDamping { damping } && final(self).joint_trials() == old(
                self,
            ).joint_trials().push(JointTrial { extrapolation_damping: damping, combined_rmse: rmse }),
            final(self).stage() == if final(self).joint_trials().len()
                < final(self).settings().extrapolation_damping_values@.len() {
                LttPhase::Joint
            } else {
                LttPhase::Score
            },
    {
        let i: usize = self.history.joint_trials.len();
        let damping: F32 = self.config.extrapolation_damping_values[i];
        let ghost before = self.history.joint_trials@;
        self.history.joint_trials.push(JointTrial { extrapolation_damping: damping, combined_rmse: rmse });
        proof {
            lemma_best_damping_prefix(before, self.history.joint_trials@, F32 { bits: F32_ZERO }, before.len());
        }
        if rmse.lt(self.damped.1) {
            self.damped = (damping, rmse);
        }
        if self.history.joint_trials.len() == self.config.extrapolation_damping_values.len() {
            self.linear = LinearHyperparams { extrapolation_damping: self.damped.0, ..self.linear };
            self.phase = LttPhase::Score;
        }
    }

    /// Records the error of both parts together.
    pub fn record_score(&mut self, rmse: F32)
        requires
            old(self).wf(),
            old(self).stage() == LttPhase::Score,
        ensures
            final(self).wf(),
            final(self).settings() == old(self).settings(),
            final(self).linear_trials() == old(self).linear_trials(),
            final(self).tree_trials() == old(self).tree_trials(),
            final(self).joint_trials() == old(self).joint_trials(),
            final(self).probe_errors() == old(self).probe_errors(),
            final(self).linear_model() == old(self).linear_model(),
            final(self).trees() == old(self).trees(),
            final(self).score() == rmse,
            final(self).stage() == LttPhase::Done,
    {
        self.final_rmse = rmse;
        self.phase = LttPhase::Done;
    }

    /// The linear model that was decided on.
    pub fn linear_params(&self) -> (params: LinearHyperparams)
        ensures
            params == self.linear_model(),
    {
        self.linear
    }

    /// How much of the variance the best linear model explains.
    pub fn linear_r2(&self) -> (r2: F32)
        requires
            self.wf(),
            self.stage() != LttPhase::Linear,
            self.stage() != LttPhase::Failed,
        ensures
            r2 == self.linear_trials()[best_linear(self.linear_trials(), self.linear_trials().len())->0].r2,
    {
        self.linear_r2
    }

    /// The trees that were decided on.
    pub fn tree_params(&self) -> (params: TreeHyperparams)
        ensures
            params == self.trees(),
    {
        self.tree
    }

    /// The error of both parts together.
    pub fn final_rmse(&self) -> (rmse: F32)
        ensures
            rmse == self.score(),
    {
        self.final_rmse
    }

    /// All trials.
    pub fn into_history(self) -> (history: LttTuningHistory)
        ensures
            history.linear_trials@ == self.linear_trials(),
            history.tree_trials@ == self.tree_trials(),
            history.joint_trials@ == self.joint_trials(),
    {
        self.history
    }
}

proof fn lemma_in_grid(i: int, rows: int, width: int)
    requires
        0 <= i < rows * width,
        width > 0,
    ensures
        0 <= i / width < rows,
        0 <= i % width < width,
{
    vstd::arithmetic::div_mod::lemma_fundamental_div_mod(i, width);
    vstd::arithmetic::div_mod::lemma_div_pos_is_pos(i, width);
    assert(i / width < rows) by (nonlinear_arith)
        requires
            i < rows * width,
            i == width * (i / width) + i % width,
            i % width >= 0,
            width > 0,
    ;
}

proof fn lemma_best_linear_prefix(short: Seq<LinearTrial>, long: Seq<LinearTrial>, n: nat)
    requires
        n <= short.len() <= long.len(),
        forall|i: int| 0 <= i < short.len() ==> short[i] == #[trigger] long[i],
    ensures
        best_linear(short, n) == best_linear(long, n),
        best_linear(short, n) matches Some(i) ==> 0 <= i < n,
    decreases n,
{
    if n > 0 {
        lemma_best_linear_prefix(short, long, (n - 1) as nat);
        assert(short[n - 1] == long[n - 1]);
        match best_linear(short, (n - 1) as nat) {
            Some(i) => {
                assert(short[i] == long[i]);
            },
            None => {},
        }
    }
}

proof fn lemma_best_linear_bar(trials: Seq<LinearTrial>, n: nat)
    requires
        n <= trials.len(),
    ensures
        best_linear(trials, n) matches Some(i) ==> 0 <= i < n && (F32 { bits: F32_NEG_INFINITY }).less(trials[i].r2),
    decreases n,
{
    if n > 0 {
        lemma_best_linear_bar(trials, (n - 1) as nat);
    }
}

proof fn lemma_best_damping_prefix(short: Seq<JointTrial>, long: Seq<JointTrial>, start: F32, n: nat)
    requires
        n <= short.len() <= long.len(),
        forall|i: int| 0 <= i < short.len() ==> short[i] == #[trigger] long[i],
    ensures
        best_damping(short, start, n) == best_damping(long, start, n),
    decreases n,
{
    if n > 0 {
        lemma_best_damping_prefix(short, long, start, (n - 1) as nat);
        assert(short[n - 1] == long[n - 1]);
    }
}

/// The best linear model explains at least as much as any other, and more than
/// any before it, if what each explains can be told.
pub proof fn law_best_linear_explains_most(trials: Seq<LinearTrial>, i: int)
    requires
        forall|j: int| 0 <= j < trials.len() ==> !(#[trigger] trials[j]).r2.nan(),
        0 <= i < trials.len(),
        best_linear(trials, trials.len()) is Some,
    ensures
        ({
            let best = best_linear(trials, trials.len())->0;
            &&& 0 <= best < trials.len()
            &&& trials[i].r2.at_most(trials[best].r2)
            &&& i < best ==> trials[i].r2.less(trials[best].r2)
        }),
{
    lemma_best_linear_is_largest(trials, trials.len());
}

proof fn lemma_best_linear_is_largest(trials: Seq<LinearTrial>, n: nat)
    requires
        forall|j: int| 0 <= j < trials.len() ==> !(#[trigger] trials[j]).r2.nan(),
        n <= trials.len(),
    ensures
        match best_linear(trials, n) {
            Some(best) => {
                &&& 0 <= best < n
                &&& forall|i: int| 0 <= i < n ==> (#[trigger] trials[i]).r2.at_most(trials[best].r2)
                &&& forall|i: int| 0 <= i < best ==> (#[trigger] trials[i]).r2.less(trials[best].r2)
            },
            None => forall|i: int| 0 <= i < n ==> (#[trigger] trials[i]).r2.at_most(F32 { bits: F32_NEG_INFINITY }),
        },
    decreases n,
{
    if n > 0 {
        lemma_best_linear_is_largest(trials, (n - 1) as nat);
        assert(!trials[n - 1].r2.nan());
    }
}

/// The chosen weight is the one that was tried with the smallest error: it stands
/// at a position whose error is at most every other error, and less than every
/// error before it.
pub proof fn law_chosen_weight_has_the_smallest_error(values: Seq<F32>, errors: Seq<F32>, i: int)
    requires
        values.len() > 1,
        errors.len() == values.len(),
        forall|j: int| 0 <= j < errors.len() ==> !(#[trigger] errors[j]).nan(),
        0 <= i < errors.len(),
    ensures
        values.contains(shrinkage_choice(values, errors)),
        errors[smallest(errors, errors.len())].at_most(errors[i]),
        i < smallest(errors, errors.len()) ==> errors[smallest(errors, errors.len())].less(errors[i]),
        exists|k: int|
            {
                &&& 0 <= k < values.len()
                &&& shrinkage_choice(values, errors) == #[trigger] values[k]
                &&& forall|j: int| 0 <= j < errors.len() ==> errors[k].at_most(#[trigger] errors[j])
                &&& forall|j: int| 0 <= j < k ==> errors[k].less(#[trigger] errors[j])
            },
{
    lemma_smallest(errors, errors.len());
    let k = smallest(errors, errors.len());
    assert(values[k] == shrinkage_choice(values, errors));
}

/// Where there is nothing to compare, the weight is the only one, or 0.7 where
/// none is given.
pub proof fn law_weight_without_probes(values: Seq<F32>, errors: Seq<F32>)
    requires
        values.len() <= 1,
    ensures
        values.len() == 1 ==> shrinkage_choice(values, errors) == values[0],
        values.len() == 0 ==> shrinkage_choice(values, errors).bits == 0x3f33_3333,
{
}

proof fn lemma_smallest(errors: Seq<F32>, n: nat)
    requires
        forall|j: int| 0 <= j < errors.len() ==> !(#[trigger] errors[j]).nan(),
        0 < n <= errors.len(),
    ensures
        0 <= smallest(errors, n) < n,
        forall|i: int| 0 <= i < n ==> errors[smallest(errors, n)].at_most(#[trigger] errors[i]),
        forall|i: int| 0 <= i < smallest(errors, n) ==> errors[smallest(errors, n)].less(#[trigger] errors[i]),
    decreases n,
{
    if n > 1 {
        lemma_smallest(errors, (n - 1) as nat);
        assert(!errors[n - 1].nan());
    } else {
        assert(!errors[0].nan());
    }
}

/// No damping that was tried has a smaller error than the chosen one.
pub proof fn law_chosen_damping_has_the_smallest_error(trials: Seq<JointTrial>, start: F32, i: int)
    requires
        0 <= i < trials.len(),
    ensures
        !trials[i].combined_rmse.less(best_damping(trials, start, trials.len()).1),
        best_damping(trials, start, trials.len()).0 == start || exists|k: int|
            0 <= k < trials.len() && (#[trigger] trials[k]).extrapolation_damping == best_damping(
                trials,
                start,
                trials.len(),
            ).0 && trials[k].combined_rmse == best_damping(trials, start, trials.len()).1,
{
    lemma_damping(trials, start, trials.len());
}

proof fn lemma_damping(trials: Seq<JointTrial>, start: F32, n: nat)
    requires
        n <= trials.len(),
    ensures
        forall|i: int| 0 <= i < n ==> !(#[trigger] trials[i]).combined_rmse.less(best_damping(trials, start, n).1),
        !best_damping(trials, start, n).1.nan(),
        best_damping(trials, start, n).0 == start || exists|k: int|
            0 <= k < n && (#[trigger] trials[k]).extrapolation_damping == best_damping(trials, start, n).0
                && trials[k].combined_rmse == best_damping(trials, start, n).1,
    decreases n,
{
    if n > 0 {
        lemma_damping(trials, start, (n - 1) as nat);
        let before = best_damping(trials, start, (n - 1) as nat);
        let after = best_damping(trials, start, n);
        if trials[n - 1].combined_rmse.less(before.1) {
            assert(trials[n - 1].extrapolation_damping == after.0 && trials[n - 1].combined_rmse == after.1);
        } else if before.0 != start {
            let k = choose|k: int|
                0 <= k < n - 1 && (#[trigger] trials[k]).extrapolation_damping == before.0 && trials[k].combined_rmse
                    == before.1;
            assert(trials[k].extrapolation_damping == after.0);
        }
    }
}

/// A finished run has tried every linear model, every weight where there are
/// several and every damping where they are tried, each with its own values, and
/// what it came to follows from that.
pub proof fn law_finished_run_has_tried_everything(run: LttRun<'_>)
    requires
        run.wf(),
        run.stage() == LttPhase::Done,
    ensures
        run.linear_trials().len() == linear_total(run.settings()),
        follows_grid(run.linear_trials(), run.settings().lambda_values@, run.settings().l1_ratio_values@),
        run.settings().shrinkage_factor_values@.len() > 1 ==> run.probe_errors().len()
            == run.settings().shrinkage_factor_values@.len(),
        run.joint_trials().len() == if run.settings().enable_joint_refinement {
            run.settings().extrapolation_damping_values@.len()
        } else {
            0
        },
        follows_dampings(run.joint_trials(), run.settings().extrapolation_damping_values@),
        run.linear_decided(),
{
}

/// What a run has decided once its linear models are trained, told by its
/// results alone. The regularization is that of a trial that explains more than
/// any before it and that no later one tops. The weight is the one whose probe
/// has the smallest error. The damping is the one with the smallest error of the
/// dampings that were tried, and 0 until they all were or where none has an
/// error below infinity.
pub proof fn law_decided_model_follows_the_results(run: LttRun<'_>)
    requires
        run.wf(),
        run.stage() != LttPhase::Linear,
        run.stage() != LttPhase::Failed,
    ensures
        ({
            let trials = run.linear_trials();
            exists|k: int|
                {
                    &&& 0 <= k < trials.len()
                    &&& run.linear_model().lambda == (#[trigger] trials[k]).lambda
                    &&& run.linear_model().l1_ratio == trials[k].l1_ratio
                    &&& !trials[k].r2.nan()
                    &&& trials[k].r2.bits != 0xff80_0000
                    &&& forall|i: int| 0 <= i < trials.len() ==> !trials[k].r2.less((#[trigger] trials[i]).r2)
                    &&& forall|i: int| 0 <= i < k ==> !trials[k].r2.at_most((#[trigger] trials[i]).r2)
                }
        }),
        run.settings().shrinkage_factor_values@.len() == 1 && run.stage() != LttPhase::Shrinkage
            ==> run.linear_model().shrinkage_factor == run.settings().shrinkage_factor_values@[0],
        run.settings().shrinkage_factor_values@.len() > 1 && run.stage() != LttPhase::Shrinkage ==> {
            let values = run.settings().shrinkage_factor_values@;
            let errors = run.probe_errors();
            exists|k: int|
                {
                    &&& 0 <= k < values.len() == errors.len()
                    &&& run.linear_model().shrinkage_factor == #[trigger] values[k]
                    &&& forall|i: int| 0 <= i < errors.len() ==> errors[k].at_most(#[trigger] errors[i])
                    &&& forall|i: int| 0 <= i < k ==> errors[k].less(#[trigger] errors[i])
                }
        },
        run.stage() != LttPhase::Score && run.stage() != LttPhase::Done
            ==> run.linear_model().extrapolation_damping.bits == 0,
        run.stage() == LttPhase::Score || run.stage() == LttPhase::Done ==> {
            let trials = run.joint_trials();
            let damping = run.linear_model().extrapolation_damping;
            let infinity = F32 { bits: 0x7f80_0000 };
            ||| damping.bits == 0 && forall|i: int|
                0 <= i < trials.len() ==> !(#[trigger] trials[i]).combined_rmse.less(infinity)
            ||| exists|k: int|
                {
                    &&& 0 <= k < trials.len()
                    &&& damping == (#[trigger] trials[k]).extrapolation_damping
                    &&& trials[k].combined_rmse.less(infinity)
                    &&& forall|i: int|
                        0 <= i < trials.len() ==> !(#[trigger] trials[i]).combined_rmse.less(trials[k].combined_rmse)
                    &&& forall|i: int|
                        0 <= i < k ==> !(#[trigger] trials[i]).combined_rmse.at_most(trials[k].combined_rmse)
                }
        },
{
    let trials = run.linear_trials();
    lemma_first_to_top_all(trials, trials.len());
    let k = best_linear(trials, trials.len())->0;
    assert(run.linear_model().lambda == trials[k].lambda);
    let values = run.settings().shrinkage_factor_values@;
    if values.len() > 1 && run.stage() != LttPhase::Shrinkage {
        law_chosen_weight_has_the_smallest_error(values, run.probe_errors(), 0);
    }
    let zero = F32 { bits: F32_ZERO };
    lemma_first_smallest_damping(run.joint_trials(), zero, run.joint_trials().len());
}

proof fn lemma_first_to_top_all(trials: Seq<LinearTrial>, n: nat)
    requires
        n <= trials.len(),
    ensures
        match best_linear(trials, n) {
            Some(best) => {
                &&& 0 <= best < n
                &&& !trials[best].r2.nan()
                &&& trials[best].r2.bits != F32_NEG_INFINITY
                &&& forall|i: int| 0 <= i < n ==> !trials[best].r2.less((#[trigger] trials[i]).r2)
                &&& forall|i: int| 0 <= i < best ==> !trials[best].r2.at_most((#[trigger] trials[i]).r2)
            },
            None => forall|i: int| 0 <= i < n ==> !(F32 { bits: F32_NEG_INFINITY }).less((#[trigger] trials[i]).r2),
        },
    decreases n,
{
    if n > 0 {
        lemma_first_to_top_all(trials, (n - 1) as nat);
    }
}

proof fn lemma_first_smallest_damping(trials: Seq<JointTrial>, start: F32, n: nat)
    requires
        n <= trials.len(),
    ensures
        ({
            let found = best_damping(trials, start, n);
            let infinity = F32 { bits: F32_INFINITY };
            &&& !found.1.nan()
            &&& forall|i: int| 0 <= i < n ==> !(#[trigger] trials[i]).combined_rmse.less(found.1)
            &&& found == (start, infinity) || exists|k: int|
                {
                    &&& 0 <= k < n
                    &&& found.0 == (#[trigger] trials[k]).extrapolation_damping
                    &&& found.1 == trials[k].combined_rmse
                    &&& found.1.less(infinity)
                    &&& forall|i: int| 0 <= i < k ==> !(#[trigger] trials[i]).combined_rmse.at_most(found.1)
                }
        }),
    decreases n,
{
    if n > 0 {
        lemma_first_smallest_damping(trials, start, (n - 1) as nat);
        let infinity = F32 { bits: F32_INFINITY };
        let before = best_damping(trials, start, (n - 1) as nat);
        let after = best_damping(trials, start, n);
        if trials[n - 1].combined_rmse.less(before.1) {
            assert(after.0 == trials[n - 1].extrapolation_damping);
            assert forall|i: int| 0 <= i < n - 1 implies !(#[trigger] trials[i]).combined_rmse.at_most(after.1) by {
                assert(!trials[i].combined_rmse.less(before.1));
            }
        } else if before != (start, infinity) {
            let k = choose|k: int|
                {
                    &&& 0 <= k < n - 1
                    &&& before.0 == (#[trigger] trials[k]).extrapolation_damping
                    &&& before.1 == trials[k].combined_rmse
                    &&& before.1.less(infinity)
                    &&& forall|i: int| 0 <= i < k ==> !(#[trigger] trials[i]).combined_rmse.at_most(before.1)
                };
            assert(after.0 == trials[k].extrapolation_damping);
        }
    }
}

/// Every combination of a regularization and a share of the L1 penalty is tried
/// once, in the order of the regularizations and, within one, of the shares; the
/// dampings are tried in their order.
pub proof fn law_trials_go_through_the_values(run: LttRun<'_>, a: int, b: int, d: int)
    requires
        run.wf(),
        run.stage() == LttPhase::Done,
        0 <= a < run.settings().lambda_values@.len(),
        0 <= b < run.settings().l1_ratio_values@.len(),
    ensures
        ({
            let ratios = run.settings().l1_ratio_values@;
            let lambdas = run.settings().lambda_values@;
            let at = a * ratios.len() + b;
            &&& run.linear_trials().len() == lambdas.len() * ratios.len()
            &&& 0 <= at < run.linear_trials().len()
            &&& run.linear_trials()[at].lambda == lambdas[a]
            &&& run.linear_trials()[at].l1_ratio == ratios[b]
        }),
        0 <= d < run.joint_trials().len() ==> run.joint_trials()[d].extrapolation_damping
            == run.settings().extrapolation_damping_values@[d],
{
    let width = run.settings().l1_ratio_values@.len() as int;
    let rows = run.settings().lambda_values@.len() as int;
    let at = a * width + b;
    assert(0 <= at < rows * width) by (nonlinear_arith)
        requires
            0 <= a < rows,
            0 <= b < width,
            at == a * width + b,
    ;
    vstd::arithmetic::div_mod::lemma_fundamental_div_mod_converse(at, width, a, b);
    assert(run.linear_trials()[at].lambda == run.settings().lambda_values@[at / width]);
}

/// How a run goes on: linear models until all are trained, probes only where
/// there are several weights, then trees, dampings only where they are asked
/// for, and one score. Each step hands out the value at the position of the
/// result that it waits for.
pub proof fn law_steps_hand_out_the_next_value(run: LttRun<'_>)
    requires
        run.wf(),
    ensures
        match run.next() {
            LttStep::FitLinear { lambda, l1_ratio } => {
                let done = run.linear_trials().len();
                let ratios = run.settings().l1_ratio_values@;
                let lambdas = run.settings().lambda_values@;
                &&& done < lambdas.len() * ratios.len()
                &&& exists|a: int, b: int|
                    0 <= a < lambdas.len() && 0 <= b < ratios.len() && done == a * ratios.len() + b && lambda
                        == #[trigger] lambdas[a] && l1_ratio == #[trigger] ratios[b]
            },
            LttStep::ProbeShrinkage { shrinkage } => {
                let done = run.probe_errors().len();
                &&& run.linear_trials().len() == run.settings().lambda_values@.len()
                    * run.settings().l1_ratio_values@.len()
                &&& done < run.settings().shrinkage_factor_values@.len()
                &&& run.settings().shrinkage_factor_values@.len() >= 2
                &&& shrinkage == run.settings().shrinkage_factor_values@[done as int]
            },
            LttStep::FitDamping { damping } => {
                let done = run.joint_trials().len();
                &&& run.settings().enable_joint_refinement
                &&& done < run.settings().extrapolation_damping_values@.len()
                &&& damping == run.settings().extrapolation_damping_values@[done as int]
            },
            LttStep::SearchTrees => run.stage() == LttPhase::Trees,
            LttStep::ScoreBoth => run.stage() == LttPhase::Score,
            LttStep::GiveUp => forall|i: int|
                0 <= i < run.linear_trials().len() ==> (#[trigger] run.linear_trials()[i]).r2.nan()
                    || run.linear_trials()[i].r2.bits == 0xff80_0000,
            LttStep::Finish => run.stage() == LttPhase::Done,
        },
{
    let trials = run.linear_trials();
    lemma_first_to_top_all(trials, trials.len());
    if run.stage() == LttPhase::Linear {
        let width = run.settings().l1_ratio_values@.len() as int;
        let rows = run.settings().lambda_values@.len() as int;
        let done = trials.len() as int;
        lemma_in_grid(done, rows, width);
        let a = done / width;
        let b = done % width;
        assert(done == a * width + b) by {
            vstd::arithmetic::div_mod::lemma_fundamental_div_mod(done, width);
            assert(width * (done / width) == (done / width) * width) by (nonlinear_arith);
        }
        assert(run.settings().lambda_values@[a] == run.settings().lambda_values@[a]);
        assert(run.settings().l1_ratio_values@[b] == run.settings().l1_ratio_values@[b]);
    }
    if run.stage() == LttPhase::Failed {
        assert forall|i: int| 0 <= i < trials.len() implies (#[trigger] trials[i]).r2.nan() || trials[i].r2.bits
            == 0xff80_0000 by {
            assert(!(F32 { bits: F32_NEG_INFINITY }).less(trials[i].r2));
        }
    }
}

} // verus!
