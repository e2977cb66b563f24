//! A search as scripts set it up, step by step.

use crate::interface::settings::GbdtSettings;
use crate::tuner::config::{EvalStrategy, TunerConfig};
use crate::tuner::space::ParameterSpace;
use vstd::prelude::*;
use vstd::string::StringExecFns;

verus! {

/// What a search starts from. Settings that nobody touched are the default ones.
pub struct TunerSetup {
    /// The values of everything that is not tuned.
    pub base: GbdtSettings,
    /// The settings of the search, once one of them was set.
    pub config: Option<TunerConfig>,
    /// The seed, where one was set.
    pub seed: Option<u64>,
}

/// Whether settings are those that were made so far, or else the default ones.
pub open spec fn made_so_far(made: Option<TunerConfig>, config: TunerConfig) -> bool {
    match made {
        Some(settings) => config == settings,
        None => config.is_default(),
    }
}

/// The settings that were made so far, or else the default ones.
fn settings_so_far(made: Option<TunerConfig>) -> (config: TunerConfig)
    ensures
        made_so_far(made, config),
{
    match made {
        Some(settings) => settings,
        None => TunerConfig::default(),
    }
}

impl TunerSetup {
    /// Nothing set yet.
    pub fn new(base: GbdtSettings) -> (setup: TunerSetup)
        ensures
            setup == (TunerSetup { base, config: None, seed: None }),
    {
        TunerSetup { base, config: None, seed: None }
    }

    /// Sets all settings of the search.
    pub fn with_config(self, config: TunerConfig) -> (setup: TunerSetup)
        ensures
            setup == (TunerSetup { config: Some(config), ..self }),
    {
        TunerSetup { config: Some(config), ..self }
    }

    /// Sets what is tuned.
    pub fn with_space(self, space: ParameterSpace) -> (setup: TunerSetup)
        ensures
            exists|config: TunerConfig| #[trigger]
                made_so_far(self.config, config) && setup == (TunerSetup {
                    config: Some(TunerConfig { space, ..config }),
                    ..self
                }),
    {
        let config = settings_so_far(self.config);
        TunerSetup { base: self.base, config: Some(config.with_space(space)), seed: self.seed }
    }

    /// Sets the most zoom iterations.
    pub fn with_iterations(self, n: usize) -> (setup: TunerSetup)
        ensures
            exists|config: TunerConfig| #[trigger]
                made_so_far(self.config, config) && setup == (TunerSetup {
                    config: Some(TunerConfig { n_iterations: n, ..config }),
                    ..self
                }),
    {
        let config = settings_so_far(self.config);
        TunerSetup { base: self.base, config: Some(config.with_iterations(n)), seed: self.seed }
    }

    /// Sets how a candidate is evaluated.
    pub fn with_eval_strategy(self, strategy: EvalStrategy) -> (setup: TunerSetup)
        ensures
            exists|config: TunerConfig| #[trigger]
                made_so_far(self.config, config) && setup == (TunerSetup {
                    config: Some(TunerConfig { eval_strategy: strategy, ..config }),
                    ..self
                }),
    {
        let config = settings_so_far(self.config);
        TunerSetup { base: self.base, config: Some(config.with_eval_strategy(strategy)), seed: self.seed }
    }

    /// Sets whether trials run side by side.
    pub fn with_parallel(self, enabled: bool) -> (setup: TunerSetup)
        ensures
            exists|config: TunerConfig| #[trigger]
                made_so_far(self.config, config) && setup == (TunerSetup {
                    config: Some(TunerConfig { parallel_trials: enabled, ..config }),
                    ..self
                }),
    {
        let config = settings_so_far(self.config);
        TunerSetup { base: self.base, config: Some(config.with_parallel(enabled)), seed: self.seed }
    }

    /// Sets the seed.
    pub fn with_seed(self, seed: u64) -> (setup: TunerSetup)
        ensures
            setup == (TunerSetup { seed: Some(seed), ..self }),
    {
        TunerSetup { seed: Some(seed), ..self }
    }

    /// The settings that the search runs with: a seed that was set goes before the
    /// seed among the settings.
    pub fn run_config(self) -> (run: TunerConfig)
        ensures
            exists|config: TunerConfig| #[trigger]
                made_so_far(self.config, config) && run == (TunerConfig {
                    seed: match self.seed {
                        Some(seed) => seed,
                        None => config.seed,
                    },
                    ..config
                }),
    {
        let config = settings_so_far(self.config);
        match self.seed {
            Some(seed) => config.with_seed(seed),
            None => config,
        }
    }
}

/// What is said of a search that failed.
pub fn tuning_failure(reason: &str) -> (text: String)
    ensures
        text@ == "Tuning failed: "@ + reason@,
{
    let mut text: String = "Tuning failed: ".to_owned();
    text.append(reason);
    text
}

} // verus!
