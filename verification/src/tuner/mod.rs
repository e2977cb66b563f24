//! Hyperparameter search: what is searched, how, and how trials compare.

pub mod bounds;
pub mod bounds_laws;
pub mod config;
pub mod grid;
pub mod grid_laws;
pub mod ltt;
pub mod ltt_laws;
pub mod ltt_run;
pub mod ltt_tuner;
pub mod metrics;
pub mod metrics_laws;
pub mod narrowing;
pub mod params;
pub mod past_runs;
pub mod past_runs_laws;
pub mod roc;
pub mod roc_laws;
pub mod sampling;
pub mod settings_laws;
pub mod space;
pub mod traits;
pub mod trial;
pub mod values;
