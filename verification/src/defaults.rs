//! Default settings. Fractions are given by the bits of the number.

use vstd::prelude::*;

verus! {

/// Seed of everything that draws lots.
pub const DEFAULT_SEED: u64 = 42;

/// Zoom iterations of a search.
pub const DEFAULT_N_ITERATIONS: usize = 5;

/// Zoom iterations of a trial run.
pub const SMOKE_TEST_N_ITERATIONS: usize = 1;

/// Zoom iterations of a quick search.
pub const QUICK_N_ITERATIONS: usize = 2;

/// Zoom iterations of a thorough search.
pub const THOROUGH_N_ITERATIONS: usize = 7;

/// Boosting rounds of a trial.
pub const DEFAULT_TUNER_ROUNDS: usize = 100;

/// Boosting rounds of a trial in a quick search.
pub const QUICK_TUNER_ROUNDS: usize = 50;

/// Boosting rounds of a trial in a thorough search.
pub const THOROUGH_TUNER_ROUNDS: usize = 200;

/// Rounds without improvement before a trial stops.
pub const DEFAULT_TUNER_EARLY_STOP: usize = 10;

/// Rounds without improvement before a trial of a quick search stops.
pub const QUICK_TUNER_EARLY_STOP: usize = 5;

/// Rounds without improvement before a trial of a thorough search stops.
pub const THOROUGH_TUNER_EARLY_STOP: usize = 20;

/// Share of the range that the first iteration looks at: 1.0.
pub const DEFAULT_INITIAL_SPREAD: u32 = 0x3f80_0000;

/// Share of the spread that the next iteration keeps: 0.8.
pub const DEFAULT_ZOOM_FACTOR: u32 = 0x3f4c_cccd;

/// Share of the rows that validate a trial: 0.2.
pub const DEFAULT_TUNER_VAL_RATIO: u32 = 0x3e4c_cccd;

/// Relative improvement below which a search stops: 0.001.
pub const DEFAULT_IMPROVEMENT_THRESHOLD: u32 = 0x3a83_126f;

/// Relative improvement below which a quick search stops: 0.01.
pub const QUICK_IMPROVEMENT_THRESHOLD: u32 = 0x3c23_d70a;

/// Relative improvement below which a thorough search stops: 0.0001.
pub const THOROUGH_IMPROVEMENT_THRESHOLD: u32 = 0x38d1_b717;

/// F1 score below which a classification search goes on: 0.8.
pub const DEFAULT_MIN_F1_SCORE: u32 = 0x3f4c_cccd;

/// Coverage of conformal intervals: 0.9.
pub const DEFAULT_QUANTILE: u32 = 0x3f66_6666;

/// Regularization of a linear model: 1.0.
pub const DEFAULT_LAMBDA: u32 = 0x3f80_0000;

/// Share of the L1 penalty in a linear model: 0.0.
pub const DEFAULT_L1_RATIO: u32 = 0;

/// Damping of a linear model outside its training range: 0.0.
pub const DEFAULT_EXTRAPOLATION_DAMPING: u32 = 0;

/// Weight of the linear model before trees: 0.7.
pub const DEFAULT_LTT_SHRINKAGE: u32 = 0x3f33_3333;

/// Share of the rows that validate a linear model with trees: 0.2.
pub const DEFAULT_LTT_VAL_RATIO: u32 = 0x3e4c_cccd;

/// Learning rate of trees: 0.1.
pub const DEFAULT_LEARNING_RATE: u32 = 0x3dcc_cccd;

/// R2 from which a linear model counts as strong: 0.8.
pub const STRONG_LINEAR_R2: u32 = 0x3f4c_cccd;

/// R2 below which a linear model counts as weak: 0.3.
pub const WEAK_LINEAR_R2: u32 = 0x3e99_999a;

/// Smallest weight of a strong linear model: 0.7.
pub const HIGH_SHRINKAGE_MIN: u32 = 0x3f33_3333;

/// Largest weight of a weak linear model: 0.5.
pub const LOW_SHRINKAGE_MAX: u32 = 0x3f00_0000;

/// Variance of residuals from which it counts as high: 1.0.
pub const HIGH_VARIANCE_THRESHOLD: u32 = 0x3f80_0000;

/// Learning rate below which training counts as slow: 0.01.
pub const MIN_LR_THRESHOLD: u32 = 0x3c23_d70a;

/// Learning rate of the trees that probe a weight: 0.1.
pub const SHRINKAGE_PROBE_LR: u32 = 0x3dcc_cccd;

/// Depth of trees.
pub const DEFAULT_MAX_DEPTH: u32 = 6;

/// Depth from which trees count as deep.
pub const MAX_DEPTH_THRESHOLD: u32 = 10;

/// Rounds of the trees that probe a weight.
pub const SHRINKAGE_PROBE_ROUNDS: usize = 20;

/// Depth of the trees that probe a weight.
pub const SHRINKAGE_PROBE_DEPTH: usize = 3;

/// Fewest rows in a leaf of the trees that probe a weight.
pub const SHRINKAGE_PROBE_MIN_SAMPLES_LEAF: usize = 5;

/// Bins of the trees that probe a weight.
pub const SHRINKAGE_PROBE_BINS: usize = 64;

/// Regularizations: 0.01, 0.1, 1.0, 10.0.
pub const DEFAULT_LAMBDA_GRID: [u32; 4] = [0x3c23_d70a, 0x3dcc_cccd, 0x3f80_0000, 0x4120_0000];

/// L1 shares: 0.0, 0.5, 1.0.
pub const DEFAULT_L1_RATIO_GRID: [u32; 3] = [0, 0x3f00_0000, 0x3f80_0000];

/// Depths.
pub const DEFAULT_MAX_DEPTH_GRID: [u32; 3] = [4, 6, 8];

/// Learning rates: 0.01, 0.05, 0.1.
pub const DEFAULT_LR_GRID: [u32; 3] = [0x3c23_d70a, 0x3d4c_cccd, 0x3dcc_cccd];

/// Boosting rounds.
pub const DEFAULT_ROUNDS_GRID: [u32; 3] = [200, 500, 1000];

/// Row shares: 0.6, 0.8, 1.0.
pub const DEFAULT_SUBSAMPLE_GRID: [u32; 3] = [0x3f19_999a, 0x3f4c_cccd, 0x3f80_0000];

/// Column shares: 0.6, 0.8, 1.0.
pub const DEFAULT_COLSAMPLE_GRID: [u32; 3] = [0x3f19_999a, 0x3f4c_cccd, 0x3f80_0000];

/// Weights of the linear model: 0.3, 0.5, 0.7, 0.9, 1.0.
pub const DEFAULT_SHRINKAGE_GRID: [u32; 5] = [0x3e99_999a, 0x3f00_0000, 0x3f33_3333, 0x3f66_6666, 0x3f80_0000];

/// Dampings: 0.0, 0.1, 0.2.
pub const DEFAULT_EXTRAPOLATION_DAMPING_GRID: [u32; 3] = [0, 0x3dcc_cccd, 0x3e4c_cccd];

/// Regularizations of a quick search: 0.1, 1.0.
pub const QUICK_LAMBDA_GRID: [u32; 2] = [0x3dcc_cccd, 0x3f80_0000];

/// L1 shares of a quick search: 0.0, 0.5.
pub const QUICK_L1_RATIO_GRID: [u32; 2] = [0, 0x3f00_0000];

/// Depths of a quick search.
pub const QUICK_MAX_DEPTH_GRID: [u32; 2] = [4, 6];

/// Learning rates of a quick search: 0.05, 0.1.
pub const QUICK_LR_GRID: [u32; 2] = [0x3d4c_cccd, 0x3dcc_cccd];

/// Boosting rounds of a quick search.
pub const QUICK_ROUNDS_GRID: [u32; 2] = [200, 500];

/// Row shares of a quick search: 0.8, 1.0.
pub const QUICK_SUBSAMPLE_GRID: [u32; 2] = [0x3f4c_cccd, 0x3f80_0000];

/// Column shares of a quick search: 0.8, 1.0.
pub const QUICK_COLSAMPLE_GRID: [u32; 2] = [0x3f4c_cccd, 0x3f80_0000];

/// Weights of the linear model of a quick search: 0.5, 0.7, 1.0.
pub const QUICK_SHRINKAGE_GRID: [u32; 3] = [0x3f00_0000, 0x3f33_3333, 0x3f80_0000];

/// Dampings of a quick search: 0.0.
pub const QUICK_EXTRAPOLATION_DAMPING_GRID: [u32; 1] = [0];

/// Regularizations of a thorough search: 0.001, 0.01, 0.1, 1.0, 10.0.
pub const THOROUGH_LAMBDA_GRID: [u32; 5] = [0x3a83_126f, 0x3c23_d70a, 0x3dcc_cccd, 0x3f80_0000, 0x4120_0000];

/// L1 shares of a thorough search: 0.0, 0.25, 0.5, 0.75, 1.0.
pub const THOROUGH_L1_RATIO_GRID: [u32; 5] = [0, 0x3e80_0000, 0x3f00_0000, 0x3f40_0000, 0x3f80_0000];

/// Depths of a thorough search.
pub const THOROUGH_MAX_DEPTH_GRID: [u32; 5] = [3, 4, 6, 8, 10];

/// Learning rates of a thorough search: 0.01, 0.03, 0.05, 0.1.
pub const THOROUGH_LR_GRID: [u32; 4] = [0x3c23_d70a, 0x3cf5_c28f, 0x3d4c_cccd, 0x3dcc_cccd];

/// Boosting rounds of a thorough search.
pub const THOROUGH_ROUNDS_GRID: [u32; 4] = [200, 500, 1000, 2000];

/// Row shares of a thorough search: 0.6, 0.7, 0.8, 1.0.
pub const THOROUGH_SUBSAMPLE_GRID: [u32; 4] = [0x3f19_999a, 0x3f33_3333, 0x3f4c_cccd, 0x3f80_0000];

/// Column shares of a thorough search: 0.6, 0.7, 0.8, 1.0.
pub const THOROUGH_COLSAMPLE_GRID: [u32; 4] = [0x3f19_999a, 0x3f33_3333, 0x3f4c_cccd, 0x3f80_0000];

/// Weights of the linear model of a thorough search: 0.1, 0.3, 0.5, 0.7, 0.8, 0.9, 1.0.
pub const THOROUGH_SHRINKAGE_GRID: [u32; 7] = [0x3dcc_cccd, 0x3e99_999a, 0x3f00_0000, 0x3f33_3333, 0x3f4c_cccd, 0x3f66_6666, 0x3f80_0000];

/// Dampings of a thorough search: 0.0, 0.1, 0.2, 0.3.
pub const THOROUGH_EXTRAPOLATION_DAMPING_GRID: [u32; 4] = [0, 0x3dcc_cccd, 0x3e4c_cccd, 0x3e99_999a];

} // verus!
