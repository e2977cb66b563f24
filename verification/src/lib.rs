//! Verified core of a gradient-boosted-tree library.

pub mod backend;
pub mod dataset;
pub mod defaults;
pub mod float;
pub mod float_int;
pub mod fractions;
pub mod interface;
pub mod seqs;
pub mod serialize;
pub mod sorting;
pub mod text;
pub mod tree;
pub mod tuner;
