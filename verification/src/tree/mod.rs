//! Decision trees: how splits are chosen and how trees grow.

pub mod era;
pub mod grow;
pub mod grower;
pub mod growth_laws;
pub mod leaf_laws;
pub mod node;
pub mod partition;
pub mod shape;
pub mod split;
pub mod split_laws;
