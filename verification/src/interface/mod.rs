//! What scripts ask for: names and values, checked before they are used.

pub mod arrays;
pub mod check_laws;
pub mod data;
pub mod name_laws;
pub mod names;
pub mod repr;
pub mod repr_laws;
pub mod settings;
pub mod tuner_setup;
pub mod tuning;
