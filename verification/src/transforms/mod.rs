//! The transforms that pipelines are built from.

pub mod group_by_key;
pub mod impulse;
pub mod pardo;
pub mod testing;
