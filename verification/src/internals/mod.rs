//! Pipeline construction.

pub mod pipeline;
pub mod pvalue;
pub mod serialize;
pub mod utils;
