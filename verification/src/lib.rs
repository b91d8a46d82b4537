//! Core of the Apache Beam Rust SDK: element coders and pipeline construction.

pub mod urns;
pub mod varint;
pub mod assoc;
pub mod byte_buf;
pub mod coders;
pub mod text;
pub mod proto;
pub mod runners;
pub mod internals;
pub mod elem_types;
pub mod test_custom_coders;
pub mod transforms;
pub mod worker;
