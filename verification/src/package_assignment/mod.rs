//! Package assignment of sources and its canonical records.

pub mod apply;
pub mod records;
pub mod types;
