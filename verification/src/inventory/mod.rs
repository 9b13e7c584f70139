//! Deterministic, bounded source inventory construction.

pub mod read;
pub mod types;
pub mod walk;
