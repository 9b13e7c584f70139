//! Deterministic metadata-first source refresh.

pub mod plan;
pub mod prepare;
