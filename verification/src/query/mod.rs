//! Queries over a resolved graph.

pub mod index;
pub mod pages;
pub mod impact;
