//! A persistent command-line companion for code graphs: project selection,
//! source inventories, refresh planning, the snapshot cache, and the query
//! commands, each stated by contract and proved.
#![allow(unused_imports)]

use vstd::prelude::*;

pub mod bindings;
pub mod cache;
pub mod commands;
pub mod config;
pub mod deadline;
pub mod error;
pub mod execution;
pub mod exit;
pub mod graph;
pub mod inventory;
pub mod laws;
pub mod ordering;
pub mod package_assignment;
pub mod project;
pub mod query;
pub mod refresh;
pub mod request;
pub mod result;
pub mod text;
pub mod text_map;
pub mod worker;

verus! {

} // verus!
