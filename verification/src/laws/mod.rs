//! Laws: what the operations promise, stated over their inputs and results alone.

pub mod cache;
pub mod commands;
pub mod decisions;
pub mod dependencies;
pub mod diff;
pub mod graphs;
pub mod identities;
pub mod impact;
pub mod inventory;
pub mod lifecycle;
pub mod preparation;
pub mod projects;
pub mod refresh;
pub mod relations;
pub mod results;
pub mod searches;
pub mod terms;
