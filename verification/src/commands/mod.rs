//! Query command handlers.

pub mod definition;
pub mod diff;
pub mod diff_impact;
pub mod impact;
pub mod imports;
pub mod module_deps;
pub mod references;
pub mod relations;
pub mod selector;
pub mod shared;
pub mod symbols;
