//! Publication-ready, in-memory refresh candidate preparation.

pub mod budgets;
pub mod finish;
pub mod pipeline;
pub mod pool;
pub mod recovery;
pub mod retry;
