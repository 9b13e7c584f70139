//! Execution of commands under the cache policy.

pub mod answer;
pub mod cache_policy;
pub mod context;
pub mod dispatch;
pub mod lifecycle;
pub mod output;
pub mod snapshots;
pub mod types;
