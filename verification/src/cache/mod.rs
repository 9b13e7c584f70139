//! The snapshot cache.

pub mod codec;
pub mod fingerprint;
pub mod location;
pub mod load;
pub mod publish;
pub mod republish;
pub mod rows;
pub mod schema;
pub mod snapshot;
pub mod transaction;
pub mod types;
