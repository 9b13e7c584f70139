//! Cache selection rules shared by refresh and graph-loading lifecycles.

use vstd::prelude::*;
use vstd::string::*;
use crate::cache::types::{CacheCompleteness, CacheError};
use crate::error::{cache_failure, of_cache, CliError};

verus! {

/// Why a snapshot could not be loaded.
#[derive(Debug, Clone, PartialEq, Eq)]
pub enum CacheLoadFailure {
    /// Its facts break a rule, which the detail tells.
    InvalidFacts { detail: String },
    Cache(CacheError),
}

/// A failure that is healed by dropping what was derived.
pub open spec fn is_recoverable(error: CacheError) -> bool {
    match error {
        CacheError::Malformed
        | CacheError::Incompatible
        | CacheError::Limits
        | CacheError::InvalidFacts
        | CacheError::InvalidSubgraph
        | CacheError::Corrupt
        | CacheError::InvalidCandidate => true,
        _ => false,
    }
}

/// Tells whether a failure is healed by dropping what was derived.
pub fn is_recoverable_cache_error(error: &CacheError) -> (r: bool)
    ensures
        r == is_recoverable(*error),
{
    match error {
        CacheError::Malformed
        | CacheError::Incompatible
        | CacheError::Limits
        | CacheError::InvalidFacts
        | CacheError::InvalidSubgraph
        | CacheError::Corrupt
        | CacheError::InvalidCandidate => true,
        _ => false,
    }
}

/// What follows from a failure to load a snapshot.
#[derive(Debug, Clone, PartialEq, Eq)]
pub enum LoadRecovery {
    /// What was derived is dropped and nothing counts as loaded; the diagnostic is kept
    /// for the caller.
    Invalidate { diagnostic: Option<String> },
    Fail(CliError),
}

/// A writable store drops what it can derive anew; a store that may not be changed
/// reports the failure.
pub fn load_or_invalidate(failure: CacheLoadFailure, writable: bool) -> (r: LoadRecovery)
    ensures
        match failure {
            CacheLoadFailure::InvalidFacts { detail } => if writable {
                r == (LoadRecovery::Invalidate { diagnostic: Some(detail) })
            } else {
                r matches LoadRecovery::Fail(e) && of_cache(CacheError::InvalidFacts, e)
            },
            CacheLoadFailure::Cache(error) => if writable && is_recoverable(error) {
                r == (LoadRecovery::Invalidate { diagnostic: None })
            } else {
                r matches LoadRecovery::Fail(e) && of_cache(error, e)
            },
        },
{
    match failure {
        CacheLoadFailure::InvalidFacts { detail } => if writable {
            LoadRecovery::Invalidate { diagnostic: Some(detail) }
        } else {
            LoadRecovery::Fail(cache_failure(CacheError::InvalidFacts))
        },
        CacheLoadFailure::Cache(error) => if writable && is_recoverable_cache_error(&error) {
            LoadRecovery::Invalidate { diagnostic: None }
        } else {
            LoadRecovery::Fail(cache_failure(error))
        },
    }
}

/// The slot that is looked into after another one: a partial snapshot only where that
/// is allowed and no complete one was found.
pub open spec fn slot_after(
    slot: CacheCompleteness,
    found: bool,
    allow_partial: bool,
) -> Option<CacheCompleteness> {
    if slot == CacheCompleteness::Complete && !found && allow_partial {
        Some(CacheCompleteness::Partial)
    } else {
        None
    }
}

/// The slot that is looked into after another one.
pub fn next_slot(slot: CacheCompleteness, found: bool, allow_partial: bool) -> (r: Option<
    CacheCompleteness,
>)
    ensures
        r == slot_after(slot, found, allow_partial),
{
    if slot == CacheCompleteness::Complete && !found && allow_partial {
        Some(CacheCompleteness::Partial)
    } else {
        None
    }
}

/// Turns a failure to open a frozen cache into a failure of the command: a missing
/// cache is a missing snapshot.
pub fn open_frozen_failure(error: CacheError) -> (r: CliError)
    ensures
        error == CacheError::Missing ==> r == CliError::FrozenSnapshotMissing,
        error != CacheError::Missing ==> of_cache(error, r),
{
    match error {
        CacheError::Missing => CliError::FrozenSnapshotMissing,
        _ => cache_failure(error),
    }
}

} // verus!
