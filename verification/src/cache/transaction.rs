//! How a transaction is run: what is written is kept as a whole or not at all.

use vstd::prelude::*;
use crate::cache::types::CacheError;

verus! {

/// What is done next in a transaction.
#[derive(Debug, Clone, Copy, PartialEq, Eq, Structural)]
pub enum TransactionStage {
    /// The transaction is opened.
    Open,
    /// What belongs in it is read and written.
    Operate,
    /// What was written is kept.
    Commit,
    /// What was written is undone, because of a failure.
    RollBack { failure: CacheError },
}

/// What follows from how a stage went; a failure that ends the transaction is told.
#[derive(Debug, Clone, Copy, PartialEq, Eq, Structural)]
pub enum TransactionNext {
    Do(TransactionStage),
    Ended { failure: Option<CacheError> },
}

/// What follows from how a stage went. The failure of undoing is not told: that of what
/// is undone is.
pub open spec fn stage_after(
    stage: TransactionStage,
    failure: Option<CacheError>,
) -> TransactionNext {
    match (stage, failure) {
        (TransactionStage::Open, None) => TransactionNext::Do(TransactionStage::Operate),
        (TransactionStage::Open, Some(e)) => TransactionNext::Ended { failure: Some(e) },
        (TransactionStage::Operate, None) => TransactionNext::Do(TransactionStage::Commit),
        (TransactionStage::Operate, Some(e)) => TransactionNext::Do(
            TransactionStage::RollBack { failure: e },
        ),
        (TransactionStage::Commit, None) => TransactionNext::Ended { failure: None },
        (TransactionStage::Commit, Some(e)) => TransactionNext::Do(
            TransactionStage::RollBack { failure: e },
        ),
        (TransactionStage::RollBack { failure: e }, _) => TransactionNext::Ended {
            failure: Some(e),
        },
    }
}

/// Decides what follows from how a stage went.
pub fn next_stage(stage: TransactionStage, failure: Option<CacheError>) -> (r: TransactionNext)
    ensures
        r == stage_after(stage, failure),
{
    match (stage, failure) {
        (TransactionStage::Open, None) => TransactionNext::Do(TransactionStage::Operate),
        (TransactionStage::Open, Some(e)) => TransactionNext::Ended { failure: Some(e) },
        (TransactionStage::Operate, None) => TransactionNext::Do(TransactionStage::Commit),
        (TransactionStage::Operate, Some(e)) => TransactionNext::Do(
            TransactionStage::RollBack { failure: e },
        ),
        (TransactionStage::Commit, None) => TransactionNext::Ended { failure: None },
        (TransactionStage::Commit, Some(e)) => TransactionNext::Do(
            TransactionStage::RollBack { failure: e },
        ),
        (TransactionStage::RollBack { failure: e }, _) => TransactionNext::Ended {
            failure: Some(e),
        },
    }
}

/// The stages, each of which went as listed, end the transaction with the failure, or
/// without one.
pub open spec fn ends_with(
    stage: TransactionStage,
    went: Seq<Option<CacheError>>,
    failure: Option<CacheError>,
) -> bool
    decreases went.len(),
{
    went.len() > 0 && match stage_after(stage, went[0]) {
        TransactionNext::Do(next) => ends_with(next, went.drop_first(), failure),
        TransactionNext::Ended { failure: told } => went.len() == 1 && told == failure,
    }
}

/// What a database shows others after the stages: what it showed before, until a commit
/// succeeds.
pub open spec fn shown_through<S>(
    stage: TransactionStage,
    went: Seq<Option<CacheError>>,
    shown: S,
    written: S,
) -> S
    decreases went.len(),
{
    if went.len() == 0 {
        shown
    } else {
        let now = if stage == TransactionStage::Commit && went[0] is None {
            written
        } else {
            shown
        };
        match stage_after(stage, went[0]) {
            TransactionNext::Do(next) => shown_through(next, went.drop_first(), now, written),
            TransactionNext::Ended { .. } => now,
        }
    }
}

/// A transaction that fails changes nothing, wherever it fails, so that what could be
/// written before it can be written after it.
pub proof fn failed_transactions_change_nothing<S>(
    stage: TransactionStage,
    went: Seq<Option<CacheError>>,
    failure: CacheError,
    shown: S,
    written: S,
)
    requires
        ends_with(stage, went, Some(failure)),
    ensures
        shown_through(stage, went, shown, written) == shown,
    decreases went.len(),
{
    match stage_after(stage, went[0]) {
        TransactionNext::Do(next) => {
            failed_transactions_change_nothing(next, went.drop_first(), failure, shown, written);
        },
        TransactionNext::Ended { .. } => {},
    }
}

/// A transaction that does not fail keeps all that was written.
pub proof fn whole_transactions_are_kept<S>(went: Seq<Option<CacheError>>, shown: S, written: S)
    requires
        ends_with(TransactionStage::Open, went, None),
    ensures
        shown_through(TransactionStage::Open, went, shown, written) == written,
{
    reveal_with_fuel(ends_with, 5);
    reveal_with_fuel(shown_through, 5);
}

} // verus!
