//! Failures of isolated extraction workers.

use vstd::prelude::*;
use vstd::string::*;

verus! {

/// Numbers the requests that one refresh sends to its workers.
pub type RequestId = u64;

/// The class of an error that a worker reported itself.
#[derive(Debug, Clone, Copy, PartialEq, Eq, Structural)]
pub enum WorkerErrorCode {
    /// The file could not be extracted.
    Extraction,
    /// The request was not one that the worker serves.
    Request,
    /// The worker failed in itself.
    Internal,
}

/// Why a worker did not answer a request with facts.
#[derive(Debug, Clone, Copy, PartialEq, Eq, Structural)]
pub enum WorkerFailure {
    /// The process could not be started.
    Spawn,
    /// The connection to the process broke.
    Transport,
    /// The process exited.
    Exit,
    /// The answer did not follow the protocol.
    Protocol,
    /// The worker reported an error.
    Remote(WorkerErrorCode),
}

impl WorkerFailure {
    /// What the failure says.
    pub open spec fn words(self) -> Seq<char> {
        match self {
            WorkerFailure::Spawn => "worker process could not be started"@,
            WorkerFailure::Transport => "worker connection broke"@,
            WorkerFailure::Exit => "worker process exited"@,
            WorkerFailure::Protocol => "worker answer violated the protocol"@,
            WorkerFailure::Remote(WorkerErrorCode::Extraction) => "worker could not extract"@,
            WorkerFailure::Remote(WorkerErrorCode::Request) => "worker rejected the request"@,
            WorkerFailure::Remote(WorkerErrorCode::Internal) => "worker failed internally"@,
        }
    }

    /// What the failure says.
    pub fn as_str(self) -> (r: &'static str)
        ensures
            r@ == self.words(),
    {
        match self {
            WorkerFailure::Spawn => "worker process could not be started",
            WorkerFailure::Transport => "worker connection broke",
            WorkerFailure::Exit => "worker process exited",
            WorkerFailure::Protocol => "worker answer violated the protocol",
            WorkerFailure::Remote(WorkerErrorCode::Extraction) => "worker could not extract",
            WorkerFailure::Remote(WorkerErrorCode::Request) => "worker rejected the request",
            WorkerFailure::Remote(WorkerErrorCode::Internal) => "worker failed internally",
        }
    }
}

/// One failed attempt, with the detail that the worker gave.
#[derive(Debug, Clone, PartialEq, Eq)]
pub enum WorkerAttemptFailure {
    /// A failure without further detail.
    Failure(WorkerFailure),
    /// An error that the worker reported, with its message.
    Remote { code: WorkerErrorCode, message: String },
    /// Facts that do not fit the request they answer.
    InvalidFacts { message: String },
}

impl WorkerAttemptFailure {
    /// The failure without its detail. Facts that do not fit their request count
    /// as a remote extraction failure.
    pub open spec fn plain(self) -> WorkerFailure {
        match self {
            WorkerAttemptFailure::Failure(failure) => failure,
            WorkerAttemptFailure::Remote { code, .. } => WorkerFailure::Remote(code),
            WorkerAttemptFailure::InvalidFacts { .. } => WorkerFailure::Remote(
                WorkerErrorCode::Extraction,
            ),
        }
    }

    /// The failure without its detail.
    pub fn legacy(&self) -> (r: WorkerFailure)
        ensures
            r == self.plain(),
    {
        match self {
            WorkerAttemptFailure::Failure(failure) => *failure,
            WorkerAttemptFailure::Remote { code, .. } => WorkerFailure::Remote(*code),
            WorkerAttemptFailure::InvalidFacts { .. } => WorkerFailure::Remote(
                WorkerErrorCode::Extraction,
            ),
        }
    }

    /// The worker process is gone or out of step, so that a fresh one is needed.
    pub open spec fn is_death(self) -> bool {
        self == WorkerAttemptFailure::Failure(WorkerFailure::Transport) || self
            == WorkerAttemptFailure::Failure(WorkerFailure::Exit)
    }
}

} // verus!
