//! Failure categories and their process and machine mappings.

use vstd::prelude::*;
use vstd::string::*;
use crate::cache::types::CacheError;
use crate::exit::ExitCode;
use crate::result::OutputStatus;
use crate::text::{lossy, lossy_text};
use crate::worker::WorkerFailure;

verus! {

/// Typed failure categories with a stable process mapping. Filesystem paths are
/// held as the bytes of their native spelling.
#[derive(Debug, Clone, PartialEq, Eq)]
pub enum CliError {
    Usage(String),
    NoMatch,
    Ambiguous,
    Cache(String),
    Index(String),
    Unsupported(String),
    ProjectPath { path: Vec<u8>, reason: String },
    ProjectSymlink { path: Vec<u8> },
    ProjectRelativePath { path: Vec<u8>, reason: String },
    ProjectPathOutsideRoot { root: Vec<u8>, path: Vec<u8> },
    Timeout,
    Cancelled,
    Worker(WorkerFailure),
    Unavailable { command: String },
    FrozenSnapshotMissing,
    PartialNotAllowed,
    Fatal(String),
}

impl CliError {
    /// The exit code that stands for the failure.
    pub open spec fn exit(self) -> ExitCode {
        match self {
            CliError::NoMatch => ExitCode::NoMatch,
            CliError::Usage(_) => ExitCode::Usage,
            CliError::Ambiguous => ExitCode::Ambiguous,
            _ => ExitCode::Operational,
        }
    }

    /// Exhaustive mapping required by the public process contract.
    pub fn exit_code(&self) -> (r: ExitCode)
        ensures
            r == self.exit(),
    {
        match self {
            CliError::NoMatch => ExitCode::NoMatch,
            CliError::Usage(_) => ExitCode::Usage,
            CliError::Ambiguous => ExitCode::Ambiguous,
            _ => ExitCode::Operational,
        }
    }

    /// The machine-visible status that stands for the failure.
    pub open spec fn status(self) -> OutputStatus {
        match self {
            CliError::NoMatch => OutputStatus::NoMatch,
            CliError::Ambiguous => OutputStatus::Ambiguous,
            CliError::Unsupported(_) => OutputStatus::Unsupported,
            CliError::Unavailable { .. } => OutputStatus::Unsupported,
            CliError::Timeout => OutputStatus::Timeout,
            _ => OutputStatus::Error,
        }
    }

    /// The failure is a cache failure with this message.
    pub open spec fn is_cache(self, message: Seq<char>) -> bool {
        self matches CliError::Cache(text) && text@ == message
    }

    /// The failure is an index failure with this message.
    pub open spec fn is_index(self, message: Seq<char>) -> bool {
        self matches CliError::Index(text) && text@ == message
    }

    /// The failure is fatal with this message.
    pub open spec fn is_fatal(self, message: Seq<char>) -> bool {
        self matches CliError::Fatal(text) && text@ == message
    }

    /// What the failure says.
    pub open spec fn words(self) -> Seq<char> {
        match self {
            CliError::Usage(text) => text@,
            CliError::NoMatch => "no matching result"@,
            CliError::Ambiguous => "selector is ambiguous"@,
            CliError::Cache(text) => "cache failure: "@ + text@,
            CliError::Index(text) => "index failure: "@ + text@,
            CliError::Unsupported(text) => "unsupported: "@ + text@,
            CliError::ProjectPath { path, reason } => "project path "@ + lossy_text(path@) + ": "@
                + reason@,
            CliError::ProjectSymlink { path } => "project path "@ + lossy_text(path@)
                + " is a symlink"@,
            CliError::ProjectRelativePath { path, reason } => "project-relative path "@
                + lossy_text(path@) + ": "@ + reason@,
            CliError::ProjectPathOutsideRoot { root, path } => "source path "@ + lossy_text(path@)
                + " is outside project root "@ + lossy_text(root@),
            CliError::Timeout => "operation timed out"@,
            CliError::Cancelled => "operation cancelled"@,
            CliError::Worker(failure) => "worker failure: "@ + failure.words(),
            CliError::Unavailable { command } => command@
                + " execution is not implemented in this contract-only CLI shell"@,
            CliError::FrozenSnapshotMissing => "no frozen snapshot is available"@,
            CliError::PartialNotAllowed => "result is partial and partial results are not allowed"@,
            CliError::Fatal(text) => "fatal CLI failure: "@ + text@,
        }
    }

    /// What the failure says.
    pub fn message(&self) -> (r: String)
        ensures
            r@ == self.words(),
    {
        match self {
            CliError::Usage(text) => text.clone(),
            CliError::NoMatch => "no matching result".to_owned(),
            CliError::Ambiguous => "selector is ambiguous".to_owned(),
            CliError::Cache(text) => said("cache failure: ", text.as_str()),
            CliError::Index(text) => said("index failure: ", text.as_str()),
            CliError::Unsupported(text) => said("unsupported: ", text.as_str()),
            CliError::ProjectPath { path, reason } => {
                let mut out = said("project path ", lossy(path.as_slice()).as_str());
                out.append(": ");
                out.append(reason.as_str());
                out
            },
            CliError::ProjectSymlink { path } => {
                let mut out = said("project path ", lossy(path.as_slice()).as_str());
                out.append(" is a symlink");
                out
            },
            CliError::ProjectRelativePath { path, reason } => {
                let mut out = said("project-relative path ", lossy(path.as_slice()).as_str());
                out.append(": ");
                out.append(reason.as_str());
                out
            },
            CliError::ProjectPathOutsideRoot { root, path } => {
                let mut out = said("source path ", lossy(path.as_slice()).as_str());
                out.append(" is outside project root ");
                out.append(lossy(root.as_slice()).as_str());
                out
            },
            CliError::Timeout => "operation timed out".to_owned(),
            CliError::Cancelled => "operation cancelled".to_owned(),
            CliError::Worker(failure) => said("worker failure: ", failure.as_str()),
            CliError::Unavailable { command } => said(
                command.as_str(),
                " execution is not implemented in this contract-only CLI shell",
            ),
            CliError::FrozenSnapshotMissing => "no frozen snapshot is available".to_owned(),
            CliError::PartialNotAllowed => {
                "result is partial and partial results are not allowed".to_owned()
            },
            CliError::Fatal(text) => said("fatal CLI failure: ", text.as_str()),
        }
    }

    /// The failure rejects this project-relative path for this reason.
    pub open spec fn is_relative_path(self, bytes: Seq<u8>, why: Seq<char>) -> bool {
        self matches CliError::ProjectRelativePath { path, reason } && path@ == bytes && reason@
            == why
    }

    /// The failure rejects this project path for this reason.
    pub open spec fn is_project_path(self, bytes: Seq<u8>, why: Seq<char>) -> bool {
        self matches CliError::ProjectPath { path, reason } && path@ == bytes && reason@ == why
    }
}

fn said(first: &str, second: &str) -> (r: String)
    ensures
        r@ == first@ + second@,
{
    let mut out: String = first.to_owned();
    out.append(second);
    out
}

/// The failure of a command that a failure of its cache is: the end of the time is
/// told apart from the others.
pub open spec fn of_cache(error: CacheError, e: CliError) -> bool {
    if error == CacheError::Timeout {
        e == CliError::Timeout
    } else {
        e.is_cache(error.words())
    }
}

/// Turns a failure of the cache into a failure of the command.
pub fn cache_failure(error: CacheError) -> (r: CliError)
    ensures
        of_cache(error, r),
{
    match error {
        CacheError::Timeout => CliError::Timeout,
        _ => CliError::Cache(error.as_str().to_owned()),
    }
}

impl From<&CliError> for OutputStatus {
    fn from(error: &CliError) -> (r: OutputStatus) {
        match error {
            CliError::NoMatch => OutputStatus::NoMatch,
            CliError::Ambiguous => OutputStatus::Ambiguous,
            CliError::Unsupported(_) => OutputStatus::Unsupported,
            CliError::Unavailable { .. } => OutputStatus::Unsupported,
            CliError::Timeout => OutputStatus::Timeout,
            _ => OutputStatus::Error,
        }
    }
}

impl vstd::std_specs::convert::FromSpecImpl<&CliError> for OutputStatus {
    open spec fn obeys_from_spec() -> bool {
        true
    }

    open spec fn from_spec(v: &CliError) -> OutputStatus {
        v.status()
    }
}

/// No failure is reported as a success: its exit code is never zero and its
/// status is never success.
pub proof fn failures_never_look_like_success(e: CliError)
    ensures
        e.exit() != ExitCode::Success,
        e.exit().number() != 0,
        e.status() != OutputStatus::Success,
{
}

} // verus!
