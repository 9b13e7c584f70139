//! Process exit codes.

use vstd::prelude::*;

verus! {

/// Stable process exit codes of the `code2graph` executable.
#[derive(Debug, Clone, Copy, PartialEq, Eq, Structural)]
pub enum ExitCode {
    Success,
    NoMatch,
    Usage,
    Ambiguous,
    Operational,
}

impl ExitCode {
    /// The number that the process exits with.
    pub open spec fn number(self) -> i32 {
        match self {
            ExitCode::Success => 0,
            ExitCode::NoMatch => 1,
            ExitCode::Usage => 2,
            ExitCode::Ambiguous => 3,
            ExitCode::Operational => 4,
        }
    }

    /// The number that the process exits with.
    pub fn as_i32(self) -> (r: i32)
        ensures
            r == self.number(),
    {
        match self {
            ExitCode::Success => 0,
            ExitCode::NoMatch => 1,
            ExitCode::Usage => 2,
            ExitCode::Ambiguous => 3,
            ExitCode::Operational => 4,
        }
    }
}

/// Different exit codes are different numbers.
pub proof fn exit_codes_are_distinct(a: ExitCode, b: ExitCode)
    ensures
        a.number() == b.number() ==> a == b,
{
}

} // verus!
