//! Command requests.

use vstd::prelude::*;
use vstd::string::*;
use crate::config::GlobalOptions;
use crate::graph::{RefRole, SymbolKind};

verus! {

/// A written selector of symbols, not yet resolved.
#[derive(Debug, Clone, PartialEq, Eq)]
pub struct Selector {
    pub text: String,
}

/// What a command asks for. Paths are held as the bytes of their native spelling.
#[derive(Debug, Clone, PartialEq, Eq)]
pub enum CommandRequest {
    Index { path: Option<Vec<u8>>, force: bool, trust_mtime: bool },
    Status,
    Symbols { text: String, file: Option<String>, kind: Option<SymbolKind>, case_sensitive: bool },
    Def { selector: Selector, file: Option<String>, kind: Option<SymbolKind>, require_unique: bool },
    Callers {
        selector: Selector,
        file: Option<String>,
        kind: Option<SymbolKind>,
        require_unique: bool,
        role: Option<RefRole>,
    },
    Callees {
        selector: Selector,
        file: Option<String>,
        kind: Option<SymbolKind>,
        require_unique: bool,
        role: Option<RefRole>,
    },
    Usages {
        selector: Selector,
        file: Option<String>,
        kind: Option<SymbolKind>,
        require_unique: bool,
        role: Option<RefRole>,
    },
    Imports { file: String },
    References { file: String, name: Option<String>, role: Option<RefRole> },
    ModuleDeps,
    Impact {
        selector: Selector,
        file: Option<String>,
        kind: Option<SymbolKind>,
        require_unique: bool,
        role: Option<RefRole>,
        depth: u32,
    },
    DiffImpact { base: Option<String>, role: Option<RefRole>, depth: u32 },
}

impl CommandRequest {
    /// The name of the command.
    pub open spec fn spelling(self) -> Seq<char> {
        match self {
            CommandRequest::Index { .. } => "index"@,
            CommandRequest::Status => "status"@,
            CommandRequest::Symbols { .. } => "symbols"@,
            CommandRequest::Def { .. } => "def"@,
            CommandRequest::Callers { .. } => "callers"@,
            CommandRequest::Callees { .. } => "callees"@,
            CommandRequest::Usages { .. } => "usages"@,
            CommandRequest::Imports { .. } => "imports"@,
            CommandRequest::References { .. } => "references"@,
            CommandRequest::ModuleDeps => "module-deps"@,
            CommandRequest::Impact { .. } => "impact"@,
            CommandRequest::DiffImpact { .. } => "diff-impact"@,
        }
    }

    /// The name of the command.
    pub fn name(&self) -> (r: &'static str)
        ensures
            r@ == self.spelling(),
    {
        match self {
            CommandRequest::Index { .. } => "index",
            CommandRequest::Status => "status",
            CommandRequest::Symbols { .. } => "symbols",
            CommandRequest::Def { .. } => "def",
            CommandRequest::Callers { .. } => "callers",
            CommandRequest::Callees { .. } => "callees",
            CommandRequest::Usages { .. } => "usages",
            CommandRequest::Imports { .. } => "imports",
            CommandRequest::References { .. } => "references",
            CommandRequest::ModuleDeps => "module-deps",
            CommandRequest::Impact { .. } => "impact",
            CommandRequest::DiffImpact { .. } => "diff-impact",
        }
    }
}

/// A command with its options.
#[derive(Debug, Clone, PartialEq, Eq)]
pub struct CliRequest {
    pub global: GlobalOptions,
    pub command: CommandRequest,
}

} // verus!
