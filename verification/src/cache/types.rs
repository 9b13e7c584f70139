//! Cache identities, tiers and failures.

use vstd::prelude::*;
use vstd::string::*;
use crate::ordering::Keyed;
use crate::text::{push_text_key, same_text, text_key};

verus! {

/// Resolver tier of a cached graph.
#[derive(Debug, Clone, Copy, PartialEq, Eq, Structural)]
pub enum ResolverCacheTier {
    Name,
    Scope,
    Dense,
}

impl ResolverCacheTier {
    /// The stored spelling.
    pub open spec fn sql(self) -> Seq<char> {
        match self {
            ResolverCacheTier::Name => "name"@,
            ResolverCacheTier::Scope => "scope"@,
            ResolverCacheTier::Dense => "dense"@,
        }
    }

    /// The stored spelling.
    pub fn as_sql(self) -> (r: &'static str)
        ensures
            r@ == self.sql(),
    {
        match self {
            ResolverCacheTier::Name => "name",
            ResolverCacheTier::Scope => "scope",
            ResolverCacheTier::Dense => "dense",
        }
    }

    /// Reads a stored spelling; any other is corruption.
    pub fn from_sql(value: &str) -> (r: Result<Self, CacheError>)
        ensures
            match r {
                Ok(tier) => tier.sql() == value@,
                Err(e) => e == CacheError::Corrupt && forall|t: ResolverCacheTier| t.sql()
                    != value@,
            },
    {
        if same_text(value, "name") {
            Ok(ResolverCacheTier::Name)
        } else if same_text(value, "scope") {
            Ok(ResolverCacheTier::Scope)
        } else if same_text(value, "dense") {
            Ok(ResolverCacheTier::Dense)
        } else {
            Err(CacheError::Corrupt)
        }
    }
}

/// A stored tier reads back as itself: no two tiers are stored alike.
pub proof fn stored_tiers_are_distinct(a: ResolverCacheTier, b: ResolverCacheTier)
    ensures
        a.sql() == b.sql() ==> a == b,
{
    reveal_strlit("name");
    reveal_strlit("scope");
    reveal_strlit("dense");
    if a.sql() == b.sql() {
        assert(a.sql()[0] == b.sql()[0]);
    }
}

/// Whether an indexed candidate represents every discovered input.
#[derive(Debug, Clone, Copy, PartialEq, Eq, Structural)]
pub enum CacheCompleteness {
    Complete,
    Partial,
}

/// Whether an indexed candidate represents every discovered input.
#[derive(Debug, Clone, Copy, PartialEq, Eq, Structural)]
pub enum CandidateCompleteness {
    Complete,
    Partial,
}

impl From<CandidateCompleteness> for CacheCompleteness {
    fn from(value: CandidateCompleteness) -> (r: CacheCompleteness) {
        match value {
            CandidateCompleteness::Complete => CacheCompleteness::Complete,
            CandidateCompleteness::Partial => CacheCompleteness::Partial,
        }
    }
}

impl vstd::std_specs::convert::FromSpecImpl<CandidateCompleteness> for CacheCompleteness {
    open spec fn obeys_from_spec() -> bool {
        true
    }

    open spec fn from_spec(value: CandidateCompleteness) -> CacheCompleteness {
        match value {
            CandidateCompleteness::Complete => CacheCompleteness::Complete,
            CandidateCompleteness::Partial => CacheCompleteness::Partial,
        }
    }
}

impl CacheCompleteness {
    /// The stored number.
    pub open spec fn sql(self) -> i64 {
        match self {
            CacheCompleteness::Complete => 0,
            CacheCompleteness::Partial => 1,
        }
    }

    /// The stored number.
    pub fn as_sql(self) -> (r: i64)
        ensures
            r == self.sql(),
    {
        match self {
            CacheCompleteness::Complete => 0,
            CacheCompleteness::Partial => 1,
        }
    }

    /// Reads a stored number; any but zero and one is corruption.
    pub fn from_sql(value: i64) -> (r: Result<Self, CacheError>)
        ensures
            match r {
                Ok(c) => c.sql() == value,
                Err(e) => e == CacheError::Corrupt && value != 0 && value != 1,
            },
    {
        if value == 0 {
            Ok(CacheCompleteness::Complete)
        } else if value == 1 {
            Ok(CacheCompleteness::Partial)
        } else {
            Err(CacheError::Corrupt)
        }
    }
}

/// A stored completeness reads back as itself.
pub proof fn stored_completeness_is_distinct(a: CacheCompleteness, b: CacheCompleteness)
    ensures
        a.sql() == b.sql() ==> a == b,
{
}

/// Typed cache failures.
#[derive(Debug, Clone, Copy, PartialEq, Eq, Structural)]
pub enum CacheError {
    Oversize,
    Malformed,
    Incompatible,
    Limits,
    InvalidFacts,
    InvalidSubgraph,
    Missing,
    ReadOnly,
    Timeout,
    UnsupportedSchema,
    Corrupt,
    LockContention,
    Access,
    RootMismatch,
    SnapshotMissing,
    CandidateConflict,
    InvalidCandidate,
}

impl CacheError {
    /// What the failure says.
    pub open spec fn words(self) -> Seq<char> {
        match self {
            CacheError::Oversize => "cache blob exceeds the size limit"@,
            CacheError::Malformed => "cache blob is malformed"@,
            CacheError::Incompatible => "cache blob has an unsupported format or schema"@,
            CacheError::Limits => "cache blob violates structural limits"@,
            CacheError::InvalidFacts => "cache facts failed validation"@,
            CacheError::InvalidSubgraph => "cache subgraph could not be restored"@,
            CacheError::Missing => "cache database is missing"@,
            CacheError::ReadOnly => "cache database is read-only"@,
            CacheError::Timeout => "cache operation timed out"@,
            CacheError::UnsupportedSchema => "cache database has an unsupported schema version"@,
            CacheError::Corrupt => "cache database is corrupt"@,
            CacheError::LockContention => "cache database is locked"@,
            CacheError::Access => "cache database could not be accessed"@,
            CacheError::RootMismatch => "cache database belongs to another project"@,
            CacheError::SnapshotMissing => "cache snapshot is missing"@,
            CacheError::CandidateConflict => "cache candidate conflicts with stored content"@,
            CacheError::InvalidCandidate => "cache candidate is inconsistent"@,
        }
    }

    /// What the failure says.
    pub fn as_str(self) -> (r: &'static str)
        ensures
            r@ == self.words(),
    {
        match self {
            CacheError::Oversize => "cache blob exceeds the size limit",
            CacheError::Malformed => "cache blob is malformed",
            CacheError::Incompatible => "cache blob has an unsupported format or schema",
            CacheError::Limits => "cache blob violates structural limits",
            CacheError::InvalidFacts => "cache facts failed validation",
            CacheError::InvalidSubgraph => "cache subgraph could not be restored",
            CacheError::Missing => "cache database is missing",
            CacheError::ReadOnly => "cache database is read-only",
            CacheError::Timeout => "cache operation timed out",
            CacheError::UnsupportedSchema => "cache database has an unsupported schema version",
            CacheError::Corrupt => "cache database is corrupt",
            CacheError::LockContention => "cache database is locked",
            CacheError::Access => "cache database could not be accessed",
            CacheError::RootMismatch => "cache database belongs to another project",
            CacheError::SnapshotMissing => "cache snapshot is missing",
            CacheError::CandidateConflict => "cache candidate conflicts with stored content",
            CacheError::InvalidCandidate => "cache candidate is inconsistent",
        }
    }
}

/// A canonical omission included in a partial candidate identity.
#[derive(Debug, Clone, PartialEq, Eq, PartialOrd, Ord)]
pub struct CacheOmission {
    pub path: String,
    pub reason: String,
    pub detail: String,
}

/// The texts of an omission.
pub struct OmissionView {
    pub path: Seq<char>,
    pub reason: Seq<char>,
    pub detail: Seq<char>,
}

impl CacheOmission {
    /// The texts.
    pub open spec fn view(self) -> OmissionView {
        OmissionView { path: self.path@, reason: self.reason@, detail: self.detail@ }
    }
}

impl Keyed for CacheOmission {
    open spec fn key(&self) -> Seq<u64> {
        text_key(self.path@) + (text_key(self.reason@) + text_key(self.detail@))
    }

    fn sort_key(&self) -> (k: Vec<u64>) {
        let mut k: Vec<u64> = Vec::new();
        push_text_key(&mut k, self.path.as_str());
        push_text_key(&mut k, self.reason.as_str());
        push_text_key(&mut k, self.detail.as_str());
        assert(k@ =~= self.key());
        k
    }
}

} // verus!
