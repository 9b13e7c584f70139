//! The words in which the laws of queries speak.

use vstd::prelude::*;
use crate::graph::{Confidence, EdgeView, IdView, Provenance, RefRole, SymbolKind, SymbolView};
use crate::result::{
    ConfidenceOutput, OutputEnvelope, ProvenanceOutput, RefRoleOutput, RelationView,
    SymbolKindOutput,
};

verus! {

/// From the least to the most sure: heuristic, by name only, scoped, exact.
pub open spec fn is_as_sure_as(c: Confidence, floor: Confidence) -> bool {
    match floor {
        Confidence::Heuristic => true,
        Confidence::NameOnly => c != Confidence::Heuristic,
        Confidence::Scoped => c == Confidence::Scoped || c == Confidence::Exact,
        Confidence::Exact => c == Confidence::Exact,
    }
}

/// The shown confidence says the same.
pub open spec fn says_confidence(shown: ConfidenceOutput, c: Confidence) -> bool {
    &&& shown == ConfidenceOutput::Heuristic <==> c == Confidence::Heuristic
    &&& shown == ConfidenceOutput::NameOnly <==> c == Confidence::NameOnly
    &&& shown == ConfidenceOutput::Scoped <==> c == Confidence::Scoped
    &&& shown == ConfidenceOutput::Exact <==> c == Confidence::Exact
}

/// The shown role says the same.
pub open spec fn says_role(shown: RefRoleOutput, role: RefRole) -> bool {
    &&& shown == RefRoleOutput::Call <==> role == RefRole::Call
    &&& shown == RefRoleOutput::IsImplementation <==> role == RefRole::IsImplementation
    &&& shown == RefRoleOutput::Import <==> role == RefRole::Import
    &&& shown == RefRoleOutput::ModuleRef <==> role == RefRole::ModuleRef
    &&& shown == RefRoleOutput::TypeRef <==> role == RefRole::TypeRef
    &&& shown == RefRoleOutput::Read <==> role == RefRole::Read
    &&& shown == RefRoleOutput::Write <==> role == RefRole::Write
}

/// The shown provenance says the same.
pub open spec fn says_provenance(shown: ProvenanceOutput, p: Provenance) -> bool {
    &&& shown == ProvenanceOutput::SymbolTable <==> p == Provenance::SymbolTable
    &&& shown == ProvenanceOutput::ScopeGraph <==> p == Provenance::ScopeGraph
    &&& shown == ProvenanceOutput::FfiBridge <==> p == Provenance::FfiBridge
    &&& shown == ProvenanceOutput::Conformance <==> p == Provenance::Conformance
    &&& shown == ProvenanceOutput::NormalizedName <==> p == Provenance::NormalizedName
    &&& shown == ProvenanceOutput::External <==> p == Provenance::External
}

/// The shown kind says the same.
pub open spec fn says_kind(shown: SymbolKindOutput, k: SymbolKind) -> bool {
    &&& shown == SymbolKindOutput::Function <==> k == SymbolKind::Function
    &&& shown == SymbolKindOutput::Method <==> k == SymbolKind::Method
    &&& shown == SymbolKindOutput::Struct <==> k == SymbolKind::Struct
    &&& shown == SymbolKindOutput::Enum <==> k == SymbolKind::Enum
    &&& shown == SymbolKindOutput::Trait <==> k == SymbolKind::Trait
    &&& shown == SymbolKindOutput::Interface <==> k == SymbolKind::Interface
    &&& shown == SymbolKindOutput::Class <==> k == SymbolKind::Class
    &&& shown == SymbolKindOutput::TypeAlias <==> k == SymbolKind::TypeAlias
    &&& shown == SymbolKindOutput::Const <==> k == SymbolKind::Const
    &&& shown == SymbolKindOutput::Static <==> k == SymbolKind::Static
    &&& shown == SymbolKindOutput::Module <==> k == SymbolKind::Module
    &&& shown == SymbolKindOutput::Impl <==> k == SymbolKind::Impl
    &&& shown == SymbolKindOutput::Table <==> k == SymbolKind::Table
    &&& shown == SymbolKindOutput::View <==> k == SymbolKind::View
    &&& shown == SymbolKindOutput::Column <==> k == SymbolKind::Column
    &&& shown == SymbolKindOutput::Resource <==> k == SymbolKind::Resource
    &&& shown == SymbolKindOutput::Other <==> k == SymbolKind::Other
}

/// The row tells of the relation what it is: its ends, its role, how sure it is, where it
/// comes from, and the line, column and byte at which it stands.
pub open spec fn tells_of(row: RelationView, e: EdgeView) -> bool {
    &&& row.from == e.from
    &&& row.to == e.to
    &&& says_role(row.role, e.role)
    &&& says_confidence(row.confidence, e.confidence)
    &&& says_provenance(row.provenance, e.provenance)
    &&& row.occurrence.line == e.occ.line
    &&& row.occurrence.col == e.occ.col
    &&& row.occurrence.byte == e.occ.byte
}

/// No identity is defined twice.
pub open spec fn defines_once(definitions: Seq<SymbolView>) -> bool {
    forall|s: SymbolView, t: SymbolView| #[trigger]
        definitions.contains(s) && #[trigger] definitions.contains(t) && s.id == t.id ==> s == t
}

/// The symbol is not defined.
pub open spec fn is_undefined(definitions: Seq<SymbolView>, id: IdView) -> bool {
    forall|t: SymbolView| #[trigger] definitions.contains(t) ==> t.id != id
}

/// What two tests agree on is picked by both.
pub proof fn lemma_same_filter<A>(s: Seq<A>, p: spec_fn(A) -> bool, q: spec_fn(A) -> bool)
    requires
        forall|i: int| 0 <= i < s.len() ==> p(#[trigger] s[i]) == q(s[i]),
    ensures
        s.filter(p) == s.filter(q),
    decreases s.len(),
{
    reveal(Seq::filter);
    if s.len() > 0 {
        let rest = s.drop_last();
        assert forall|i: int| 0 <= i < rest.len() implies p(#[trigger] rest[i]) == q(rest[i]) by {
            assert(rest[i] == s[i]);
        }
        lemma_same_filter(rest, p, q);
        assert(p(s[s.len() - 1]) == q(s[s.len() - 1]));
    }
}

/// What is picked passes the test and was there; what was there and passes it is picked.
pub proof fn lemma_filter_is_exact<A>(s: Seq<A>, p: spec_fn(A) -> bool)
    ensures
        forall|j: int|
            0 <= j < s.filter(p).len() ==> p(#[trigger] s.filter(p)[j]) && s.contains(
                s.filter(p)[j],
            ),
        forall|i: int| 0 <= i < s.len() && p(#[trigger] s[i]) ==> s.filter(p).contains(s[i]),
    decreases s.len(),
{
    reveal(Seq::filter);
    if s.len() > 0 {
        let rest = s.drop_last();
        let kept = rest.filter(p);
        let all = s.filter(p);
        lemma_filter_is_exact(rest, p);
        assert forall|j: int| 0 <= j < all.len() implies p(#[trigger] all[j]) && s.contains(
            all[j],
        ) by {
            if j < kept.len() {
                assert(all[j] == kept[j]);
                let i = choose|i: int| 0 <= i < rest.len() && rest[i] == kept[j];
                assert(s[i] == all[j]);
            } else {
                assert(s[s.len() - 1] == all[j]);
            }
        }
        assert forall|i: int| 0 <= i < s.len() && p(#[trigger] s[i]) implies all.contains(
            s[i],
        ) by {
            if i < rest.len() {
                assert(rest[i] == s[i]);
                assert(kept.contains(s[i]));
                let j = choose|j: int| 0 <= j < kept.len() && kept[j] == s[i];
                assert(all[j] == s[i]);
            } else {
                assert(all[all.len() - 1] == s[i]);
            }
        }
    }
}

/// The envelope tells how many rows there are in all and how many it holds: all of them, or as
/// many as are asked for, and it says so where some are missing.
pub open spec fn counts_are_honest<T>(
    envelope: OutputEnvelope<T>,
    shown: nat,
    all: nat,
    maximum: usize,
) -> bool {
    &&& envelope.total == all
    &&& envelope.returned == shown
    &&& shown <= all
    &&& shown <= maximum
    &&& shown == all || shown == maximum
    &&& envelope.truncated <==> shown < all
}

} // verus!
