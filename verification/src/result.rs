//! Machine-readable command results.

use vstd::prelude::*;
use vstd::string::*;
use std::time::Duration;
use crate::cache::fingerprint::omission_views;
use crate::cache::location::{hex, hex_text};
use crate::cache::snapshot::LoadedSnapshot;
use crate::cache::types::{CacheCompleteness, CacheOmission, OmissionView};
use crate::config::{ResolverTier, ResourceLimits, DEFAULT_IMPACT_DEPTH};
use crate::deadline::{nanoseconds, saturated, whole_milliseconds};
use crate::graph::{
    id_display, Confidence, IdView, OccurrenceView, Provenance, RefRole, Symbol, SymbolId,
    SymbolKind, SymbolView, TypeRefContext,
};
use crate::refresh::plan::{RefreshDecision, RefreshEntry, RefreshPlan};

verus! {

/// The first version of the stable JSON output envelope.
pub const OUTPUT_SCHEMA_VERSION: u32 = 1;

/// Stable machine-visible command status.
#[derive(Debug, Clone, Copy, PartialEq, Eq, Structural)]
pub enum OutputStatus {
    Success,
    NoMatch,
    Ambiguous,
    Partial,
    Stale,
    Unsupported,
    Timeout,
    Error,
}

impl OutputStatus {
    /// The stable spelling.
    pub open spec fn spelling(self) -> Seq<char> {
        match self {
            OutputStatus::Success => "ok"@,
            OutputStatus::NoMatch => "no-match"@,
            OutputStatus::Ambiguous => "ambiguous"@,
            OutputStatus::Partial => "partial"@,
            OutputStatus::Stale => "stale"@,
            OutputStatus::Unsupported => "unsupported"@,
            OutputStatus::Timeout => "timeout"@,
            OutputStatus::Error => "error"@,
        }
    }

    /// The stable spelling.
    pub fn as_str(self) -> (r: &'static str)
        ensures
            r@ == self.spelling(),
    {
        match self {
            OutputStatus::Success => "ok",
            OutputStatus::NoMatch => "no-match",
            OutputStatus::Ambiguous => "ambiguous",
            OutputStatus::Partial => "partial",
            OutputStatus::Stale => "stale",
            OutputStatus::Unsupported => "unsupported",
            OutputStatus::Timeout => "timeout",
            OutputStatus::Error => "error",
        }
    }
}

/// Freshness of the selected snapshot.
#[derive(Debug, Clone, Copy, PartialEq, Eq, Structural)]
pub enum Freshness {
    Fresh,
    Frozen,
    Stale,
}

impl Freshness {
    /// The stable spelling.
    pub open spec fn spelling(self) -> Seq<char> {
        match self {
            Freshness::Fresh => "fresh"@,
            Freshness::Frozen => "frozen"@,
            Freshness::Stale => "stale"@,
        }
    }

    /// The stable spelling.
    pub fn as_str(self) -> (r: &'static str)
        ensures
            r@ == self.spelling(),
    {
        match self {
            Freshness::Fresh => "fresh",
            Freshness::Frozen => "frozen",
            Freshness::Stale => "stale",
        }
    }
}

/// Cache participation for this invocation.
#[derive(Debug, Clone, Copy, PartialEq, Eq, Structural)]
pub enum CacheDisposition {
    Hit,
    Miss,
    Disabled,
}

impl CacheDisposition {
    /// The stable spelling.
    pub open spec fn spelling(self) -> Seq<char> {
        match self {
            CacheDisposition::Hit => "hit"@,
            CacheDisposition::Miss => "miss"@,
            CacheDisposition::Disabled => "disabled"@,
        }
    }

    /// The stable spelling.
    pub fn as_str(self) -> (r: &'static str)
        ensures
            r@ == self.spelling(),
    {
        match self {
            CacheDisposition::Hit => "hit",
            CacheDisposition::Miss => "miss",
            CacheDisposition::Disabled => "disabled",
        }
    }
}

/// Whether the selected snapshot represents every discovered input.
#[derive(Debug, Clone, Copy, PartialEq, Eq, Structural)]
pub enum CacheCompletenessOutput {
    Complete,
    Partial,
}

impl CacheCompletenessOutput {
    /// The stable spelling.
    pub open spec fn spelling(self) -> Seq<char> {
        match self {
            CacheCompletenessOutput::Complete => "complete"@,
            CacheCompletenessOutput::Partial => "partial"@,
        }
    }

    /// The stable spelling.
    pub fn as_str(self) -> (r: &'static str)
        ensures
            r@ == self.spelling(),
    {
        match self {
            CacheCompletenessOutput::Complete => "complete",
            CacheCompletenessOutput::Partial => "partial",
        }
    }
}

/// The spelling of a completeness.
pub open spec fn completeness_shown(c: CacheCompleteness) -> CacheCompletenessOutput {
    match c {
        CacheCompleteness::Complete => CacheCompletenessOutput::Complete,
        CacheCompleteness::Partial => CacheCompletenessOutput::Partial,
    }
}

impl From<CacheCompleteness> for CacheCompletenessOutput {
    fn from(completeness: CacheCompleteness) -> (r: CacheCompletenessOutput) {
        match completeness {
            CacheCompleteness::Complete => CacheCompletenessOutput::Complete,
            CacheCompleteness::Partial => CacheCompletenessOutput::Partial,
        }
    }
}

impl vstd::std_specs::convert::FromSpecImpl<CacheCompleteness> for CacheCompletenessOutput {
    open spec fn obeys_from_spec() -> bool {
        true
    }

    open spec fn from_spec(v: CacheCompleteness) -> CacheCompletenessOutput {
        completeness_shown(v)
    }
}

/// The status of a command that succeeded: a partial snapshot is told first, then a
/// stale one.
pub open spec fn status_of(completeness: CacheCompleteness, freshness: Freshness) -> OutputStatus {
    if completeness == CacheCompleteness::Partial {
        OutputStatus::Partial
    } else if freshness == Freshness::Stale {
        OutputStatus::Stale
    } else {
        OutputStatus::Success
    }
}

/// The status of a command that succeeded.
pub fn success_status(completeness: CacheCompleteness, freshness: Freshness) -> (r: OutputStatus)
    ensures
        r == status_of(completeness, freshness),
{
    if completeness == CacheCompleteness::Partial {
        OutputStatus::Partial
    } else if freshness == Freshness::Stale {
        OutputStatus::Stale
    } else {
        OutputStatus::Success
    }
}

/// Stable kebab-case spelling of a kind of definition in command output.
#[derive(Debug, Clone, Copy, PartialEq, Eq, Structural)]
pub enum SymbolKindOutput {
    Function,
    Method,
    Struct,
    Enum,
    Trait,
    Interface,
    Class,
    TypeAlias,
    Const,
    Static,
    Module,
    Impl,
    Table,
    View,
    Column,
    Resource,
    Other,
}

impl SymbolKindOutput {
    /// The stable spelling.
    pub open spec fn spelling(self) -> Seq<char> {
        match self {
            SymbolKindOutput::Function => "function"@,
            SymbolKindOutput::Method => "method"@,
            SymbolKindOutput::Struct => "struct"@,
            SymbolKindOutput::Enum => "enum"@,
            SymbolKindOutput::Trait => "trait"@,
            SymbolKindOutput::Interface => "interface"@,
            SymbolKindOutput::Class => "class"@,
            SymbolKindOutput::TypeAlias => "type-alias"@,
            SymbolKindOutput::Const => "const"@,
            SymbolKindOutput::Static => "static"@,
            SymbolKindOutput::Module => "module"@,
            SymbolKindOutput::Impl => "impl"@,
            SymbolKindOutput::Table => "table"@,
            SymbolKindOutput::View => "view"@,
            SymbolKindOutput::Column => "column"@,
            SymbolKindOutput::Resource => "resource"@,
            SymbolKindOutput::Other => "other"@,
        }
    }

    /// The stable spelling.
    pub fn as_str(self) -> (r: &'static str)
        ensures
            r@ == self.spelling(),
    {
        match self {
            SymbolKindOutput::Function => "function",
            SymbolKindOutput::Method => "method",
            SymbolKindOutput::Struct => "struct",
            SymbolKindOutput::Enum => "enum",
            SymbolKindOutput::Trait => "trait",
            SymbolKindOutput::Interface => "interface",
            SymbolKindOutput::Class => "class",
            SymbolKindOutput::TypeAlias => "type-alias",
            SymbolKindOutput::Const => "const",
            SymbolKindOutput::Static => "static",
            SymbolKindOutput::Module => "module",
            SymbolKindOutput::Impl => "impl",
            SymbolKindOutput::Table => "table",
            SymbolKindOutput::View => "view",
            SymbolKindOutput::Column => "column",
            SymbolKindOutput::Resource => "resource",
            SymbolKindOutput::Other => "other",
        }
    }
}

/// The output spelling of the value.
pub open spec fn symbol_kind_shown(v: SymbolKind) -> SymbolKindOutput {
    match v {
        SymbolKind::Function => SymbolKindOutput::Function,
        SymbolKind::Method => SymbolKindOutput::Method,
        SymbolKind::Struct => SymbolKindOutput::Struct,
        SymbolKind::Enum => SymbolKindOutput::Enum,
        SymbolKind::Trait => SymbolKindOutput::Trait,
        SymbolKind::Interface => SymbolKindOutput::Interface,
        SymbolKind::Class => SymbolKindOutput::Class,
        SymbolKind::TypeAlias => SymbolKindOutput::TypeAlias,
        SymbolKind::Const => SymbolKindOutput::Const,
        SymbolKind::Static => SymbolKindOutput::Static,
        SymbolKind::Module => SymbolKindOutput::Module,
        SymbolKind::Impl => SymbolKindOutput::Impl,
        SymbolKind::Table => SymbolKindOutput::Table,
        SymbolKind::View => SymbolKindOutput::View,
        SymbolKind::Column => SymbolKindOutput::Column,
        SymbolKind::Resource => SymbolKindOutput::Resource,
        SymbolKind::Other => SymbolKindOutput::Other,
    }
}

impl From<SymbolKind> for SymbolKindOutput {
    fn from(value: SymbolKind) -> (r: SymbolKindOutput) {
        match value {
            SymbolKind::Function => SymbolKindOutput::Function,
            SymbolKind::Method => SymbolKindOutput::Method,
            SymbolKind::Struct => SymbolKindOutput::Struct,
            SymbolKind::Enum => SymbolKindOutput::Enum,
            SymbolKind::Trait => SymbolKindOutput::Trait,
            SymbolKind::Interface => SymbolKindOutput::Interface,
            SymbolKind::Class => SymbolKindOutput::Class,
            SymbolKind::TypeAlias => SymbolKindOutput::TypeAlias,
            SymbolKind::Const => SymbolKindOutput::Const,
            SymbolKind::Static => SymbolKindOutput::Static,
            SymbolKind::Module => SymbolKindOutput::Module,
            SymbolKind::Impl => SymbolKindOutput::Impl,
            SymbolKind::Table => SymbolKindOutput::Table,
            SymbolKind::View => SymbolKindOutput::View,
            SymbolKind::Column => SymbolKindOutput::Column,
            SymbolKind::Resource => SymbolKindOutput::Resource,
            SymbolKind::Other => SymbolKindOutput::Other,
        }
    }
}

impl vstd::std_specs::convert::FromSpecImpl<SymbolKind> for SymbolKindOutput {
    open spec fn obeys_from_spec() -> bool {
        true
    }

    open spec fn from_spec(v: SymbolKind) -> SymbolKindOutput {
        symbol_kind_shown(v)
    }
}

/// Stable kebab-case spelling of a reference role in command output.
#[derive(Debug, Clone, Copy, PartialEq, Eq, Structural)]
pub enum RefRoleOutput {
    Call,
    IsImplementation,
    Import,
    ModuleRef,
    TypeRef,
    Read,
    Write,
}

impl RefRoleOutput {
    /// The stable spelling.
    pub open spec fn spelling(self) -> Seq<char> {
        match self {
            RefRoleOutput::Call => "call"@,
            RefRoleOutput::IsImplementation => "is-implementation"@,
            RefRoleOutput::Import => "import"@,
            RefRoleOutput::ModuleRef => "module-ref"@,
            RefRoleOutput::TypeRef => "type-ref"@,
            RefRoleOutput::Read => "read"@,
            RefRoleOutput::Write => "write"@,
        }
    }

    /// The stable spelling.
    pub fn as_str(self) -> (r: &'static str)
        ensures
            r@ == self.spelling(),
    {
        match self {
            RefRoleOutput::Call => "call",
            RefRoleOutput::IsImplementation => "is-implementation",
            RefRoleOutput::Import => "import",
            RefRoleOutput::ModuleRef => "module-ref",
            RefRoleOutput::TypeRef => "type-ref",
            RefRoleOutput::Read => "read",
            RefRoleOutput::Write => "write",
        }
    }
}

/// The output spelling of the value.
pub open spec fn ref_role_shown(v: RefRole) -> RefRoleOutput {
    match v {
        RefRole::Call => RefRoleOutput::Call,
        RefRole::IsImplementation => RefRoleOutput::IsImplementation,
        RefRole::Import => RefRoleOutput::Import,
        RefRole::ModuleRef => RefRoleOutput::ModuleRef,
        RefRole::TypeRef => RefRoleOutput::TypeRef,
        RefRole::Read => RefRoleOutput::Read,
        RefRole::Write => RefRoleOutput::Write,
    }
}

impl From<RefRole> for RefRoleOutput {
    fn from(value: RefRole) -> (r: RefRoleOutput) {
        match value {
            RefRole::Call => RefRoleOutput::Call,
            RefRole::IsImplementation => RefRoleOutput::IsImplementation,
            RefRole::Import => RefRoleOutput::Import,
            RefRole::ModuleRef => RefRoleOutput::ModuleRef,
            RefRole::TypeRef => RefRoleOutput::TypeRef,
            RefRole::Read => RefRoleOutput::Read,
            RefRole::Write => RefRoleOutput::Write,
        }
    }
}

impl vstd::std_specs::convert::FromSpecImpl<RefRole> for RefRoleOutput {
    open spec fn obeys_from_spec() -> bool {
        true
    }

    open spec fn from_spec(v: RefRole) -> RefRoleOutput {
        ref_role_shown(v)
    }
}

/// Stable kebab-case confidence spelling in command output.
#[derive(Debug, Clone, Copy, PartialEq, Eq, Structural)]
pub enum ConfidenceOutput {
    Heuristic,
    NameOnly,
    Scoped,
    Exact,
}

impl ConfidenceOutput {
    /// The stable spelling.
    pub open spec fn spelling(self) -> Seq<char> {
        match self {
            ConfidenceOutput::Heuristic => "heuristic"@,
            ConfidenceOutput::NameOnly => "name-only"@,
            ConfidenceOutput::Scoped => "scoped"@,
            ConfidenceOutput::Exact => "exact"@,
        }
    }

    /// The stable spelling.
    pub fn as_str(self) -> (r: &'static str)
        ensures
            r@ == self.spelling(),
    {
        match self {
            ConfidenceOutput::Heuristic => "heuristic",
            ConfidenceOutput::NameOnly => "name-only",
            ConfidenceOutput::Scoped => "scoped",
            ConfidenceOutput::Exact => "exact",
        }
    }
}

/// The output spelling of the value.
pub open spec fn confidence_shown(v: Confidence) -> ConfidenceOutput {
    match v {
        Confidence::Heuristic => ConfidenceOutput::Heuristic,
        Confidence::NameOnly => ConfidenceOutput::NameOnly,
        Confidence::Scoped => ConfidenceOutput::Scoped,
        Confidence::Exact => ConfidenceOutput::Exact,
    }
}

impl From<Confidence> for ConfidenceOutput {
    fn from(value: Confidence) -> (r: ConfidenceOutput) {
        match value {
            Confidence::Heuristic => ConfidenceOutput::Heuristic,
            Confidence::NameOnly => ConfidenceOutput::NameOnly,
            Confidence::Scoped => ConfidenceOutput::Scoped,
            Confidence::Exact => ConfidenceOutput::Exact,
        }
    }
}

impl vstd::std_specs::convert::FromSpecImpl<Confidence> for ConfidenceOutput {
    open spec fn obeys_from_spec() -> bool {
        true
    }

    open spec fn from_spec(v: Confidence) -> ConfidenceOutput {
        confidence_shown(v)
    }
}

/// Stable kebab-case provenance spelling in command output.
#[derive(Debug, Clone, Copy, PartialEq, Eq, Structural)]
pub enum ProvenanceOutput {
    SymbolTable,
    ScopeGraph,
    FfiBridge,
    Conformance,
    NormalizedName,
    External,
}

impl ProvenanceOutput {
    /// The stable spelling.
    pub open spec fn spelling(self) -> Seq<char> {
        match self {
            ProvenanceOutput::SymbolTable => "symbol-table"@,
            ProvenanceOutput::ScopeGraph => "scope-graph"@,
            ProvenanceOutput::FfiBridge => "ffi-bridge"@,
            ProvenanceOutput::Conformance => "conformance"@,
            ProvenanceOutput::NormalizedName => "normalized-name"@,
            ProvenanceOutput::External => "external"@,
        }
    }

    /// The stable spelling.
    pub fn as_str(self) -> (r: &'static str)
        ensures
            r@ == self.spelling(),
    {
        match self {
            ProvenanceOutput::SymbolTable => "symbol-table",
            ProvenanceOutput::ScopeGraph => "scope-graph",
            ProvenanceOutput::FfiBridge => "ffi-bridge",
            ProvenanceOutput::Conformance => "conformance",
            ProvenanceOutput::NormalizedName => "normalized-name",
            ProvenanceOutput::External => "external",
        }
    }
}

/// The output spelling of the value.
pub open spec fn provenance_shown(v: Provenance) -> ProvenanceOutput {
    match v {
        Provenance::SymbolTable => ProvenanceOutput::SymbolTable,
        Provenance::ScopeGraph => ProvenanceOutput::ScopeGraph,
        Provenance::FfiBridge => ProvenanceOutput::FfiBridge,
        Provenance::Conformance => ProvenanceOutput::Conformance,
        Provenance::NormalizedName => ProvenanceOutput::NormalizedName,
        Provenance::External => ProvenanceOutput::External,
    }
}

impl From<Provenance> for ProvenanceOutput {
    fn from(value: Provenance) -> (r: ProvenanceOutput) {
        match value {
            Provenance::SymbolTable => ProvenanceOutput::SymbolTable,
            Provenance::ScopeGraph => ProvenanceOutput::ScopeGraph,
            Provenance::FfiBridge => ProvenanceOutput::FfiBridge,
            Provenance::Conformance => ProvenanceOutput::Conformance,
            Provenance::NormalizedName => ProvenanceOutput::NormalizedName,
            Provenance::External => ProvenanceOutput::External,
        }
    }
}

impl vstd::std_specs::convert::FromSpecImpl<Provenance> for ProvenanceOutput {
    open spec fn obeys_from_spec() -> bool {
        true
    }

    open spec fn from_spec(v: Provenance) -> ProvenanceOutput {
        provenance_shown(v)
    }
}

/// Stable kebab-case type-reference context spelling in raw-reference output.
#[derive(Debug, Clone, Copy, PartialEq, Eq, Structural)]
pub enum TypeRefContextOutput {
    ParameterType,
    ReturnType,
    Field,
    GenericArg,
    Attribute,
    Other,
}

impl TypeRefContextOutput {
    /// The stable spelling.
    pub open spec fn spelling(self) -> Seq<char> {
        match self {
            TypeRefContextOutput::ParameterType => "parameter-type"@,
            TypeRefContextOutput::ReturnType => "return-type"@,
            TypeRefContextOutput::Field => "field"@,
            TypeRefContextOutput::GenericArg => "generic-arg"@,
            TypeRefContextOutput::Attribute => "attribute"@,
            TypeRefContextOutput::Other => "other"@,
        }
    }

    /// The stable spelling.
    pub fn as_str(self) -> (r: &'static str)
        ensures
            r@ == self.spelling(),
    {
        match self {
            TypeRefContextOutput::ParameterType => "parameter-type",
            TypeRefContextOutput::ReturnType => "return-type",
            TypeRefContextOutput::Field => "field",
            TypeRefContextOutput::GenericArg => "generic-arg",
            TypeRefContextOutput::Attribute => "attribute",
            TypeRefContextOutput::Other => "other",
        }
    }
}

/// The output spelling of the value.
pub open spec fn type_ref_context_shown(v: TypeRefContext) -> TypeRefContextOutput {
    match v {
        TypeRefContext::ParameterType => TypeRefContextOutput::ParameterType,
        TypeRefContext::ReturnType => TypeRefContextOutput::ReturnType,
        TypeRefContext::Field => TypeRefContextOutput::Field,
        TypeRefContext::GenericArg => TypeRefContextOutput::GenericArg,
        TypeRefContext::Attribute => TypeRefContextOutput::Attribute,
        TypeRefContext::Other => TypeRefContextOutput::Other,
    }
}

impl From<TypeRefContext> for TypeRefContextOutput {
    fn from(value: TypeRefContext) -> (r: TypeRefContextOutput) {
        match value {
            TypeRefContext::ParameterType => TypeRefContextOutput::ParameterType,
            TypeRefContext::ReturnType => TypeRefContextOutput::ReturnType,
            TypeRefContext::Field => TypeRefContextOutput::Field,
            TypeRefContext::GenericArg => TypeRefContextOutput::GenericArg,
            TypeRefContext::Attribute => TypeRefContextOutput::Attribute,
            TypeRefContext::Other => TypeRefContextOutput::Other,
        }
    }
}

impl vstd::std_specs::convert::FromSpecImpl<TypeRefContext> for TypeRefContextOutput {
    open spec fn obeys_from_spec() -> bool {
        true
    }

    open spec fn from_spec(v: TypeRefContext) -> TypeRefContextOutput {
        type_ref_context_shown(v)
    }
}

/// One omission of the selected snapshot.
#[derive(Debug, Clone, PartialEq, Eq)]
pub struct OmissionOutput {
    pub path: String,
    pub reason: String,
    pub detail: String,
}

impl OmissionOutput {
    /// The texts.
    pub open spec fn view(self) -> OmissionView {
        OmissionView { path: self.path@, reason: self.reason@, detail: self.detail@ }
    }
}

/// The texts of the omissions.
pub open spec fn omission_output_views(v: Seq<OmissionOutput>) -> Seq<OmissionView> {
    v.map_values(|o: OmissionOutput| o@)
}

/// The omissions as they are shown.
pub fn omission_outputs(omissions: &Vec<CacheOmission>) -> (r: Vec<OmissionOutput>)
    ensures
        omission_output_views(r@) == omission_views(omissions@),
{
    let mut r: Vec<OmissionOutput> = Vec::new();
    let mut i: usize = 0;
    while i < omissions.len()
        invariant
            i <= omissions.len(),
            r@.len() == i,
            forall|j: int| 0 <= j < i ==> (#[trigger] r@[j])@ == omissions@[j]@,
        decreases omissions.len() - i,
    {
        let o = &omissions[i];
        r.push(
            OmissionOutput {
                path: o.path.clone(),
                reason: o.reason.clone(),
                detail: o.detail.clone(),
            },
        );
        i += 1;
    }
    assert(omission_output_views(r@) =~= omission_views(omissions@));
    r
}

/// Project metadata carried by successful machine envelopes.
#[derive(Debug, Clone, PartialEq, Eq)]
pub struct ProjectOutput {
    pub root: String,
    pub snapshot: String,
    pub tier: ResolverTier,
    pub freshness: Freshness,
    pub cache: CacheDisposition,
    pub completeness: CacheCompletenessOutput,
    pub omitted_files: usize,
    pub omissions: Vec<OmissionOutput>,
}

/// The texts and values of project metadata.
pub struct ProjectView {
    pub root: Seq<char>,
    pub snapshot: Seq<char>,
    pub tier: ResolverTier,
    pub freshness: Freshness,
    pub cache: CacheDisposition,
    pub completeness: CacheCompletenessOutput,
    pub omitted_files: usize,
    pub omissions: Seq<OmissionView>,
}

impl ProjectOutput {
    /// The texts and values.
    pub open spec fn view(self) -> ProjectView {
        ProjectView {
            root: self.root@,
            snapshot: self.snapshot@,
            tier: self.tier,
            freshness: self.freshness,
            cache: self.cache,
            completeness: self.completeness,
            omitted_files: self.omitted_files,
            omissions: omission_output_views(self.omissions@),
        }
    }

    /// A copy.
    pub fn copied(&self) -> (r: Self)
        ensures
            r@ == self@,
    {
        let mut omissions: Vec<OmissionOutput> = Vec::new();
        let mut i: usize = 0;
        while i < self.omissions.len()
            invariant
                i <= self.omissions.len(),
                omissions@.len() == i,
                forall|j: int| 0 <= j < i ==> (#[trigger] omissions@[j])@ == self.omissions@[j]@,
            decreases self.omissions.len() - i,
        {
            let o = &self.omissions[i];
            omissions.push(
                OmissionOutput {
                    path: o.path.clone(),
                    reason: o.reason.clone(),
                    detail: o.detail.clone(),
                },
            );
            i += 1;
        }
        assert(omission_output_views(omissions@) =~= omission_output_views(self.omissions@));
        ProjectOutput {
            root: self.root.clone(),
            snapshot: self.snapshot.clone(),
            tier: self.tier,
            freshness: self.freshness,
            cache: self.cache,
            completeness: self.completeness,
            omitted_files: self.omitted_files,
            omissions,
        }
    }
}

/// Owned definition data. `id` is always the lossless wire identity; `id_display` is
/// only a convenience for people and other tools.
#[derive(Debug, Clone, PartialEq, Eq)]
pub struct SymbolOutput {
    pub id: SymbolId,
    pub id_display: String,
    pub name: String,
    pub kind: SymbolKindOutput,
    pub file: String,
    pub line: u32,
    pub signature: String,
}

/// The texts and values of a shown definition.
pub struct SymbolOutputView {
    pub id: IdView,
    pub id_display: Seq<char>,
    pub name: Seq<char>,
    pub kind: SymbolKindOutput,
    pub file: Seq<char>,
    pub line: u32,
    pub signature: Seq<char>,
}

impl SymbolOutput {
    /// The texts and values.
    pub open spec fn view(self) -> SymbolOutputView {
        SymbolOutputView {
            id: self.id@,
            id_display: self.id_display@,
            name: self.name@,
            kind: self.kind,
            file: self.file@,
            line: self.line,
            signature: self.signature@,
        }
    }

    /// The shown form of a definition, with the file as it is given.
    pub fn of(symbol: &Symbol, file: String) -> (r: Self)
        ensures
            r@ == symbol_shown(symbol@, file@),
    {
        SymbolOutput {
            id: symbol.id.copied(),
            id_display: symbol.id.to_scip_string(),
            name: symbol.name.clone(),
            kind: SymbolKindOutput::from(symbol.kind),
            file,
            line: symbol.line,
            signature: symbol.signature.clone(),
        }
    }

    /// A copy.
    pub fn copied(&self) -> (r: Self)
        ensures
            r@ == self@,
    {
        SymbolOutput {
            id: self.id.copied(),
            id_display: self.id_display.clone(),
            name: self.name.clone(),
            kind: self.kind,
            file: self.file.clone(),
            line: self.line,
            signature: self.signature.clone(),
        }
    }
}

/// The shown form of a definition that lies in the file.
pub open spec fn symbol_shown(s: SymbolView, file: Seq<char>) -> SymbolOutputView {
    SymbolOutputView {
        id: s.id,
        id_display: id_display(s.id),
        name: s.name,
        kind: symbol_kind_shown(s.kind),
        file,
        line: s.line,
        signature: s.signature,
    }
}

/// A source occurrence. Lines count from one and columns from zero, as in the graph.
#[derive(Debug, Clone, PartialEq, Eq)]
pub struct OccurrenceOutput {
    pub file: String,
    pub line: u32,
    pub column: u32,
    pub byte: usize,
}

impl OccurrenceOutput {
    /// The place.
    pub open spec fn view(self) -> OccurrenceView {
        OccurrenceView { file: self.file@, line: self.line, col: self.column, byte: self.byte }
    }
}

/// One resolved graph relation. Endpoint identities are always lossless.
#[derive(Debug, Clone, PartialEq, Eq)]
pub struct RelationOutput {
    pub from: SymbolId,
    pub to: SymbolId,
    pub role: RefRoleOutput,
    pub confidence: ConfidenceOutput,
    pub provenance: ProvenanceOutput,
    pub occurrence: OccurrenceOutput,
}

/// The texts and values of a shown relation.
pub struct RelationView {
    pub from: IdView,
    pub to: IdView,
    pub role: RefRoleOutput,
    pub confidence: ConfidenceOutput,
    pub provenance: ProvenanceOutput,
    pub occurrence: OccurrenceView,
}

impl RelationOutput {
    /// The texts and values.
    pub open spec fn view(self) -> RelationView {
        RelationView {
            from: self.from@,
            to: self.to@,
            role: self.role,
            confidence: self.confidence,
            provenance: self.provenance,
            occurrence: self.occurrence@,
        }
    }
}

/// One bounded reverse-reachability row: what reaches the seed, over which relation,
/// and how far away.
#[derive(Debug, Clone, PartialEq, Eq)]
pub struct ImpactOutput {
    pub seed: SymbolId,
    pub symbol: SymbolId,
    pub parent: SymbolId,
    pub depth: u32,
    pub path_confidence: ConfidenceOutput,
    pub via: RelationOutput,
}

/// The texts and values of an impact row.
pub struct ImpactView {
    pub seed: IdView,
    pub symbol: IdView,
    pub parent: IdView,
    pub depth: u32,
    pub path_confidence: ConfidenceOutput,
    pub via: RelationView,
}

impl ImpactOutput {
    /// The texts and values.
    pub open spec fn view(self) -> ImpactView {
        ImpactView {
            seed: self.seed@,
            symbol: self.symbol@,
            parent: self.parent@,
            depth: self.depth,
            path_confidence: self.path_confidence,
            via: self.via@,
        }
    }
}

/// One raw extracted reference, including unresolved references that therefore have
/// no graph endpoint.
#[derive(Debug, Clone, PartialEq, Eq)]
pub struct ReferenceOutput {
    pub name: String,
    pub role: RefRoleOutput,
    pub occurrence: OccurrenceOutput,
    pub source_module: Option<String>,
    pub from_path: Option<String>,
    pub qualifier: Option<String>,
    pub type_ref_context: Option<TypeRefContextOutput>,
}

/// The target of a module dependency.
#[derive(Debug, Clone, PartialEq, Eq)]
pub enum ModuleDependencyTargetOutput {
    /// Resolved definitions aggregate at their normalized project-relative file.
    File { file: String },
    /// Endpoints without a definition keep their complete structural identity.
    External { id: SymbolId, id_display: String },
}

/// A deterministic aggregation row.
#[derive(Debug, Clone, PartialEq, Eq)]
pub struct ModuleDependencyOutput {
    pub source_file: String,
    pub target: ModuleDependencyTargetOutput,
    pub role: RefRoleOutput,
    pub count: usize,
    pub evidence: Vec<RelationOutput>,
}

/// What a snapshot holds.
#[derive(Debug, Clone, Copy, PartialEq, Eq, Structural)]
pub struct StatusInventoryOutput {
    pub admitted_files: u64,
    pub total_bytes: u64,
}

/// Cache and project information.
#[derive(Debug, Clone, PartialEq, Eq)]
pub struct StatusOutput {
    pub project: ProjectOutput,
    pub inventory: StatusInventoryOutput,
    pub max_files: usize,
    pub max_file_bytes: usize,
    pub max_total_bytes: usize,
    pub max_depth: u32,
    pub result_limit: usize,
    pub impact_depth: u32,
    pub timeout_millis: Option<u64>,
}

/// A timeout as it is shown: in whole milliseconds.
pub open spec fn timeout_shown(timeout: Option<Duration>) -> Option<u64> {
    match timeout {
        Some(d) => Some(saturated(nanoseconds(d) / 1_000_000)),
        None => None,
    }
}

impl StatusOutput {
    /// The status of a snapshot under the limits.
    pub fn from_loaded_snapshot(
        project: ProjectOutput,
        snapshot: &LoadedSnapshot,
        limits: &ResourceLimits,
    ) -> (r: Self)
        ensures
            r.project == project,
            r.inventory.admitted_files == snapshot.inventory_file_count,
            r.inventory.total_bytes == snapshot.inventory_total_bytes,
            r.max_files == limits.max_files,
            r.max_file_bytes == limits.max_file_bytes,
            r.max_total_bytes == limits.max_total_bytes,
            r.max_depth == limits.max_depth,
            r.result_limit == limits.result_limit,
            r.impact_depth == DEFAULT_IMPACT_DEPTH,
            r.timeout_millis == timeout_shown(limits.timeout),
    {
        let timeout_millis: Option<u64> = match limits.timeout {
            Some(timeout) => Some(whole_milliseconds(timeout)),
            None => None,
        };
        StatusOutput {
            project,
            inventory: StatusInventoryOutput {
                admitted_files: snapshot.inventory_file_count,
                total_bytes: snapshot.inventory_total_bytes,
            },
            max_files: limits.max_files,
            max_file_bytes: limits.max_file_bytes,
            max_total_bytes: limits.max_total_bytes,
            max_depth: limits.max_depth,
            result_limit: limits.result_limit,
            impact_depth: DEFAULT_IMPACT_DEPTH,
            timeout_millis,
        }
    }
}

/// How many sources each decision of a refresh took.
#[derive(Debug, Clone, Copy, PartialEq, Eq, Structural)]
pub struct PlanDecisionCountsOutput {
    pub need_hash: usize,
    pub reuse_facts: usize,
    pub extract: usize,
    pub remove: usize,
    pub omit: usize,
}

/// The counts of the first `n` entries.
pub open spec fn decision_counts(entries: Seq<RefreshEntry>, n: int) -> (int, int, int, int, int)
    decreases n,
{
    if n <= 0 {
        (0, 0, 0, 0, 0)
    } else {
        let c = decision_counts(entries, n - 1);
        match entries[n - 1].decision {
            RefreshDecision::NeedHash => (c.0 + 1, c.1, c.2, c.3, c.4),
            RefreshDecision::ReuseFacts => (c.0, c.1 + 1, c.2, c.3, c.4),
            RefreshDecision::Extract => (c.0, c.1, c.2 + 1, c.3, c.4),
            RefreshDecision::Remove => (c.0, c.1, c.2, c.3 + 1, c.4),
            RefreshDecision::Omit { .. } => (c.0, c.1, c.2, c.3, c.4 + 1),
        }
    }
}

impl PlanDecisionCountsOutput {
    /// The counts, in the order of [`decision_counts`].
    pub open spec fn counted(self) -> (int, int, int, int, int) {
        (
            self.need_hash as int,
            self.reuse_facts as int,
            self.extract as int,
            self.remove as int,
            self.omit as int,
        )
    }

    /// Counts the decisions of a plan.
    pub fn of(plan: &RefreshPlan) -> (r: Self)
        ensures
            r.counted() == decision_counts(plan.entries@, plan.entries@.len() as int),
    {
        let mut r = PlanDecisionCountsOutput {
            need_hash: 0,
            reuse_facts: 0,
            extract: 0,
            remove: 0,
            omit: 0,
        };
        let mut i: usize = 0;
        while i < plan.entries.len()
            invariant
                i <= plan.entries.len(),
                decision_counts(plan.entries@, i as int) == (
                    r.need_hash as int,
                    r.reuse_facts as int,
                    r.extract as int,
                    r.remove as int,
                    r.omit as int,
                ),
                r.need_hash + r.reuse_facts + r.extract + r.remove + r.omit == i,
            decreases plan.entries.len() - i,
        {
            match plan.entries[i].decision {
                RefreshDecision::NeedHash => {
                    r.need_hash += 1;
                },
                RefreshDecision::ReuseFacts => {
                    r.reuse_facts += 1;
                },
                RefreshDecision::Extract => {
                    r.extract += 1;
                },
                RefreshDecision::Remove => {
                    r.remove += 1;
                },
                RefreshDecision::Omit { .. } => {
                    r.omit += 1;
                },
            }
            i += 1;
        }
        r
    }
}

/// What an indexing run did.
#[derive(Debug, Clone, PartialEq, Eq)]
pub struct IndexOutput {
    pub snapshot: String,
    pub tier: ResolverTier,
    pub completeness: CacheCompletenessOutput,
    pub inventory_file_count: u64,
    pub inventory_total_bytes: u64,
    pub changed: usize,
    pub deleted: usize,
    pub ignored_omissions: usize,
    pub attempts: u8,
    pub decisions: PlanDecisionCountsOutput,
}

impl IndexOutput {
    /// The result of an indexing run that gave the snapshot.
    pub fn from_loaded_snapshot(
        snapshot: &LoadedSnapshot,
        tier: ResolverTier,
        changed: usize,
        deleted: usize,
        ignored_omissions: usize,
        attempts: u8,
        decisions: PlanDecisionCountsOutput,
    ) -> (r: Self)
        ensures
            r.snapshot@ == hex(snapshot.candidate_id.bytes@),
            r.tier == tier,
            r.completeness == completeness_shown(snapshot.completeness),
            r.inventory_file_count == snapshot.inventory_file_count,
            r.inventory_total_bytes == snapshot.inventory_total_bytes,
            r.changed == changed,
            r.deleted == deleted,
            r.ignored_omissions == ignored_omissions,
            r.attempts == attempts,
            r.decisions == decisions,
    {
        IndexOutput {
            snapshot: hex_text(snapshot.candidate_id.bytes.as_slice()),
            tier,
            completeness: CacheCompletenessOutput::from(snapshot.completeness),
            inventory_file_count: snapshot.inventory_file_count,
            inventory_total_bytes: snapshot.inventory_total_bytes,
            changed,
            deleted,
            ignored_omissions,
            attempts,
            decisions,
        }
    }
}

/// A lossless selector report, emitted before result limiting.
#[derive(Debug, Clone, PartialEq, Eq)]
pub struct SelectorOutput {
    pub matched: usize,
    pub ambiguous: bool,
    pub ids: Vec<SymbolId>,
    pub symbols: Vec<SymbolOutput>,
}

/// Versioned output shared by every command-specific owned result record.
#[derive(Debug, Clone, PartialEq, Eq)]
pub struct OutputEnvelope<T> {
    pub schema_version: u32,
    pub status: OutputStatus,
    pub project: Option<ProjectOutput>,
    pub selector: Option<SelectorOutput>,
    pub returned: usize,
    pub total: usize,
    pub truncated: bool,
    pub results: T,
}

impl<T> OutputEnvelope<T> {
    /// An envelope without project, selector and counts.
    pub fn new(status: OutputStatus, results: T) -> (r: Self)
        ensures
            r.schema_version == OUTPUT_SCHEMA_VERSION,
            r.status == status,
            r.project is None,
            r.selector is None,
            r.returned == 0,
            r.total == 0,
            !r.truncated,
            r.results == results,
    {
        OutputEnvelope {
            schema_version: OUTPUT_SCHEMA_VERSION,
            status,
            project: None,
            selector: None,
            returned: 0,
            total: 0,
            truncated: false,
            results,
        }
    }
}

/// Versioned failure record for machine output.
#[derive(Debug, Clone, PartialEq, Eq)]
pub struct ErrorEnvelope {
    pub schema_version: u32,
    pub status: OutputStatus,
    pub error: String,
}

impl ErrorEnvelope {
    /// A failure record.
    pub fn new(status: OutputStatus, error: String) -> (r: Self)
        ensures
            r.schema_version == OUTPUT_SCHEMA_VERSION,
            r.status == status,
            r.error == error,
    {
        ErrorEnvelope { schema_version: OUTPUT_SCHEMA_VERSION, status, error }
    }
}

} // verus!
