//! Snapshots under the command policy: whether one is current, how it is loaded, and
//! what is told about it.

use vstd::prelude::*;
use vstd::string::*;
use crate::cache::fingerprint::{
    blake3_of, candidate_preimage, omission_views, CandidateId, CompatibilityFingerprint,
    LanguageFeatureFingerprint, PackageFingerprint, ProjectInputDigest,
};
use crate::cache::load::{completeness_of, header_readable, CandidateSnapshotRow};
use crate::cache::location::{hex, hex_text, is_chosen_location, CacheLocation};
use crate::cache::rows::{
    fixed_32, keys_ascend, nonnegative, omission_keys, omissions_sorted,
};
use crate::cache::snapshot::{
    CandidateSnapshot, CompatibilityRecord, LoadedSnapshot,
};
use crate::cache::types::{CacheCompleteness, CacheError, CacheOmission, ResolverCacheTier};
use crate::config::{ResolverTier, ResourceLimits, DEFAULT_IMPACT_DEPTH};
use crate::deadline::{failure_of, may_find, nanoseconds, Cancellation, Deadline};
use crate::error::CliError;
use crate::execution::types::LoadedGraph;
use crate::graph::CodeGraph;
use crate::inventory::types::{MtimeHint, OmissionImpact, SourceCandidate, SourceDiscovery};
use crate::project::native::Platform;
use crate::project::select::ProjectSelection;
use crate::refresh::prepare::finish::PreparedRefreshCandidate;
use crate::result::{
    completeness_shown, decision_counts, omission_outputs, status_of, success_status,
    timeout_shown, CacheCompletenessOutput, CacheDisposition, Freshness, IndexOutput,
    OutputEnvelope, PlanDecisionCountsOutput, ProjectOutput, ProjectView, StatusOutput,
    OUTPUT_SCHEMA_VERSION,
};
use crate::text::{lossy, lossy_text, same_text};

verus! {

/// A snapshot without its files and graphs.
#[derive(Debug, Clone, PartialEq, Eq)]
pub struct ActiveSnapshotMetadata {
    pub candidate_id: CandidateId,
    pub compatibility: CompatibilityRecord,
    pub input_digest: ProjectInputDigest,
    pub completeness: CacheCompleteness,
    pub omissions: Vec<CacheOmission>,
    pub created_at_ns: u64,
    pub inventory_file_count: u64,
    pub inventory_total_bytes: u64,
}

/// The row and the omissions of a candidate agree with its identity.
pub open spec fn metadata_readable(
    id: Seq<u8>,
    header: CandidateSnapshotRow,
    omissions: Seq<CacheOmission>,
) -> bool {
    &&& header_readable(header)
    &&& id == blake3_of(
        candidate_preimage(
            header.compatibility_id@,
            header.input_digest@,
            completeness_of(header.completeness)->0,
            omission_views(omissions),
        ),
    )
    &&& keys_ascend(omission_keys(omissions))
    &&& header.created_at_ns >= 0
    &&& header.compatibility_created_at_ns >= 0
}

/// The metadata holds what the row does.
pub open spec fn is_metadata_of(
    m: ActiveSnapshotMetadata,
    id: Seq<u8>,
    header: CandidateSnapshotRow,
    omissions: Seq<CacheOmission>,
) -> bool {
    &&& m.candidate_id.bytes@ == id
    &&& m.compatibility.id.bytes@ == header.compatibility_id@
    &&& m.compatibility.language_fingerprint.bytes@ == header.language_fingerprint@
    &&& m.compatibility.package_fingerprint.bytes@ == header.package_fingerprint@
    &&& m.compatibility.created_at_ns == header.compatibility_created_at_ns
    &&& m.input_digest.bytes@ == header.input_digest@
    &&& Some(m.completeness) == completeness_of(header.completeness)
    &&& m.omissions@ == omissions
    &&& m.created_at_ns == header.created_at_ns
    &&& m.inventory_file_count == header.inventory_file_count
    &&& m.inventory_total_bytes == header.inventory_total_bytes
}

/// Reads the metadata of a candidate without its files and graphs. A row that does not
/// agree with the identity is corruption.
pub fn active_metadata(
    candidate_id: CandidateId,
    header: &CandidateSnapshotRow,
    omissions: Vec<CacheOmission>,
) -> (r: Result<ActiveSnapshotMetadata, CacheError>)
    ensures
        match r {
            Ok(m) => metadata_readable(candidate_id.bytes@, *header, omissions@) && is_metadata_of(
                m,
                candidate_id.bytes@,
                *header,
                omissions@,
            ),
            Err(e) => e == CacheError::Corrupt && !metadata_readable(
                candidate_id.bytes@,
                *header,
                omissions@,
            ),
        },
{
    let id = CompatibilityFingerprint { bytes: fixed_32(header.compatibility_id.as_slice())? };
    let language_fingerprint = LanguageFeatureFingerprint {
        bytes: fixed_32(header.language_fingerprint.as_slice())?,
    };
    let package_fingerprint = PackageFingerprint {
        bytes: fixed_32(header.package_fingerprint.as_slice())?,
    };
    if !id.same(&CompatibilityFingerprint::new(language_fingerprint, package_fingerprint)) {
        return Err(CacheError::Corrupt);
    }
    let input_digest = ProjectInputDigest { bytes: fixed_32(header.input_digest.as_slice())? };
    let completeness = CacheCompleteness::from_sql(header.completeness)?;
    let inventory_file_count = nonnegative(header.inventory_file_count)?;
    let inventory_total_bytes = nonnegative(header.inventory_total_bytes)?;
    if !candidate_id.same(&CandidateId::new(id, input_digest, completeness, &omissions))
        || !omissions_sorted(&omissions) {
        return Err(CacheError::Corrupt);
    }
    let compatibility_created_at = nonnegative(header.compatibility_created_at_ns)?;
    let created_at_ns = nonnegative(header.created_at_ns)?;
    Ok(
        ActiveSnapshotMetadata {
            candidate_id,
            compatibility: CompatibilityRecord {
                id,
                language_fingerprint,
                package_fingerprint,
                created_at_ns: compatibility_created_at,
            },
            input_digest,
            completeness,
            omissions,
            created_at_ns,
            inventory_file_count,
            inventory_total_bytes,
        },
    )
}

/// The cache of the selected project: below the given base, or below the directory that
/// the operating system has for caches, where there is one. It never lies in the
/// project, whose root is given by the native bytes that identify it too.
pub fn cache_location(
    cache_base: Option<&[u8]>,
    selection: &ProjectSelection,
    platform: Platform,
    native_root: &[u8],
) -> (r: Result<CacheLocation, CliError>)
    ensures
        is_chosen_location(
            r.ok(),
            cache_base,
            selection.canonical_root@,
            platform,
            native_root@,
        ),
        r matches Err(e) ==> e.is_cache(
            if cache_base is Some {
                "the cache base lies in the project"@
            } else {
                "no operating-system cache directory is available"@
            },
        ),
{
    match CacheLocation::for_native_project(
        cache_base,
        selection.canonical_root.as_slice(),
        platform,
        native_root,
    ) {
        Some(location) => Ok(location),
        None => match cache_base {
            Some(_) => Err(CliError::Cache("the cache base lies in the project".to_owned())),
            None => Err(
                CliError::Cache("no operating-system cache directory is available".to_owned()),
            ),
        },
    }
}

/// What the cache knows of a source without its facts.
#[derive(Debug, Clone, PartialEq, Eq)]
pub struct CachedFileMetadata {
    pub path: String,
    pub language: String,
    pub size_bytes: u64,
    pub mtime: Option<MtimeHint>,
}

/// The configured timeout in nanoseconds.
pub open spec fn timeout_span(limits: ResourceLimits) -> Option<nat> {
    match limits.timeout {
        Some(duration) => Some(nanoseconds(duration)),
        None => None,
    }
}

/// The deadline of a command, checked before anything is selected.
pub fn deadline_before_selection<C: Cancellation>(limits: &ResourceLimits, cancellation: &C) -> (r:
    Result<Deadline, CliError>)
    ensures
        exists|deadline: Deadline| #[trigger]
            may_find(deadline, cancellation, failure_of(r)) && deadline.span() == timeout_span(
                *limits,
            ) && (r matches Ok(made) ==> made == deadline),
        r == Err::<Deadline, CliError>(CliError::Cancelled) ==> !cancellation.never_cancels(),
{
    let deadline = Deadline::new(limits.timeout);
    deadline.check(cancellation)?;
    Ok(deadline)
}

/// Two compatibilities agree in their identity and in all its parts.
pub open spec fn same_compatibility(a: CompatibilityRecord, b: CompatibilityRecord) -> bool {
    &&& a.id.bytes@ == b.id.bytes@
    &&& a.language_fingerprint.bytes@ == b.language_fingerprint.bytes@
    &&& a.package_fingerprint.bytes@ == b.package_fingerprint.bytes@
}

/// A refresh hit the cache when it started from a prior of the same compatibility.
pub fn refresh_cache_disposition(
    prior: Option<&LoadedSnapshot>,
    prepared: &PreparedRefreshCandidate,
) -> (r: CacheDisposition)
    ensures
        r == (if prior is Some && same_compatibility(
            prior->0.compatibility,
            prepared.snapshot.compatibility,
        ) {
            CacheDisposition::Hit
        } else {
            CacheDisposition::Miss
        }),
{
    let current = &prepared.snapshot.compatibility;
    match prior {
        Some(prior) => if prior.compatibility.id.same(&current.id)
            && prior.compatibility.language_fingerprint.same(&current.language_fingerprint)
            && prior.compatibility.package_fingerprint.same(&current.package_fingerprint) {
            CacheDisposition::Hit
        } else {
            CacheDisposition::Miss
        },
        None => CacheDisposition::Miss,
    }
}

/// A partial candidate is refused where partial ones are not allowed.
pub fn enforce_partial(prepared: &PreparedRefreshCandidate, allowed: bool) -> (r: Result<
    (),
    CliError,
>)
    ensures
        r is Ok <==> prepared.snapshot.completeness == CacheCompleteness::Complete || allowed,
        r matches Err(e) ==> e == CliError::PartialNotAllowed,
{
    if prepared.snapshot.completeness == CacheCompleteness::Partial && !allowed {
        Err(CliError::PartialNotAllowed)
    } else {
        Ok(())
    }
}

/// The file is as the cache knows it, as far as metadata tell.
pub open spec fn is_unchanged(candidate: SourceCandidate, cached: CachedFileMetadata) -> bool {
    &&& candidate.path@ == cached.path@
    &&& candidate.language is Some
    &&& candidate.language->0.tag() == cached.language@
    &&& candidate.size_bytes == cached.size_bytes
    &&& candidate.mtime == cached.mtime
}

/// The sources are those of a complete snapshot, as far as metadata tell, and none may
/// be hidden.
pub open spec fn are_current(
    metadata: ActiveSnapshotMetadata,
    discovery: SourceDiscovery,
    cached: Seq<CachedFileMetadata>,
) -> bool {
    &&& metadata.completeness == CacheCompleteness::Complete
    &&& forall|i: int|
        0 <= i < discovery.omitted@.len() ==> (#[trigger] discovery.omitted@[i]).impact
            != OmissionImpact::IncompleteSourceSet
    &&& discovery.candidates@.len() == metadata.inventory_file_count
    &&& cached.len() == discovery.candidates@.len()
    &&& forall|i: int|
        0 <= i < cached.len() ==> is_unchanged(discovery.candidates@[i], #[trigger] cached[i])
}

/// Tells whether the sources are those of a snapshot.
pub fn cached_sources_are_current(
    metadata: &ActiveSnapshotMetadata,
    discovery: &SourceDiscovery,
    cached: &Vec<CachedFileMetadata>,
) -> (r: bool)
    ensures
        r == are_current(*metadata, *discovery, cached@),
{
    if metadata.completeness != CacheCompleteness::Complete {
        return false;
    }
    let mut i: usize = 0;
    while i < discovery.omitted.len()
        invariant
            i <= discovery.omitted.len(),
            forall|j: int|
                0 <= j < i ==> (#[trigger] discovery.omitted@[j]).impact
                    != OmissionImpact::IncompleteSourceSet,
        decreases discovery.omitted.len() - i,
    {
        if discovery.omitted[i].impact == OmissionImpact::IncompleteSourceSet {
            return false;
        }
        i += 1;
    }
    if discovery.candidates.len() as u64 != metadata.inventory_file_count || cached.len()
        != discovery.candidates.len() {
        return false;
    }
    let mut k: usize = 0;
    while k < cached.len()
        invariant
            k <= cached.len(),
            cached@.len() == discovery.candidates@.len(),
            forall|j: int|
                0 <= j < k ==> is_unchanged(discovery.candidates@[j], #[trigger] cached@[j]),
        decreases cached.len() - k,
    {
        let candidate = &discovery.candidates[k];
        let known = &cached[k];
        let same_language = match candidate.language {
            Some(language) => same_text(language.as_str(), known.language.as_str()),
            None => false,
        };
        if !same_text(candidate.path.as_str(), known.path.as_str()) || !same_language
            || candidate.size_bytes != known.size_bytes || candidate.mtime != known.mtime {
            assert(!is_unchanged(discovery.candidates@[k as int], cached@[k as int]));
            return false;
        }
        k += 1;
    }
    true
}

/// What is told about the project and its snapshot.
pub open spec fn project_view(
    selection: ProjectSelection,
    snapshot: LoadedSnapshot,
    tier: ResolverTier,
    freshness: Freshness,
    cache: CacheDisposition,
) -> ProjectView {
    ProjectView {
        root: lossy_text(selection.canonical_root@),
        snapshot: hex(snapshot.candidate_id.bytes@),
        tier,
        freshness,
        cache,
        completeness: completeness_shown(snapshot.completeness),
        omitted_files: snapshot.omissions@.len() as usize,
        omissions: omission_views(snapshot.omissions@),
    }
}

/// What is told about the project and its snapshot.
pub fn project_output(
    selection: &ProjectSelection,
    snapshot: &LoadedSnapshot,
    tier: ResolverTier,
    freshness: Freshness,
    cache: CacheDisposition,
) -> (r: ProjectOutput)
    ensures
        r@ == project_view(*selection, *snapshot, tier, freshness, cache),
{
    ProjectOutput {
        root: lossy(selection.canonical_root.as_slice()),
        snapshot: hex_text(snapshot.candidate_id.bytes.as_slice()),
        tier,
        freshness,
        cache,
        completeness: CacheCompletenessOutput::from(snapshot.completeness),
        omitted_files: snapshot.omissions.len(),
        omissions: omission_outputs(&snapshot.omissions),
    }
}

/// The snapshot of the metadata, without files and graphs.
pub open spec fn is_bare_snapshot(s: LoadedSnapshot, metadata: ActiveSnapshotMetadata) -> bool {
    &&& s.candidate_id == metadata.candidate_id
    &&& s.compatibility == metadata.compatibility
    &&& s.input_digest == metadata.input_digest
    &&& s.completeness == metadata.completeness
    &&& s.omissions == metadata.omissions
    &&& s.created_at_ns == metadata.created_at_ns
    &&& s.inventory_file_count == metadata.inventory_file_count
    &&& s.inventory_total_bytes == metadata.inventory_total_bytes
    &&& s.files@.len() == 0
    &&& s.tier_graphs@.len() == 0
}

/// A snapshot that is known by its metadata, for commands that do not load it whole.
pub fn loaded_from_metadata(
    selection: ProjectSelection,
    metadata: ActiveSnapshotMetadata,
    tier: ResolverTier,
    freshness: Freshness,
    cache: CacheDisposition,
) -> (r: LoadedGraph)
    ensures
        r.selection == selection,
        is_bare_snapshot(r.snapshot, metadata),
        r.graph.symbols@.len() == 0,
        r.graph.edges@.len() == 0,
        r.project@ == project_view(selection, r.snapshot, tier, freshness, cache),
{
    let snapshot = LoadedSnapshot {
        candidate_id: metadata.candidate_id,
        compatibility: metadata.compatibility,
        input_digest: metadata.input_digest,
        completeness: metadata.completeness,
        omissions: metadata.omissions,
        created_at_ns: metadata.created_at_ns,
        inventory_file_count: metadata.inventory_file_count,
        inventory_total_bytes: metadata.inventory_total_bytes,
        files: Vec::new(),
        tier_graphs: Vec::new(),
    };
    let project = project_output(&selection, &snapshot, tier, freshness, cache);
    LoadedGraph {
        selection,
        snapshot,
        graph: CodeGraph { symbols: Vec::new(), edges: Vec::new() },
        project,
    }
}

/// The candidate as a snapshot.
pub fn loaded_from_candidate(snapshot: CandidateSnapshot) -> (r: LoadedSnapshot)
    ensures
        r.candidate_id == snapshot.candidate_id,
        r.compatibility == snapshot.compatibility,
        r.input_digest == snapshot.input_digest,
        r.completeness == snapshot.completeness,
        r.omissions == snapshot.omissions,
        r.created_at_ns == snapshot.created_at_ns,
        r.inventory_file_count == snapshot.inventory_file_count,
        r.inventory_total_bytes == snapshot.inventory_total_bytes,
        r.files == snapshot.files,
        r.tier_graphs == snapshot.tier_graphs,
{
    LoadedSnapshot {
        candidate_id: snapshot.candidate_id,
        compatibility: snapshot.compatibility,
        input_digest: snapshot.input_digest,
        completeness: snapshot.completeness,
        omissions: snapshot.omissions,
        created_at_ns: snapshot.created_at_ns,
        inventory_file_count: snapshot.inventory_file_count,
        inventory_total_bytes: snapshot.inventory_total_bytes,
        files: snapshot.files,
        tier_graphs: snapshot.tier_graphs,
    }
}

/// The first graph of the tier stands at the place.
pub open spec fn graph_place(
    graphs: Seq<(ResolverCacheTier, CodeGraph)>,
    tier: ResolverCacheTier,
    i: int,
) -> bool {
    &&& 0 <= i < graphs.len()
    &&& graphs[i].0 == tier
    &&& forall|j: int| 0 <= j < i ==> (#[trigger] graphs[j]).0 != tier
}

/// The graphs are the same but for an empty one at the place.
pub open spec fn is_emptied_at(
    after: Seq<(ResolverCacheTier, CodeGraph)>,
    before: Seq<(ResolverCacheTier, CodeGraph)>,
    i: int,
) -> bool {
    &&& after.len() == before.len()
    &&& after[i].0 == before[i].0
    &&& after[i].1.symbols@.len() == 0
    &&& after[i].1.edges@.len() == 0
    &&& forall|j: int| 0 <= j < after.len() && j != i ==> #[trigger] after[j] == before[j]
}

/// The loaded graph is that of the tier, taken out of the snapshot.
pub open spec fn is_taken_from(
    r: LoadedGraph,
    selection: ProjectSelection,
    snapshot: LoadedSnapshot,
    tier: ResolverTier,
    freshness: Freshness,
    cache: CacheDisposition,
) -> bool {
    &&& r.selection == selection
    &&& exists|i: int| #[trigger]
        graph_place(snapshot.tier_graphs@, tier.cached(), i) && r.graph
            == snapshot.tier_graphs@[i].1 && is_emptied_at(
            r.snapshot.tier_graphs@,
            snapshot.tier_graphs@,
            i,
        )
    &&& r.snapshot.candidate_id == snapshot.candidate_id
    &&& r.snapshot.compatibility == snapshot.compatibility
    &&& r.snapshot.input_digest == snapshot.input_digest
    &&& r.snapshot.completeness == snapshot.completeness
    &&& r.snapshot.omissions == snapshot.omissions
    &&& r.snapshot.created_at_ns == snapshot.created_at_ns
    &&& r.snapshot.inventory_file_count == snapshot.inventory_file_count
    &&& r.snapshot.inventory_total_bytes == snapshot.inventory_total_bytes
    &&& r.snapshot.files == snapshot.files
    &&& r.project@ == project_view(selection, snapshot, tier, freshness, cache)
}

/// Takes the graph of a tier out of a snapshot; another tier's graph is never taken in
/// its place.
pub fn graph_from_snapshot(
    selection: ProjectSelection,
    snapshot: LoadedSnapshot,
    tier: ResolverTier,
    freshness: Freshness,
    cache: CacheDisposition,
) -> (r: Result<LoadedGraph, CliError>)
    ensures
        match r {
            Ok(loaded) => is_taken_from(loaded, selection, snapshot, tier, freshness, cache),
            Err(e) => {
                &&& e.is_cache("selected snapshot lacks the requested resolver tier graph"@)
                &&& forall|i: int|
                    0 <= i < snapshot.tier_graphs@.len() ==> (#[trigger] snapshot.tier_graphs@[i]).0
                        != tier.cached()
            },
        },
{
    let wanted = ResolverCacheTier::from(tier);
    let mut at: usize = 0;
    while at < snapshot.tier_graphs.len() && snapshot.tier_graphs[at].0 != wanted
        invariant
            at <= snapshot.tier_graphs.len(),
            forall|j: int| 0 <= j < at ==> (#[trigger] snapshot.tier_graphs@[j]).0 != wanted,
        decreases snapshot.tier_graphs.len() - at,
    {
        at += 1;
    }
    if at == snapshot.tier_graphs.len() {
        return Err(
            CliError::Cache("selected snapshot lacks the requested resolver tier graph".to_owned()),
        );
    }
    let ghost whole = snapshot;
    let project = project_output(&selection, &snapshot, tier, freshness, cache);
    let LoadedSnapshot {
        candidate_id,
        compatibility,
        input_digest,
        completeness,
        omissions,
        created_at_ns,
        inventory_file_count,
        inventory_total_bytes,
        files,
        tier_graphs,
    } = snapshot;
    let mut graphs = tier_graphs;
    let (stored, graph) = graphs.remove(at);
    graphs.insert(at, (stored, CodeGraph { symbols: Vec::new(), edges: Vec::new() }));
    assert(graph_place(whole.tier_graphs@, tier.cached(), at as int));
    assert(is_emptied_at(graphs@, whole.tier_graphs@, at as int));
    let snapshot = LoadedSnapshot {
        candidate_id,
        compatibility,
        input_digest,
        completeness,
        omissions,
        created_at_ns,
        inventory_file_count,
        inventory_total_bytes,
        files,
        tier_graphs: graphs,
    };
    Ok(LoadedGraph { selection, snapshot, graph, project })
}

/// What an indexing run tells.
pub fn index_envelope(
    selection: &ProjectSelection,
    snapshot: &LoadedSnapshot,
    prepared: &PreparedRefreshCandidate,
    tier: ResolverTier,
    cache: CacheDisposition,
) -> (r: OutputEnvelope<IndexOutput>)
    ensures
        r.schema_version == OUTPUT_SCHEMA_VERSION,
        r.status == status_of(snapshot.completeness, Freshness::Fresh),
        r.project is Some,
        r.project->0@ == project_view(*selection, *snapshot, tier, Freshness::Fresh, cache),
        r.results.snapshot@ == hex(snapshot.candidate_id.bytes@),
        r.results.tier == tier,
        r.results.completeness == completeness_shown(snapshot.completeness),
        r.results.inventory_file_count == snapshot.inventory_file_count,
        r.results.changed == prepared.changed_paths@.len(),
        r.results.deleted == prepared.deleted_paths@.len(),
        r.results.ignored_omissions == prepared.ignored_omissions@.len(),
        r.results.attempts == prepared.attempts,
        r.results.inventory_total_bytes == snapshot.inventory_total_bytes,
        r.results.decisions.counted() == decision_counts(
            prepared.plan.entries@,
            prepared.plan.entries@.len() as int,
        ),
        r.selector is None,
        r.returned == 0,
        r.total == 0,
        !r.truncated,
{
    let mut envelope = OutputEnvelope::new(
        success_status(snapshot.completeness, Freshness::Fresh),
        IndexOutput::from_loaded_snapshot(
            snapshot,
            tier,
            prepared.changed_paths.len(),
            prepared.deleted_paths.len(),
            prepared.ignored_omissions.len(),
            prepared.attempts,
            PlanDecisionCountsOutput::of(&prepared.plan),
        ),
    );
    envelope.project = Some(project_output(selection, snapshot, tier, Freshness::Fresh, cache));
    envelope
}

/// What is told about a snapshot.
pub fn status_envelope(
    tier: ResolverTier,
    limits: &ResourceLimits,
    selection: &ProjectSelection,
    snapshot: &LoadedSnapshot,
    freshness: Freshness,
    cache: CacheDisposition,
) -> (r: OutputEnvelope<StatusOutput>)
    ensures
        r.schema_version == OUTPUT_SCHEMA_VERSION,
        r.status == status_of(snapshot.completeness, freshness),
        r.project is Some,
        r.project->0@ == project_view(*selection, *snapshot, tier, freshness, cache),
        r.results.project@ == project_view(*selection, *snapshot, tier, freshness, cache),
        r.results.inventory.admitted_files == snapshot.inventory_file_count,
        r.results.inventory.total_bytes == snapshot.inventory_total_bytes,
        r.results.max_files == limits.max_files,
        r.results.result_limit == limits.result_limit,
        r.results.max_file_bytes == limits.max_file_bytes,
        r.results.max_total_bytes == limits.max_total_bytes,
        r.results.max_depth == limits.max_depth,
        r.results.impact_depth == DEFAULT_IMPACT_DEPTH,
        r.results.timeout_millis == timeout_shown(limits.timeout),
        r.selector is None,
        r.returned == 0,
        r.total == 0,
        !r.truncated,
{
    let project = project_output(selection, snapshot, tier, freshness, cache);
    let shown = project.copied();
    let mut envelope = OutputEnvelope::new(
        success_status(snapshot.completeness, freshness),
        StatusOutput::from_loaded_snapshot(shown, snapshot, limits),
    );
    envelope.project = Some(project);
    envelope
}

} // verus!
