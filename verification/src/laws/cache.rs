//! Laws of the cache: what is stored, what is taken back from it, and what is refused.

use vstd::prelude::*;
use vstd::string::*;
use vstd::utf8::*;
use crate::cache::codec::{checked_facts, envelope_of, is_decoding, owned_subgraph, JsonTree};
use crate::cache::fingerprint::{
    blake3_of, candidate_preimage, compatibility_preimage, input_preimage, omission_views,
    CandidateId, CompatibilityFingerprint,
};
use crate::cache::load::{
    file_read, file_row_fault, file_rows_fault, graph_read, graph_row_fault, graph_rows_fault,
    hydrate_scope_subgraphs, row_inputs, rows_fault, rows_size, select_active, snapshot_read,
    ActiveRow, CandidateRows, CandidateSnapshotRow, LoadedCandidateFileRow, LoadedGraphRow,
    StoredSubgraph,
};
use crate::cache::location::{
    database_lies_below_its_base, hex, hex_digit, is_location, keys_have_their_length,
    CacheLocation,
};
use crate::cache::publish::{
    candidate_time, content_steps, file_present, fill_steps, graph_agrees, graph_steps, publication,
    publishable, stored_file, stored_graph, PublishStep, StoredCandidate,
};
use crate::cache::rows::{
    candidate_fault, file_fault, files_fault, path_keys, tier_keys, total_size, CandidatePayloads,
    PreparedCandidate, PreparedFile,
};
use crate::cache::schema::{
    objects_fault, schema_fault, schema_indexes_spec, schema_tables_spec, ObservedSchema,
    APPLICATION_ID, APPLICATION_IDENTITY,
};
use crate::cache::snapshot::{
    file_inputs, has_tier, CandidateFileRecord, CandidateSnapshot, LoadedSnapshot,
};
use crate::cache::types::{CacheCompleteness, CacheError, CacheOmission, ResolverCacheTier};
use crate::error::CliError;
use crate::execution::cache_policy::{load_or_invalidate, CacheLoadFailure, LoadRecovery};
use crate::execution::snapshots::{
    active_metadata, are_current, enforce_partial, graph_from_snapshot, loaded_from_metadata,
    refresh_cache_disposition, ActiveSnapshotMetadata, CachedFileMetadata,
};
use crate::execution::types::LoadedGraph;
use crate::config::ResolverTier;
use crate::deadline::Deadline;
use crate::graph::{has_duplicate, FileFacts, FileSubgraph};
use crate::inventory::types::{OmissionImpact, SourceDiscovery};
use crate::ordering::{key_lt, key_order_is_total};
use crate::project::native::Platform;
use crate::project::path::{lies_in, SLASH};
use crate::project::select::ProjectSelection;
use crate::refresh::prepare::finish::PreparedRefreshCandidate;
use crate::result::{CacheDisposition, Freshness};
use crate::text::{begins_with, text_lt};

verus! {

proof fn lemma_files_ok(rows: Seq<LoadedCandidateFileRow>, n: int, i: int)
    requires
        file_rows_fault(rows, n) is None,
        0 <= i < n <= rows.len(),
    ensures
        file_row_fault(rows[i]) is None,
    decreases n,
{
    if i < n - 1 {
        lemma_files_ok(rows, n - 1, i);
    }
}

proof fn lemma_sizes(
    files: Seq<CandidateFileRecord>,
    rows: Seq<LoadedCandidateFileRow>,
    n: int,
)
    requires
        0 <= n <= files.len(),
        files.len() == rows.len(),
        forall|i: int| 0 <= i < files.len() ==> file_read(#[trigger] files[i], rows[i]),
    ensures
        rows_size(rows, n) == total_size(files, n),
    decreases n,
{
    if n > 0 {
        lemma_sizes(files, rows, n - 1);
        assert(file_read(files[n - 1], rows[n - 1]));
    }
}

/// What is loaded is what it says: its identity is that of its compatibility, inputs,
/// completeness and omissions, its inputs are its files, it has as many files and bytes as it
/// counts, the facts of each file are about that file, and a snapshot with a scope graph has
/// the subgraph of every file.
pub proof fn loaded_snapshots_are_what_they_say(
    id: Seq<u8>,
    rows: CandidateRows,
    only_tier: Option<ResolverCacheTier>,
    s: LoadedSnapshot,
)
    requires
        rows_fault(id, rows, only_tier) is None,
        snapshot_read(s, id, rows.header->0, rows),
    ensures
        s.candidate_id.bytes@ == blake3_of(
            candidate_preimage(
                s.compatibility.id.bytes@,
                s.input_digest.bytes@,
                s.completeness,
                omission_views(s.omissions@),
            ),
        ),
        s.compatibility.id.bytes@ == blake3_of(
            compatibility_preimage(
                s.compatibility.language_fingerprint.bytes@,
                s.compatibility.package_fingerprint.bytes@,
            ),
        ),
        s.input_digest.bytes@ == blake3_of(input_preimage(file_inputs(s.files@))),
        s.inventory_file_count == s.files@.len(),
        s.inventory_total_bytes == total_size(s.files@, s.files@.len() as int),
        forall|i: int|
            0 <= i < s.files@.len() ==> (#[trigger] s.files@[i]).facts.file@ == s.files@[i].path@
                && s.files@[i].facts.lang@ == s.files@[i].language@,
        (exists|k: int|
            0 <= k < s.tier_graphs@.len() && (#[trigger] s.tier_graphs@[k]).0
                == ResolverCacheTier::Scope) ==> forall|i: int|
            0 <= i < s.files@.len() ==> (#[trigger] s.files@[i]).subgraph is Some,
        only_tier is Some ==> s.tier_graphs@.len() > 0,
{
    let header = rows.header->0;
    let files = s.files@;
    lemma_sizes(files, rows.files@, files.len() as int);
    assert(file_inputs(files) =~= row_inputs(rows.files@)) by {
        assert forall|i: int| 0 <= i < files.len() implies file_inputs(files)[i] == row_inputs(
            rows.files@,
        )[i] by {
            assert(file_read(files[i], rows.files@[i]));
        }
    }
    assert forall|i: int| 0 <= i < files.len() implies (#[trigger] files[i]).facts.file@
        == files[i].path@ && files[i].facts.lang@ == files[i].language@ by {
        assert(file_read(files[i], rows.files@[i]));
        lemma_files_ok(rows.files@, rows.files@.len() as int, i);
    }
    if exists|k: int|
        0 <= k < s.tier_graphs@.len() && (#[trigger] s.tier_graphs@[k]).0
            == ResolverCacheTier::Scope {
        let k = choose|k: int|
            0 <= k < s.tier_graphs@.len() && (#[trigger] s.tier_graphs@[k]).0
                == ResolverCacheTier::Scope;
        assert(graph_read(s.tier_graphs@[k], rows.graphs@[k]));
        assert(rows.graphs@[k].tier@ == ResolverCacheTier::Scope.sql());
        assert forall|i: int| 0 <= i < files.len() implies (#[trigger] files[i]).subgraph is Some by {
            assert(file_read(files[i], rows.files@[i]));
            assert(rows.files@[i].subgraph is Some);
        }
    }
}

/// The rows are refused where a file or a graph of theirs is: nothing is loaded in part.
pub proof fn nothing_is_loaded_in_part(
    id: Seq<u8>,
    rows: CandidateRows,
    only_tier: Option<ResolverCacheTier>,
    i: int,
)
    requires
        rows_fault(id, rows, only_tier) is None,
    ensures
        rows.header is Some,
        0 <= i < rows.files@.len() ==> rows.files@[i].facts is Ok && (rows.files@[i].subgraph
            is Some ==> rows.files@[i].subgraph->0 is Ok),
        0 <= i < rows.graphs@.len() ==> rows.graphs@[i].graph is Ok
            && rows.graphs@[i].created_at_ns == rows.header->0.created_at_ns,
{
    if 0 <= i < rows.files@.len() {
        lemma_files_ok(rows.files@, rows.files@.len() as int, i);
    }
    if 0 <= i < rows.graphs@.len() {
        lemma_graphs_ok(
            rows.graphs@,
            rows.header->0.created_at_ns,
            rows.graphs@.len() as int,
            i,
        );
    }
}

proof fn lemma_graphs_ok(rows: Seq<LoadedGraphRow>, created_at: i64, n: int, i: int)
    requires
        graph_rows_fault(rows, created_at, n) is None,
        0 <= i < n <= rows.len(),
    ensures
        graph_row_fault(rows[i], created_at) is None,
    decreases n,
{
    if i < n - 1 {
        lemma_graphs_ok(rows, created_at, n - 1, i);
    }
}

/// A slot shows only what is in it: a row of another tier or completeness is corruption, and a
/// candidate of another compatibility than the expected one is not shown. What is shown is the
/// candidate of the row.
pub proof fn slots_show_what_is_in_them(
    active: Option<ActiveRow>,
    tier: ResolverCacheTier,
    completeness: CacheCompleteness,
    expected: Option<CompatibilityFingerprint>,
    r: Result<Option<CandidateId>, CacheError>,
)
    requires
        call_ensures(select_active, (active, tier, completeness, expected), r),
    ensures
        active is None ==> r == Ok::<Option<CandidateId>, CacheError>(None),
        r matches Ok(Some(id)) ==> active is Some && id.bytes@ == active->0.candidate_id@
            && active->0.tier@ == tier.sql() && active->0.completeness == completeness.sql() && (
        expected is Some ==> expected->0.bytes@ == active->0.compatibility_id@),
        active matches Some(row) ==> (row.tier@ == tier.sql() && row.completeness
            == completeness.sql() && row.candidate_id@.len() == 32 && row.compatibility_id@.len()
            == 32 && (expected is Some ==> expected->0.bytes@ == row.compatibility_id@) ==> (
        r matches Ok(Some(_)))),
        r matches Err(e) ==> e == CacheError::Corrupt,
{
}

/// A cached snapshot is current only while nothing about its sources has changed, as far as
/// metadata tell: a source more or less, a path, a language, a size or a time that differs, or
/// a source that may be hidden, and it is not; nor is a partial one.
pub proof fn changed_sources_are_noticed(
    metadata: ActiveSnapshotMetadata,
    discovery: SourceDiscovery,
    cached: Seq<CachedFileMetadata>,
    i: int,
)
    requires
        are_current(metadata, discovery, cached),
    ensures
        metadata.completeness == CacheCompleteness::Complete,
        discovery.candidates@.len() == cached.len(),
        metadata.inventory_file_count == cached.len(),
        0 <= i < cached.len() ==> discovery.candidates@[i].path@ == cached[i].path@
            && discovery.candidates@[i].size_bytes == cached[i].size_bytes
            && discovery.candidates@[i].mtime == cached[i].mtime
            && discovery.candidates@[i].language is Some
            && discovery.candidates@[i].language->0.tag() == cached[i].language@,
        0 <= i < discovery.omitted@.len() ==> discovery.omitted@[i].impact
            == OmissionImpact::IgnoredNonSource,
{
    if 0 <= i < cached.len() {
        assert(crate::execution::snapshots::is_unchanged(discovery.candidates@[i], cached[i]));
    }
    if 0 <= i < discovery.omitted@.len() {
        assert(discovery.omitted@[i].impact != OmissionImpact::IncompleteSourceSet);
    }
}

/// A complete snapshot whose sources are as they were is current.
pub proof fn unchanged_sources_are_current(
    metadata: ActiveSnapshotMetadata,
    discovery: SourceDiscovery,
    cached: Seq<CachedFileMetadata>,
)
    requires
        metadata.completeness == CacheCompleteness::Complete,
        metadata.inventory_file_count == cached.len(),
        discovery.candidates@.len() == cached.len(),
        discovery.omitted@.len() == 0,
        forall|i: int|
            0 <= i < cached.len() ==> (#[trigger] cached[i]).path@ == discovery.candidates@[i].path@
                && discovery.candidates@[i].language is Some
                && discovery.candidates@[i].language->0.tag() == cached[i].language@
                && cached[i].size_bytes == discovery.candidates@[i].size_bytes && cached[i].mtime
                == discovery.candidates@[i].mtime,
    ensures
        are_current(metadata, discovery, cached),
{
}

/// A refresh started from the cache exactly where it had a prior of the same languages and the
/// same packages.
pub proof fn hits_have_a_compatible_prior(
    prior: Option<&LoadedSnapshot>,
    prepared: &PreparedRefreshCandidate,
    r: CacheDisposition,
)
    requires
        call_ensures(refresh_cache_disposition, (prior, prepared), r),
    ensures
        r == CacheDisposition::Hit || r == CacheDisposition::Miss,
        r == CacheDisposition::Hit <==> prior is Some && prior->0.compatibility.id.bytes@
            == prepared.snapshot.compatibility.id.bytes@
            && prior->0.compatibility.language_fingerprint.bytes@
            == prepared.snapshot.compatibility.language_fingerprint.bytes@
            && prior->0.compatibility.package_fingerprint.bytes@
            == prepared.snapshot.compatibility.package_fingerprint.bytes@,
{
}

/// The graph that is taken out of a snapshot is one of the tier that is asked for, and where
/// the snapshot has one, one is taken.
pub proof fn graphs_are_of_the_tier_asked_for(
    selection: ProjectSelection,
    snapshot: LoadedSnapshot,
    tier: ResolverTier,
    freshness: Freshness,
    cache: CacheDisposition,
    r: Result<LoadedGraph, CliError>,
)
    requires
        call_ensures(graph_from_snapshot, (selection, snapshot, tier, freshness, cache), r),
    ensures
        r is Ok <==> exists|i: int|
            0 <= i < snapshot.tier_graphs@.len() && of_tier(
                (#[trigger] snapshot.tier_graphs@[i]).0,
                tier,
            ),
        r matches Ok(loaded) ==> exists|i: int|
            0 <= i < snapshot.tier_graphs@.len() && of_tier(
                (#[trigger] snapshot.tier_graphs@[i]).0,
                tier,
            ) && loaded.graph == snapshot.tier_graphs@[i].1,
        r matches Ok(loaded) ==> loaded.snapshot.candidate_id == snapshot.candidate_id
            && loaded.snapshot.files == snapshot.files && loaded.snapshot.completeness
            == snapshot.completeness && loaded.project@.freshness == freshness
            && loaded.project@.cache == cache,
{
    match r {
        Ok(loaded) => {
            let i = choose|i: int| #[trigger]
                crate::execution::snapshots::graph_place(
                    snapshot.tier_graphs@,
                    tier.cached(),
                    i,
                ) && loaded.graph == snapshot.tier_graphs@[i].1
                    && crate::execution::snapshots::is_emptied_at(
                    loaded.snapshot.tier_graphs@,
                    snapshot.tier_graphs@,
                    i,
                );
            assert(of_tier(snapshot.tier_graphs@[i].0, tier));
        },
        Err(_) => {
            assert forall|i: int| 0 <= i < snapshot.tier_graphs@.len() implies !of_tier(
                (#[trigger] snapshot.tier_graphs@[i]).0,
                tier,
            ) by {}
        },
    }
}

/// The cached tier is the tier.
pub open spec fn of_tier(cached: ResolverCacheTier, tier: ResolverTier) -> bool {
    &&& cached == ResolverCacheTier::Name <==> tier == ResolverTier::Name
    &&& cached == ResolverCacheTier::Scope <==> tier == ResolverTier::Scope
    &&& cached == ResolverCacheTier::Dense <==> tier == ResolverTier::Dense
}

/// A failure to load is healed exactly where the store may be written to and the failure is one
/// of what was derived: it is malformed, of another version, too large, corrupt, or its facts,
/// its subgraphs or the candidate itself are invalid. A cache that is missing, locked, read
/// only, out of reach or out of time stays as it is, and the failure is told.
pub proof fn only_derived_damage_is_healed(
    error: CacheError,
    writable: bool,
    r: LoadRecovery,
)
    requires
        call_ensures(load_or_invalidate, (CacheLoadFailure::Cache(error), writable), r),
    ensures
        r is Invalidate <==> writable && (error == CacheError::Malformed || error
            == CacheError::Incompatible || error == CacheError::Limits || error
            == CacheError::InvalidFacts || error == CacheError::InvalidSubgraph || error
            == CacheError::Corrupt || error == CacheError::InvalidCandidate),
        r matches LoadRecovery::Fail(e) ==> (error == CacheError::Timeout <==> e
            == CliError::Timeout),
{
}

proof fn lemma_object_ok(
    found: Seq<Result<Option<String>, CacheError>>,
    expected: Seq<(Seq<char>, Seq<char>)>,
    n: int,
    i: int,
)
    requires
        objects_fault(found, expected, n) is None,
        0 <= i < n,
    ensures
        i < found.len(),
        found[i] matches Ok(Some(sql)) && sql@ == expected[i].1,
    decreases n,
{
    if i < n - 1 {
        lemma_object_ok(found, expected, n - 1, i);
    }
}

/// A database is taken for the cache of a project only if it is that: it bears the mark of the
/// application, has every table and every index of the schema word for word, and belongs to
/// this root and this key.
pub proof fn databases_are_taken_only_for_what_they_are(
    observed: ObservedSchema,
    root: Seq<u8>,
    key: Seq<u8>,
    i: int,
)
    requires
        schema_fault(observed, root, key) is None,
    ensures
        observed.application_id == Ok::<i64, CacheError>(APPLICATION_ID),
        0 <= i < schema_tables_spec().len() ==> i < observed.tables@.len() && (
        observed.tables@[i] matches Ok(Some(sql)) && sql@ == schema_tables_spec()[i].1),
        0 <= i < schema_indexes_spec().len() ==> i < observed.indexes@.len() && (
        observed.indexes@[i] matches Ok(Some(sql)) && sql@ == schema_indexes_spec()[i].1),
        observed.meta matches Ok(Some(row)) && row.canonical_root@ == root && row.project_key@ == key
            && row.application_identity@ == APPLICATION_IDENTITY@,
{
    if 0 <= i < schema_tables_spec().len() {
        lemma_object_ok(
            observed.tables@,
            schema_tables_spec(),
            schema_tables_spec().len() as int,
            i,
        );
    }
    if 0 <= i < schema_indexes_spec().len() {
        lemma_object_ok(
            observed.indexes@,
            schema_indexes_spec(),
            schema_indexes_spec().len() as int,
            i,
        );
    }
}

/// A blob is read only as what it says it is: what was written under another name or in
/// another version is never taken for it, nor is anything that is larger than a blob may be.
pub proof fn blobs_are_read_as_what_they_say<T, F: FnOnce(&serde_json::Value) -> Option<T>>(
    blob: Seq<u8>,
    format: Seq<char>,
    schema: u32,
    read: F,
    result: Result<T, CacheError>,
)
    requires
        is_decoding(blob, format, schema, read, result),
        result is Ok,
    ensures
        blob.len() <= crate::cache::codec::CACHE_BLOB_MAX_BYTES,
        exists|tree: JsonTree|
            #![trigger crate::cache::codec::within_limits(tree)]
            crate::cache::codec::json_parsed(blob) == Some(tree)
                && crate::cache::codec::within_limits(tree) && (envelope_of(tree) matches Some(e)
                && e.format == format && e.schema == schema),
{
    let tree = crate::cache::codec::json_parsed(blob)->0;
    assert(crate::cache::codec::within_limits(tree));
}

/// What stands in the store is never written over with something else: a candidate that is
/// there can be published only if it is the same in its header, in its omissions and in every
/// file, and a graph of a tier that is there only if it is the same graph.
pub proof fn stored_candidates_are_never_changed(
    p: PreparedCandidate,
    stored: StoredCandidate,
    i: int,
)
    requires
        publishable(p, stored),
    ensures
        stored.compatibility matches Some(row) ==> row.language_fingerprint@
            == p.language_fingerprint@ && row.package_fingerprint@ == p.package_fingerprint@,
        stored.candidate matches Some(row) ==> row.compatibility_id@ == p.compatibility_id@
            && row.input_digest@ == p.input_digest@ && row.completeness == p.completeness
            && row.inventory_file_count == p.inventory_file_count && row.inventory_total_bytes
            == p.inventory_total_bytes && stored.files@.len() == p.files@.len()
            && omission_views(stored.omissions@) == omission_views(p.omissions@),
        stored.candidate is Some && 0 <= i < p.files@.len() ==> is_stored_as(
            stored,
            p.files@[i],
        ),
        0 <= i < p.graphs@.len() ==> (stored_graph(stored.graphs@, p.graphs@[i].tier) matches Some(
            blob,
        ) ==> blob == p.graphs@[i].blob@),
{
    if stored.candidate is Some && 0 <= i < p.files@.len() {
        assert(file_present(stored.files@, p.files@[i]));
        lemma_stored_file(stored.files@, p.files@[i].path@);
    }
    if 0 <= i < p.graphs@.len() {
        assert(graph_agrees(stored, p.graphs@[i]));
    }
}

/// A row of the store holds the file: the same path, language, content, size, time, package
/// and facts, and the same subgraph unless one of the two has none.
pub open spec fn is_stored_as(stored: StoredCandidate, file: PreparedFile) -> bool {
    exists|k: int|
        0 <= k < stored.files@.len() && (#[trigger] stored.files@[k]).path@ == file.path@
            && stored.files@[k].language@ == file.language@ && stored.files@[k].content_hash@
            == file.content_hash@ && stored.files@[k].size_bytes == file.size_bytes
            && stored.files@[k].mtime_seconds == file.mtime_seconds
            && stored.files@[k].mtime_nanoseconds == file.mtime_nanoseconds
            && stored.files@[k].package_assignment@ == file.package_assignment@
            && stored.files@[k].file_facts@ == file.facts@ && (stored.files@[k].file_subgraph
            is None || file.subgraph is None || stored.files@[k].file_subgraph->0@
            == file.subgraph->0@)
}

proof fn lemma_stored_file(rows: Seq<crate::cache::load::CandidateFileRow>, path: Seq<char>)
    ensures
        stored_file(rows, path) matches Some(row) ==> row.path@ == path && exists|k: int|
            0 <= k < rows.len() && #[trigger] rows[k] == row,
    decreases rows.len(),
{
    if rows.len() > 0 {
        if rows[0].path@ == path {
            assert(rows[0] == stored_file(rows, path)->0);
        } else {
            lemma_stored_file(rows.skip(1), path);
            if stored_file(rows, path) is Some {
                let row = stored_file(rows, path)->0;
                let k = choose|k: int| 0 <= k < rows.skip(1).len() && #[trigger] rows.skip(1)[k] == row;
                assert(rows[k + 1] == row);
            }
        }
    }
}

/// A partial candidate passes only where partial ones are allowed; a complete one always.
pub proof fn partial_candidates_need_allowance(
    prepared: &PreparedRefreshCandidate,
    allowed: bool,
    r: Result<(), CliError>,
)
    requires
        call_ensures(enforce_partial, (prepared, allowed), r),
    ensures
        prepared.snapshot.completeness == CacheCompleteness::Partial && !allowed ==> r == Err::<
            (),
            CliError,
        >(CliError::PartialNotAllowed),
        prepared.snapshot.completeness == CacheCompleteness::Complete ==> r is Ok,
        allowed ==> r is Ok,
{
}

/// Facts are taken from the cache only if no identity is defined in them twice.
pub proof fn cached_facts_define_nothing_twice(
    read: Result<FileFacts, CacheError>,
    result: Result<FileFacts, CacheError>,
    i: int,
    j: int,
)
    requires
        checked_facts(read, result),
        result is Ok,
        0 <= i < j < result->Ok_0.symbols@.len(),
    ensures
        result == read,
        result->Ok_0.symbols@[i].id@ != result->Ok_0.symbols@[j].id@,
{
    let symbols = result->Ok_0.symbols@;
    assert(!has_duplicate(symbols, j));
}

/// A subgraph is taken from the cache only for the file that owns it.
pub proof fn cached_subgraphs_belong_to_their_file(
    owner: Seq<char>,
    read: Result<FileSubgraph, CacheError>,
    result: Result<FileSubgraph, CacheError>,
)
    requires
        owned_subgraph(owner, read, result),
    ensures
        result matches Ok(g) ==> g.owner@ == owner && read == result,
        read matches Ok(g) ==> (g.owner@ == owner ==> result == read),
        read matches Ok(g) ==> (g.owner@ != owner ==> result == Err::<FileSubgraph, CacheError>(
            CacheError::InvalidSubgraph,
        )),
        read is Err ==> result == read,
{
}

/// The first places of a publication, in which contents are written.
spec fn is_content(step: PublishStep) -> bool {
    step is InsertCompatibility || step is InsertCandidate || step is InsertOmission
        || step is InsertFile || step is FillSubgraph
}

/// The write of the graph comes before this place, or the graph was there.
pub open spec fn is_there_before(
    p: PreparedCandidate,
    stored: StoredCandidate,
    steps: Seq<PublishStep>,
    index: usize,
    k: int,
) -> bool {
    stored_graph(stored.graphs@, p.graphs@[index as int].tier) is Some || exists|m: int|
        0 <= m < k && ((#[trigger] steps[m]) matches PublishStep::InsertGraph { index: written, .. }
            && written == index)
}

proof fn lemma_graph_steps(
    p: PreparedCandidate,
    stored: StoredCandidate,
    created_at: i64,
    n: int,
)
    requires
        0 <= n <= p.graphs@.len() <= usize::MAX,
    ensures
        ({
            let steps = graph_steps(stored, p.graphs@, created_at, n);
            &&& forall|k: int|
                0 <= k < steps.len() ==> ((#[trigger] steps[k]) is InsertGraph
                    || steps[k] is Activate)
            &&& forall|k: int|
                0 <= k < steps.len() ==> ((#[trigger] steps[k]) matches PublishStep::Activate {
                    index,
                } ==> index < n && is_there_before(p, stored, steps, index, k))
            &&& forall|k: int|
                0 <= k < steps.len() ==> ((#[trigger] steps[k]) matches PublishStep::InsertGraph {
                    index,
                    created_at: time,
                } ==> index < n && time == created_at && stored_graph(
                    stored.graphs@,
                    p.graphs@[index as int].tier,
                ) is None)
            &&& forall|i: int|
                0 <= i < n ==> steps.contains(#[trigger] shows(i))
        }),
    decreases n,
{
    if n > 0 {
        lemma_graph_steps(p, stored, created_at, n - 1);
        let before = graph_steps(stored, p.graphs@, created_at, n - 1);
        let steps = graph_steps(stored, p.graphs@, created_at, n);
        let index = (n - 1) as usize;
        assert forall|k: int| 0 <= k < before.len() implies steps[k] == before[k] by {}
        assert forall|k: int| 0 <= k < steps.len() implies ((
        #[trigger] steps[k]) matches PublishStep::Activate { index } ==> index < n
            && is_there_before(p, stored, steps, index, k)) by {
            if k < before.len() {
                assert(steps[k] == before[k]);
                if let PublishStep::Activate { index: i } = before[k] {
                    if stored_graph(stored.graphs@, p.graphs@[i as int].tier) is None {
                        let m = choose|m: int|
                            0 <= m < k && ((#[trigger] before[m]) matches
                                PublishStep::InsertGraph { index: written, .. } && written == i);
                        assert(steps[m] == before[m]);
                    }
                }
            } else if stored_graph(stored.graphs@, p.graphs@[n - 1].tier) is None {
                assert(steps[before.len() as int] == (PublishStep::InsertGraph {
                    index,
                    created_at,
                }));
            }
        }
        assert forall|k: int| 0 <= k < steps.len() implies ((
        #[trigger] steps[k]) matches PublishStep::InsertGraph { index, created_at: time } ==> index
            < n && time == created_at && stored_graph(
            stored.graphs@,
            p.graphs@[index as int].tier,
        ) is None) by {
            if k < before.len() {
                assert(steps[k] == before[k]);
            }
        }
        assert forall|i: int| 0 <= i < n implies steps.contains(#[trigger] shows(i)) by {
            if i < n - 1 {
                assert(before.contains(shows(i)));
                let k = choose|k: int| 0 <= k < before.len() && before[k] == shows(i);
                assert(steps[k] == shows(i));
            } else {
                assert(steps[steps.len() - 1] == shows(i));
            }
        }
    }
}

/// The step that shows the graph at a place.
pub open spec fn shows(i: int) -> PublishStep {
    PublishStep::Activate { index: i as usize }
}

proof fn lemma_content_steps(p: PreparedCandidate, stored: StoredCandidate, k: int)
    requires
        0 <= k < content_steps(p, stored).len(),
    ensures
        is_content(content_steps(p, stored)[k]),
{
    lemma_fill_steps(stored.files@, p.files@, p.files@.len() as int);
    let opening: Seq<PublishStep> = if stored.compatibility is None {
        seq![PublishStep::InsertCompatibility]
    } else {
        Seq::empty()
    };
    if stored.candidate is Some && k >= opening.len() {
        let fills = fill_steps(stored.files@, p.files@, p.files@.len() as int);
        assert(content_steps(p, stored)[k] == fills[k - opening.len()]);
    }
}

proof fn lemma_fill_steps(
    rows: Seq<crate::cache::load::CandidateFileRow>,
    files: Seq<PreparedFile>,
    n: int,
)
    ensures
        forall|k: int|
            0 <= k < fill_steps(rows, files, n).len() ==> (#[trigger] fill_steps(rows, files, n)[k])
                is FillSubgraph,
    decreases n,
{
    if n > 0 {
        lemma_fill_steps(rows, files, n - 1);
    }
}

/// Nothing is shown before it is there: every graph of the candidate is shown, each only after
/// all contents are written and after the graph itself is, unless it was there; and a graph that
/// was there is not written again.
pub proof fn graphs_are_shown_once_they_are_there(
    p: PreparedCandidate,
    stored: StoredCandidate,
    k: int,
)
    requires
        0 <= k < publication(p, stored).len(),
    ensures
        ({
            let steps = publication(p, stored);
            &&& steps[k] matches PublishStep::Activate { index } ==> index < p.graphs@.len()
                && is_there_before(p, stored, steps, index, k) && forall|m: int|
                k < m < steps.len() ==> (#[trigger] steps[m]) is InsertGraph
                    || steps[m] is Activate
            &&& steps[k] matches PublishStep::InsertGraph { index, .. } ==> index < p.graphs@.len()
                && stored_graph(stored.graphs@, p.graphs@[index as int].tier) is None
            &&& forall|i: int| 0 <= i < p.graphs@.len() ==> steps.contains(#[trigger] shows(i))
        }),
{
    assert(p.graphs.len() <= usize::MAX);
    let content = content_steps(p, stored);
    let graphs = graph_steps(
        stored,
        p.graphs@,
        candidate_time(p, stored),
        p.graphs@.len() as int,
    );
    let steps = publication(p, stored);
    let n = content.len() as int;
    lemma_graph_steps(p, stored, candidate_time(p, stored), p.graphs@.len() as int);
    assert forall|m: int| n <= m < steps.len() implies #[trigger] steps[m] == graphs[m - n] by {}
    if k < n {
        lemma_content_steps(p, stored, k);
        assert(steps[k] == content[k]);
    } else {
        assert(steps[k] == graphs[k - n]);
        if let PublishStep::Activate { index } = steps[k] {
            assert(is_there_before(p, stored, graphs, index, k - n));
            if stored_graph(stored.graphs@, p.graphs@[index as int].tier) is None {
                let m = choose|m: int|
                    0 <= m < k - n && ((#[trigger] graphs[m]) matches PublishStep::InsertGraph {
                        index: written,
                        ..
                    } && written == index);
                assert(steps[n + m] == graphs[m]);
            }
            assert forall|m: int| k < m < steps.len() implies (#[trigger] steps[m]) is InsertGraph
                || steps[m] is Activate by {
                assert(steps[m] == graphs[m - n]);
            }
        }
    }
    assert forall|i: int| 0 <= i < p.graphs@.len() implies steps.contains(#[trigger] shows(i)) by {
        assert(graphs.contains(shows(i)));
        let m = choose|m: int| 0 <= m < graphs.len() && graphs[m] == shows(i);
        assert(steps[n + m] == shows(i));
    }
}

/// Every file has its subgraph where a scope graph is restored, and each comes with the path of
/// its file, in the order of the files; a snapshot without a scope graph has none to restore.
pub proof fn subgraphs_are_restored_file_by_file(
    loaded: &LoadedSnapshot,
    deadline: &Deadline,
    r: Result<Vec<StoredSubgraph>, CacheError>,
)
    requires
        call_ensures(hydrate_scope_subgraphs, (loaded, deadline), r),
    ensures
        r matches Ok(stored) ==> stored@.len() == loaded.files@.len() && (forall|i: int|
            0 <= i < stored@.len() ==> (#[trigger] stored@[i]).path@ == loaded.files@[i].path@
                && loaded.files@[i].subgraph is Some) && exists|k: int|
            0 <= k < loaded.tier_graphs@.len() && (#[trigger] loaded.tier_graphs@[k]).0
                == ResolverCacheTier::Scope,
{
    if let Ok(stored) = r {
        assert(has_tier(loaded.tier_graphs@, ResolverCacheTier::Scope));
        assert forall|i: int| 0 <= i < stored@.len() implies (#[trigger] stored@[i]).path@
            == loaded.files@[i].path@ && loaded.files@[i].subgraph is Some by {}
    }
}

proof fn lemma_file_stored(
    files: Seq<CandidateFileRecord>,
    facts: Seq<Vec<u8>>,
    n: int,
    i: int,
)
    requires
        files_fault(files, facts, n) is None,
        0 <= i < n,
    ensures
        file_fault(files[i], facts[i]@) is None,
    decreases n,
{
    if i < n - 1 {
        lemma_file_stored(files, facts, n - 1, i);
    }
}

/// Only what agrees with itself is stored: the counts of a candidate are those of its files, its
/// paths ascend and none comes twice, the facts and the subgraph of a file are its own, a
/// complete candidate leaves nothing out, and one with a scope graph has every subgraph.
pub proof fn only_consistent_candidates_are_stored(
    c: CandidateSnapshot,
    payloads: CandidatePayloads,
    i: int,
    j: int,
)
    requires
        candidate_fault(c, payloads) is None,
    ensures
        c.inventory_file_count == c.files@.len(),
        c.inventory_total_bytes == total_size(c.files@, c.files@.len() as int),
        c.input_digest.bytes@ == blake3_of(input_preimage(file_inputs(c.files@))),
        c.candidate_id.bytes@ == blake3_of(
            candidate_preimage(
                c.compatibility.id.bytes@,
                c.input_digest.bytes@,
                c.completeness,
                omission_views(c.omissions@),
            ),
        ),
        0 <= i < j < c.files@.len() ==> text_lt(c.files@[i].path@, c.files@[j].path@),
        0 <= i < c.files@.len() ==> c.files@[i].facts.file@ == c.files@[i].path@
            && c.files@[i].facts.lang@ == c.files@[i].language@ && (c.files@[i].subgraph is Some
            ==> c.files@[i].subgraph->0.owner@ == c.files@[i].path@),
        c.completeness == CacheCompleteness::Complete ==> c.omissions@.len() == 0,
        0 <= i < c.tier_graphs@.len() && c.tier_graphs@[i].0 == ResolverCacheTier::Scope && 0 <= j
            < c.files@.len() ==> c.files@[j].subgraph is Some,
        0 <= i < j < c.tier_graphs@.len() ==> c.tier_graphs@[i].0 != c.tier_graphs@[j].0,
{
    if 0 <= i < c.files@.len() {
        lemma_file_stored(c.files@, payloads.facts@, c.files@.len() as int, i);
    }
    if 0 <= i < j < c.files@.len() {
        let keys = path_keys(c.files@);
        assert(key_lt(keys[i], keys[j]));
    }
    if 0 <= i < j < c.tier_graphs@.len() {
        let keys = tier_keys(c.tier_graphs@);
        assert(key_lt(keys[i], keys[j]));
        key_order_is_total(keys[i], keys[j]);
    }
    if 0 <= i < c.tier_graphs@.len() && c.tier_graphs@[i].0 == ResolverCacheTier::Scope && 0 <= j
        < c.files@.len() {
        assert(has_tier(c.tier_graphs@, ResolverCacheTier::Scope));
        assert(c.files@[j].subgraph is Some);
    }
}

/// The cache of a project has a directory of its own below its base, named by the key of the
/// project, and its database lies in it.
pub proof fn caches_have_their_own_directory(
    l: CacheLocation,
    base: Seq<u8>,
    platform: Platform,
    root: Seq<u8>,
)
    requires
        is_location(l, base, platform, root),
        base.len() > 0,
        base.last() != SLASH,
    ensures
        l.directory@ == base + encode_utf8("/projects/"@) + encode_utf8(hex(l.project_key@)),
        l.database_path@ == l.directory@ + encode_utf8("/cache.sqlite3"@),
{
    reveal_strlit("projects");
    reveal_strlit("/projects/");
    reveal_strlit("/cache.sqlite3");
    reveal_strlit("cache.sqlite3");
    let key = encode_utf8(hex(l.project_key@));
    is_ascii_chars_encode_utf8("projects"@);
    is_ascii_chars_encode_utf8("/projects/"@);
    is_ascii_chars_encode_utf8("/cache.sqlite3"@);
    is_ascii_chars_encode_utf8("cache.sqlite3"@);
    let projects = base.push(SLASH) + encode_utf8("projects"@);
    assert(projects.last() == encode_utf8("projects"@).last());
    assert(encode_utf8("projects"@).last() != SLASH);
    assert(l.directory@ =~= projects.push(SLASH) + key);
    assert(projects.push(SLASH) =~= base + encode_utf8("/projects/"@));
    assert(l.directory@ =~= base + encode_utf8("/projects/"@) + key);
    assert(l.directory@.last() != SLASH) by {
        keys_have_their_length(l.project_key);
        lemma_key_name(l.project_key@);
    }
    assert(encode_utf8("/cache.sqlite3"@) =~= seq![SLASH] + encode_utf8("cache.sqlite3"@));
    assert(l.database_path@ =~= l.directory@ + encode_utf8("/cache.sqlite3"@));
}

/// The name of a key is a name: it does not end in a slash.
proof fn lemma_key_name(key: Seq<u8>)
    requires
        key.len() > 0,
    ensures
        encode_utf8(hex(key)).len() > 0,
        encode_utf8(hex(key)).last() != SLASH,
{
    lemma_hex_is_ascii(key);
    is_ascii_chars_encode_utf8(hex(key));
    let s = hex(key);
    assert(s.last() == hex_digit(key.last() % 16));
}

proof fn lemma_hex_is_ascii(key: Seq<u8>)
    ensures
        is_ascii_chars(hex(key)),
    decreases key.len(),
{
    if key.len() > 0 {
        lemma_hex_is_ascii(key.drop_last());
    }
}

/// A cache is never put into the project that it is of, and it is put below the base that was
/// named.
pub proof fn caches_lie_outside_their_projects(
    base: Option<&[u8]>,
    root: &[u8],
    l: CacheLocation,
)
    requires
        call_ensures(CacheLocation::for_project, (base, root), Some(l)),
    ensures
        !lies_in(l.directory@, root@),
        !lies_in(l.database_path@, root@),
        base matches Some(b) ==> begins_with(l.directory@, b@) && begins_with(
            l.database_path@,
            b@,
        ),
{
    if base is Some {
        database_lies_below_its_base(l, base->0@, Platform::Unix, root@);
    }
}

/// The metadata of a snapshot are taken only where they agree with its identity, and then they
/// are those of its row; a snapshot that is known by its metadata alone has what they tell, and
/// neither files nor graphs.
pub proof fn metadata_are_taken_as_they_are(
    id: CandidateId,
    header: CandidateSnapshotRow,
    omissions: Vec<CacheOmission>,
    m: ActiveSnapshotMetadata,
    selection: ProjectSelection,
    tier: ResolverTier,
    freshness: Freshness,
    cache: CacheDisposition,
    r: LoadedGraph,
)
    requires
        call_ensures(active_metadata, (id, &header, omissions), Ok(m)),
        call_ensures(loaded_from_metadata, (selection, m, tier, freshness, cache), r),
    ensures
        id.bytes@ == blake3_of(
            candidate_preimage(
                header.compatibility_id@,
                header.input_digest@,
                m.completeness,
                omission_views(omissions@),
            ),
        ),
        header.compatibility_id@ == blake3_of(
            compatibility_preimage(header.language_fingerprint@, header.package_fingerprint@),
        ),
        m.completeness == CacheCompleteness::Complete || m.completeness
            == CacheCompleteness::Partial,
        r.snapshot.candidate_id.bytes@ == id.bytes@,
        r.snapshot.input_digest.bytes@ == header.input_digest@,
        r.snapshot.completeness == m.completeness,
        r.snapshot.omissions@ == omissions@,
        r.snapshot.inventory_file_count == header.inventory_file_count,
        r.snapshot.inventory_total_bytes == header.inventory_total_bytes,
        r.snapshot.created_at_ns == header.created_at_ns,
        r.snapshot.files@.len() == 0,
        r.snapshot.tier_graphs@.len() == 0,
        r.graph.symbols@.len() == 0,
        r.graph.edges@.len() == 0,
        r.selection == selection,
        r.project.freshness == freshness,
        r.project.cache == cache,
        r.project.tier == tier,
{
}

} // verus!
