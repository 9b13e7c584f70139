//! Candidates read back from rows of the cache database: nothing that does not agree
//! with its own identities is returned.

use vstd::prelude::*;
use vstd::string::*;
use vstd::utf8::*;
use crate::cache::codec::{
    bounded_graph, checked_facts, decode_file_facts, decode_graph, encode_subgraph,
    facts_come_back, graphs_come_back, is_decoding, owned_subgraph, restore_subgraph,
    subgraphs_come_back, CACHE_BLOB_MAX_BYTES, CACHE_OWNER_MAX_BYTES, CODE_GRAPH_SCHEMA_VERSION,
    FILE_FACTS_SCHEMA_VERSION, FILE_SUBGRAPH_SCHEMA_VERSION,
};
use crate::cache::fingerprint::{
    blake3_of, candidate_preimage, compatibility_preimage, input_preimage, omission_views,
    CandidateId, CompatibilityFingerprint, InputView, LanguageFeatureFingerprint,
    PackageFingerprint, ProjectInputDigest,
};
use crate::cache::rows::{
    candidate_consistent, candidate_fault, candidate_stored, checked_total, ensure_time,
    file_fault, file_stored, files_fault, fingerprint_from_blob, fixed_32, keys_ascend,
    mtime_of_columns, nonnegative, omission_keys, omissions_sorted, total_size, CandidatePayloads,
    PreparedCandidate, PreparedFile,
};
use crate::cache::rows::{
    all_subgraphs, decode_mtime, has_all_subgraphs, lemma_files_fault_stays,
    stored_mtimes_read_back, subgraph_blob,
};
use crate::cache::snapshot::{
    contains_tier, digest_of_files, file_inputs, has_tier, CandidateFileRecord, CandidateSnapshot,
    CompatibilityRecord, LoadedSnapshot,
};
use crate::cache::types::{CacheCompleteness, CacheError, CacheOmission, ResolverCacheTier};
use crate::deadline::Deadline;
use crate::graph::{CodeGraph, FileFacts, FileSubgraph};
use crate::inventory::types::MtimeHint;
use crate::ordering::reversed;
use crate::text::same_text;

verus! {

/// The row of a candidate, with that of its compatibility.
#[derive(Debug, Clone, PartialEq, Eq)]
pub struct CandidateSnapshotRow {
    pub compatibility_id: Vec<u8>,
    pub language_fingerprint: Vec<u8>,
    pub package_fingerprint: Vec<u8>,
    pub input_digest: Vec<u8>,
    pub completeness: i64,
    pub created_at_ns: i64,
    pub compatibility_created_at_ns: i64,
    pub inventory_file_count: i64,
    pub inventory_total_bytes: i64,
}

/// The row of a file, with what its blobs hold or why they could not be read.
#[derive(Debug)]
pub struct LoadedCandidateFileRow {
    pub path: String,
    pub language: String,
    pub content_hash: Vec<u8>,
    pub size_bytes: i64,
    pub mtime_seconds: Option<i64>,
    pub mtime_nanoseconds: Option<i64>,
    pub package_assignment: String,
    pub facts: Result<FileFacts, CacheError>,
    pub subgraph: Option<Result<FileSubgraph, CacheError>>,
}

/// The row of a graph, with what its blob holds or why it could not be read.
#[derive(Debug)]
pub struct LoadedGraphRow {
    pub tier: String,
    pub graph: Result<CodeGraph, CacheError>,
    pub created_at_ns: i64,
}

/// The rows of one candidate.
#[derive(Debug)]
pub struct CandidateRows {
    pub header: Option<CandidateSnapshotRow>,
    pub omissions: Vec<CacheOmission>,
    pub files: Vec<LoadedCandidateFileRow>,
    pub graphs: Vec<LoadedGraphRow>,
}

/// The stored number of a completeness.
pub open spec fn completeness_of(value: i64) -> Option<CacheCompleteness> {
    if value == 0 {
        Some(CacheCompleteness::Complete)
    } else if value == 1 {
        Some(CacheCompleteness::Partial)
    } else {
        None
    }
}

/// The row of a candidate holds what it must.
pub open spec fn header_readable(row: CandidateSnapshotRow) -> bool {
    &&& row.compatibility_id@.len() == 32
    &&& row.language_fingerprint@.len() == 32
    &&& row.package_fingerprint@.len() == 32
    &&& row.compatibility_id@ == blake3_of(
        compatibility_preimage(row.language_fingerprint@, row.package_fingerprint@),
    )
    &&& row.input_digest@.len() == 32
    &&& completeness_of(row.completeness) is Some
    &&& row.inventory_file_count >= 0
    &&& row.inventory_total_bytes >= 0
}

/// Why a file cannot be read back, if it cannot.
pub open spec fn file_row_fault(row: LoadedCandidateFileRow) -> Option<CacheError> {
    match row.facts {
        Err(e) => Some(e),
        Ok(facts) => if facts.file@ != row.path@ || facts.lang@ != row.language@ {
            Some(CacheError::InvalidFacts)
        } else {
            match row.subgraph {
                Some(Err(e)) => Some(e),
                _ => if row.content_hash@.len() != 32 || row.size_bytes < 0 || mtime_of_columns(
                    row.mtime_seconds,
                    row.mtime_nanoseconds,
                ) is Err {
                    Some(CacheError::Corrupt)
                } else {
                    None
                },
            }
        },
    }
}

/// Why one of the first `n` files cannot be read back, the first such file first.
pub open spec fn file_rows_fault(rows: Seq<LoadedCandidateFileRow>, n: int) -> Option<CacheError>
    decreases n,
{
    if n <= 0 {
        None
    } else {
        match file_rows_fault(rows, n - 1) {
            Some(e) => Some(e),
            None => file_row_fault(rows[n - 1]),
        }
    }
}

/// The text is the stored spelling of a tier.
pub open spec fn is_tier(text: Seq<char>) -> bool {
    exists|t: ResolverCacheTier| #[trigger] t.sql() == text
}

/// Why a graph cannot be read back, if it cannot.
pub open spec fn graph_row_fault(row: LoadedGraphRow, created_at: i64) -> Option<CacheError> {
    if row.created_at_ns != created_at || !is_tier(row.tier@) {
        Some(CacheError::Corrupt)
    } else {
        match row.graph {
            Err(e) => Some(e),
            Ok(_) => None,
        }
    }
}

/// Why one of the first `n` graphs cannot be read back, the first such graph first.
pub open spec fn graph_rows_fault(rows: Seq<LoadedGraphRow>, created_at: i64, n: int) -> Option<
    CacheError,
>
    decreases n,
{
    if n <= 0 {
        None
    } else {
        match graph_rows_fault(rows, created_at, n - 1) {
            Some(e) => Some(e),
            None => graph_row_fault(rows[n - 1], created_at),
        }
    }
}

/// The sizes of the first `n` files together.
pub open spec fn rows_size(rows: Seq<LoadedCandidateFileRow>, n: int) -> int
    decreases n,
{
    if n <= 0 {
        0
    } else {
        rows_size(rows, n - 1) + rows[n - 1].size_bytes
    }
}

/// The files as the input digest sees them.
pub open spec fn row_inputs(rows: Seq<LoadedCandidateFileRow>) -> Seq<InputView> {
    rows.map_values(
        |row: LoadedCandidateFileRow|
            InputView {
                path: row.path@,
                language: row.language@,
                content_hash: row.content_hash@,
            },
    )
}

/// Some graph is of the scope tier.
pub open spec fn has_scope_row(rows: Seq<LoadedGraphRow>) -> bool {
    exists|i: int| 0 <= i < rows.len() && (#[trigger] rows[i]).tier@ == ResolverCacheTier::Scope.sql()
}

/// The rows agree with the identities, counts and orders that were stored.
pub open spec fn rows_consistent(
    id: Seq<u8>,
    header: CandidateSnapshotRow,
    rows: CandidateRows,
) -> bool {
    &&& has_scope_row(rows.graphs@) ==> forall|i: int|
        0 <= i < rows.files@.len() ==> (#[trigger] rows.files@[i]).subgraph is Some
    &&& header.inventory_file_count == rows.files@.len()
    &&& header.inventory_total_bytes == rows_size(rows.files@, rows.files@.len() as int)
    &&& header.input_digest@ == blake3_of(input_preimage(row_inputs(rows.files@)))
    &&& id == blake3_of(
        candidate_preimage(
            header.compatibility_id@,
            header.input_digest@,
            completeness_of(header.completeness)->0,
            omission_views(rows.omissions@),
        ),
    )
    &&& keys_ascend(omission_keys(rows.omissions@))
    &&& header.created_at_ns >= 0
    &&& header.compatibility_created_at_ns >= 0
}

/// Why a candidate cannot be read back, if it cannot.
pub open spec fn rows_fault(
    id: Seq<u8>,
    rows: CandidateRows,
    only_tier: Option<ResolverCacheTier>,
) -> Option<CacheError> {
    match rows.header {
        None => Some(CacheError::SnapshotMissing),
        Some(header) => if !header_readable(header) {
            Some(CacheError::Corrupt)
        } else {
            match file_rows_fault(rows.files@, rows.files@.len() as int) {
                Some(e) => Some(e),
                None => match graph_rows_fault(
                    rows.graphs@,
                    header.created_at_ns,
                    rows.graphs@.len() as int,
                ) {
                    Some(e) => Some(e),
                    None => if only_tier is Some && rows.graphs@.len() == 0 {
                        Some(CacheError::SnapshotMissing)
                    } else if !rows_consistent(id, header, rows) {
                        Some(CacheError::Corrupt)
                    } else {
                        None
                    },
                },
            }
        },
    }
}

/// The file is what the row holds.
pub open spec fn file_read(f: CandidateFileRecord, row: LoadedCandidateFileRow) -> bool {
    &&& f.path@ == row.path@
    &&& f.language@ == row.language@
    &&& f.content_hash@ == row.content_hash@
    &&& f.size_bytes == row.size_bytes
    &&& Ok::<Option<MtimeHint>, CacheError>(f.mtime) == mtime_of_columns(
        row.mtime_seconds,
        row.mtime_nanoseconds,
    )
    &&& f.package_assignment@ == row.package_assignment@
    &&& Ok::<FileFacts, CacheError>(f.facts) == row.facts
    &&& match row.subgraph {
        Some(subgraph) => f.subgraph is Some && subgraph == Ok::<FileSubgraph, CacheError>(
            f.subgraph->0,
        ),
        None => f.subgraph is None,
    }
}

/// The graph is what the row holds.
pub open spec fn graph_read(g: (ResolverCacheTier, CodeGraph), row: LoadedGraphRow) -> bool {
    g.0.sql() == row.tier@ && Ok::<CodeGraph, CacheError>(g.1) == row.graph
}

/// The snapshot is what the rows hold.
pub open spec fn snapshot_read(
    s: LoadedSnapshot,
    id: Seq<u8>,
    header: CandidateSnapshotRow,
    rows: CandidateRows,
) -> bool {
    &&& s.candidate_id.bytes@ == id
    &&& s.compatibility.id.bytes@ == header.compatibility_id@
    &&& s.compatibility.language_fingerprint.bytes@ == header.language_fingerprint@
    &&& s.compatibility.package_fingerprint.bytes@ == header.package_fingerprint@
    &&& s.compatibility.created_at_ns == header.compatibility_created_at_ns
    &&& s.input_digest.bytes@ == header.input_digest@
    &&& Some(s.completeness) == completeness_of(header.completeness)
    &&& s.omissions@ == rows.omissions@
    &&& s.created_at_ns == header.created_at_ns
    &&& s.inventory_file_count == header.inventory_file_count
    &&& s.inventory_total_bytes == header.inventory_total_bytes
    &&& s.files@.len() == rows.files@.len()
    &&& forall|i: int|
        0 <= i < s.files@.len() ==> file_read(#[trigger] s.files@[i], rows.files@[i])
    &&& s.tier_graphs@.len() == rows.graphs@.len()
    &&& forall|i: int|
        0 <= i < s.tier_graphs@.len() ==> graph_read(#[trigger] s.tier_graphs@[i], rows.graphs@[i])
}

/// Reads one file back.
fn read_file(row: LoadedCandidateFileRow) -> (r: Result<CandidateFileRecord, CacheError>)
    ensures
        match r {
            Ok(f) => file_row_fault(row) is None && file_read(f, row),
            Err(e) => file_row_fault(row) == Some(e),
        },
{
    let facts = match row.facts {
        Ok(facts) => facts,
        Err(e) => {
            return Err(e);
        },
    };
    if !same_text(facts.file.as_str(), row.path.as_str()) || !same_text(
        facts.lang.as_str(),
        row.language.as_str(),
    ) {
        return Err(CacheError::InvalidFacts);
    }
    let subgraph: Option<FileSubgraph> = match row.subgraph {
        Some(Ok(subgraph)) => Some(subgraph),
        Some(Err(e)) => {
            return Err(e);
        },
        None => None,
    };
    let content_hash = match fixed_32(row.content_hash.as_slice()) {
        Ok(bytes) => bytes,
        Err(e) => {
            return Err(e);
        },
    };
    let size_bytes = match nonnegative(row.size_bytes) {
        Ok(size) => size,
        Err(e) => {
            return Err(e);
        },
    };
    let mtime = match decode_mtime(row.mtime_seconds, row.mtime_nanoseconds) {
        Ok(mtime) => mtime,
        Err(e) => {
            return Err(e);
        },
    };
    Ok(
        CandidateFileRecord {
            path: row.path,
            language: row.language,
            content_hash,
            size_bytes,
            mtime,
            package_assignment: row.package_assignment,
            facts,
            subgraph,
        },
    )
}

proof fn lemma_file_fault_stays(rows: Seq<LoadedCandidateFileRow>, m: int, n: int)
    requires
        m <= n,
        file_rows_fault(rows, m) is Some,
    ensures
        file_rows_fault(rows, n) == file_rows_fault(rows, m),
    decreases n - m,
{
    if m < n {
        lemma_file_fault_stays(rows, m, n - 1);
    }
}

proof fn lemma_graph_fault_stays(rows: Seq<LoadedGraphRow>, created_at: i64, m: int, n: int)
    requires
        m <= n,
        graph_rows_fault(rows, created_at, m) is Some,
    ensures
        graph_rows_fault(rows, created_at, n) == graph_rows_fault(rows, created_at, m),
    decreases n - m,
{
    if m < n {
        lemma_graph_fault_stays(rows, created_at, m, n - 1);
    }
}

/// Reads the files back in their order.
fn read_files(rows: Vec<LoadedCandidateFileRow>, deadline: &Deadline) -> (r: Result<
    Vec<CandidateFileRecord>,
    CacheError,
>)
    ensures
        match r {
            Ok(files) => {
                &&& file_rows_fault(rows@, rows@.len() as int) is None
                &&& files@.len() == rows@.len()
                &&& forall|i: int|
                    0 <= i < files@.len() ==> file_read(#[trigger] files@[i], rows@[i])
            },
            Err(e) => (e == CacheError::Timeout && deadline.may_be_used_up()) || file_rows_fault(
                rows@,
                rows@.len() as int,
            ) == Some(e),
        },
{
    let ghost all = rows@;
    let count = rows.len();
    let mut rest = reversed(rows);
    let mut files: Vec<CandidateFileRecord> = Vec::new();
    let mut i: usize = 0;
    while i < count
        invariant
            i <= count,
            all == rows@,
            count == all.len(),
            rest@ == all.skip(i as int).reverse(),
            files@.len() == i,
            file_rows_fault(all, i as int) is None,
            forall|j: int| 0 <= j < i ==> file_read(#[trigger] files@[j], all[j]),
        decreases count - i,
    {
        ensure_time(deadline)?;
        let row = match rest.pop() {
            Some(row) => row,
            None => {
                return Ok(files);
            },
        };
        assert(row == all[i as int]);
        assert(rest@ =~= all.skip(i + 1).reverse());
        match read_file(row) {
            Ok(file) => files.push(file),
            Err(e) => {
                proof {
                    assert(file_rows_fault(all, i + 1) == Some(e));
                    lemma_file_fault_stays(all, i + 1, all.len() as int);
                }
                return Err(e);
            },
        }
        i += 1;
    }
    Ok(files)
}

/// Reads the graphs back in their order.
fn read_graphs(rows: Vec<LoadedGraphRow>, created_at: i64, deadline: &Deadline) -> (r: Result<
    Vec<(ResolverCacheTier, CodeGraph)>,
    CacheError,
>)
    ensures
        match r {
            Ok(graphs) => {
                &&& graph_rows_fault(rows@, created_at, rows@.len() as int) is None
                &&& graphs@.len() == rows@.len()
                &&& forall|i: int|
                    0 <= i < graphs@.len() ==> graph_read(#[trigger] graphs@[i], rows@[i])
            },
            Err(e) => (e == CacheError::Timeout && deadline.may_be_used_up()) || graph_rows_fault(
                rows@,
                created_at,
                rows@.len() as int,
            ) == Some(e),
        },
{
    let ghost all = rows@;
    let count = rows.len();
    let mut rest = reversed(rows);
    let mut graphs: Vec<(ResolverCacheTier, CodeGraph)> = Vec::new();
    let mut i: usize = 0;
    while i < count
        invariant
            i <= count,
            all == rows@,
            count == all.len(),
            rest@ == all.skip(i as int).reverse(),
            graphs@.len() == i,
            graph_rows_fault(all, created_at, i as int) is None,
            forall|j: int| 0 <= j < i ==> graph_read(#[trigger] graphs@[j], all[j]),
        decreases count - i,
    {
        ensure_time(deadline)?;
        let row = match rest.pop() {
            Some(row) => row,
            None => {
                return Ok(graphs);
            },
        };
        assert(row == all[i as int]);
        assert(rest@ =~= all.skip(i + 1).reverse());
        let read: Result<(ResolverCacheTier, CodeGraph), CacheError> = if row.created_at_ns
            != created_at {
            Err(CacheError::Corrupt)
        } else {
            match ResolverCacheTier::from_sql(row.tier.as_str()) {
                Ok(tier) => match row.graph {
                    Ok(graph) => Ok((tier, graph)),
                    Err(e) => Err(e),
                },
                Err(e) => Err(e),
            }
        };
        match read {
            Ok(pair) => graphs.push(pair),
            Err(e) => {
                proof {
                    assert(graph_rows_fault(all, created_at, i + 1) == Some(e));
                    lemma_graph_fault_stays(all, created_at, i + 1, all.len() as int);
                }
                return Err(e);
            },
        }
        i += 1;
    }
    Ok(graphs)
}

proof fn lemma_sizes_agree(
    files: Seq<CandidateFileRecord>,
    rows: Seq<LoadedCandidateFileRow>,
    n: int,
)
    requires
        0 <= n <= files.len(),
        files.len() == rows.len(),
        forall|i: int| 0 <= i < files.len() ==> file_read(#[trigger] files[i], rows[i]),
    ensures
        total_size(files, n) == rows_size(rows, n),
    decreases n,
{
    if n > 0 {
        lemma_sizes_agree(files, rows, n - 1);
        assert(file_read(files[n - 1], rows[n - 1]));
    }
}

proof fn lemma_scope_agrees(
    graphs: Seq<(ResolverCacheTier, CodeGraph)>,
    rows: Seq<LoadedGraphRow>,
)
    requires
        graphs.len() == rows.len(),
        forall|i: int| 0 <= i < graphs.len() ==> graph_read(#[trigger] graphs[i], rows[i]),
    ensures
        has_tier(graphs, ResolverCacheTier::Scope) == has_scope_row(rows),
{
    if has_tier(graphs, ResolverCacheTier::Scope) {
        let i = choose|i: int|
            0 <= i < graphs.len() && (#[trigger] graphs[i]).0 == ResolverCacheTier::Scope;
        assert(graph_read(graphs[i], rows[i]));
    }
    if has_scope_row(rows) {
        let i = choose|i: int|
            0 <= i < rows.len() && (#[trigger] rows[i]).tier@ == ResolverCacheTier::Scope.sql();
        assert(graph_read(graphs[i], rows[i]));
        crate::cache::types::stored_tiers_are_distinct(graphs[i].0, ResolverCacheTier::Scope);
    }
}

/// Reads a candidate back from its rows.
pub fn load_candidate(
    candidate_id: CandidateId,
    rows: CandidateRows,
    only_tier: Option<ResolverCacheTier>,
    deadline: &Deadline,
) -> (r: Result<LoadedSnapshot, CacheError>)
    ensures
        match r {
            Ok(s) => rows_fault(candidate_id.bytes@, rows, only_tier) is None && snapshot_read(
                s,
                candidate_id.bytes@,
                rows.header->0,
                rows,
            ),
            Err(e) => (e == CacheError::Timeout && deadline.may_be_used_up()) || rows_fault(
                candidate_id.bytes@,
                rows,
                only_tier,
            ) == Some(e),
        },
        deadline.heeds_clock(r == Err::<LoadedSnapshot, CacheError>(
            CacheError::Timeout,
        )),
{
    ensure_time(deadline)?;
    let ghost all = rows;
    let header = match rows.header {
        Some(header) => header,
        None => {
            return Err(CacheError::SnapshotMissing);
        },
    };
    let compatibility = CompatibilityFingerprint {
        bytes: fixed_32(header.compatibility_id.as_slice())?,
    };
    let language_fingerprint = LanguageFeatureFingerprint {
        bytes: fixed_32(header.language_fingerprint.as_slice())?,
    };
    let package_fingerprint = PackageFingerprint {
        bytes: fixed_32(header.package_fingerprint.as_slice())?,
    };
    let computed = CompatibilityFingerprint::new(language_fingerprint, package_fingerprint);
    if !compatibility.same(&computed) {
        return Err(CacheError::Corrupt);
    }
    let input_digest = ProjectInputDigest { bytes: fixed_32(header.input_digest.as_slice())? };
    let completeness = CacheCompleteness::from_sql(header.completeness)?;
    let inventory_file_count = nonnegative(header.inventory_file_count)?;
    let inventory_total_bytes = nonnegative(header.inventory_total_bytes)?;
    assert(header_readable(header));
    let files = read_files(rows.files, deadline)?;
    let tier_graphs = read_graphs(rows.graphs, header.created_at_ns, deadline)?;
    proof {
        lemma_sizes_agree(files@, all.files@, files@.len() as int);
        lemma_scope_agrees(tier_graphs@, all.graphs@);
        assert(file_inputs(files@) =~= row_inputs(all.files@)) by {
            assert forall|i: int| 0 <= i < files@.len() implies file_inputs(files@)[i]
                == row_inputs(all.files@)[i] by {
                assert(file_read(files@[i], all.files@[i]));
            }
        }
        assert(all_subgraphs(files@) == (forall|i: int|
            0 <= i < all.files@.len() ==> (#[trigger] all.files@[i]).subgraph is Some)) by {
            assert forall|i: int| 0 <= i < files@.len() implies (#[trigger] files@[i]).subgraph
                is Some == all.files@[i].subgraph is Some by {
                assert(file_read(files@[i], all.files@[i]));
            }
            if all_subgraphs(files@) {
                assert forall|i: int| 0 <= i < all.files@.len() implies (
                #[trigger] all.files@[i]).subgraph is Some by {
                    assert(files@[i].subgraph is Some);
                }
            }
        }
    }
    if only_tier.is_some() && tier_graphs.len() == 0 {
        return Err(CacheError::SnapshotMissing);
    }
    if contains_tier(&tier_graphs, ResolverCacheTier::Scope) && !has_all_subgraphs(&files) {
        return Err(CacheError::Corrupt);
    }
    let computed_total_bytes = match checked_total(&files) {
        Some(total) => total,
        None => {
            return Err(CacheError::Corrupt);
        },
    };
    let computed_input = digest_of_files(&files);
    if inventory_file_count != files.len() as u64 || inventory_total_bytes != computed_total_bytes
        || !input_digest.same(&computed_input) || !candidate_id.same(
        &CandidateId::new(compatibility, input_digest, completeness, &rows.omissions),
    ) || !omissions_sorted(&rows.omissions) {
        return Err(CacheError::Corrupt);
    }
    let compatibility_created_at = nonnegative(header.compatibility_created_at_ns)?;
    let created_at_ns = nonnegative(header.created_at_ns)?;
    Ok(
        LoadedSnapshot {
            candidate_id,
            compatibility: CompatibilityRecord {
                id: compatibility,
                language_fingerprint,
                package_fingerprint,
                created_at_ns: compatibility_created_at,
            },
            input_digest,
            completeness,
            omissions: rows.omissions,
            created_at_ns,
            inventory_file_count,
            inventory_total_bytes,
            files,
            tier_graphs,
        },
    )
}

/// The row of a slot that is in use: the candidate that it shows and what that
/// candidate was stored as.
#[derive(Debug, Clone, PartialEq, Eq)]
pub struct ActiveRow {
    pub candidate_id: Vec<u8>,
    pub tier: String,
    pub completeness: i64,
    pub compatibility_id: Vec<u8>,
}

/// The row holds what it must, for the slot that it was found in.
pub open spec fn active_readable(
    row: ActiveRow,
    tier: ResolverCacheTier,
    completeness: CacheCompleteness,
) -> bool {
    &&& row.tier@ == tier.sql()
    &&& row.completeness == completeness.sql()
    &&& row.compatibility_id@.len() == 32
}

/// Selects the candidate that a slot shows: none when the slot is unused or its
/// candidate has another compatibility than the expected one.
pub fn select_active(
    active: Option<ActiveRow>,
    tier: ResolverCacheTier,
    completeness: CacheCompleteness,
    expected: Option<CompatibilityFingerprint>,
) -> (r: Result<Option<CandidateId>, CacheError>)
    ensures
        match active {
            None => r == Ok::<Option<CandidateId>, CacheError>(None),
            Some(row) => if !active_readable(row, tier, completeness) {
                r == Err::<Option<CandidateId>, CacheError>(CacheError::Corrupt)
            } else if expected is Some && expected->0.bytes@ != row.compatibility_id@ {
                r == Ok::<Option<CandidateId>, CacheError>(None)
            } else if row.candidate_id@.len() != 32 {
                r == Err::<Option<CandidateId>, CacheError>(CacheError::Corrupt)
            } else {
                r is Ok && r->Ok_0 is Some && r->Ok_0->0.bytes@ == row.candidate_id@
            },
        },
{
    let row = match active {
        Some(row) => row,
        None => {
            return Ok(None);
        },
    };
    let graph_tier = match ResolverCacheTier::from_sql(row.tier.as_str()) {
        Ok(t) => t,
        Err(e) => {
            assert(row.tier@ != tier.sql());
            return Err(e);
        },
    };
    proof {
        crate::cache::types::stored_tiers_are_distinct(graph_tier, tier);
    }
    let stored_completeness = match CacheCompleteness::from_sql(row.completeness) {
        Ok(c) => c,
        Err(e) => {
            return Err(e);
        },
    };
    if graph_tier != tier || stored_completeness != completeness {
        return Err(CacheError::Corrupt);
    }
    // The stored identity is validated even when no caller asks for one.
    let compatibility = match fixed_32(row.compatibility_id.as_slice()) {
        Ok(bytes) => CompatibilityFingerprint { bytes },
        Err(e) => {
            return Err(e);
        },
    };
    match expected {
        Some(wanted) => if !wanted.same(&compatibility) {
            return Ok(None);
        },
        None => {},
    }
    match fingerprint_from_blob(row.candidate_id.as_slice()) {
        Ok(id) => Ok(Some(id)),
        Err(e) => Err(e),
    }
}

/// Returns one graph that was asked for; a missing one is no empty graph.
pub fn load_graph<F: FnOnce(&serde_json::Value) -> Option<CodeGraph>>(
    blob: Option<Vec<u8>>,
    read: F,
) -> (r: Result<CodeGraph, CacheError>)
    requires
        forall|v: &serde_json::Value| #[trigger] call_requires(read, (v,)),
    ensures
        match blob {
            None => r == Err::<CodeGraph, CacheError>(CacheError::SnapshotMissing),
            Some(b) => graphs_come_back(b@, read, r) && exists|graph: Result<CodeGraph, CacheError>|
             #[trigger]
                is_decoding(b@, "code-graph"@, CODE_GRAPH_SCHEMA_VERSION, read, graph)
                    && bounded_graph(graph, r),
        },
{
    match blob {
        Some(blob) => decode_graph(blob.as_slice(), read),
        None => Err(CacheError::SnapshotMissing),
    }
}

/// The subgraph of one file as it is stored.
#[derive(Debug, Clone, PartialEq, Eq)]
pub struct StoredSubgraph {
    pub path: String,
    pub blob: Vec<u8>,
}

/// Why the first `n` files cannot be hydrated, if they cannot.
pub open spec fn hydration_fault(files: Seq<CandidateFileRecord>, n: int) -> Option<CacheError>
    decreases n,
{
    if n <= 0 {
        None
    } else {
        match hydration_fault(files, n - 1) {
            Some(e) => Some(e),
            None => match files[n - 1].subgraph {
                None => Some(CacheError::SnapshotMissing),
                Some(subgraph) => if subgraph_blob(subgraph.encoded@).len() > CACHE_BLOB_MAX_BYTES {
                    Some(CacheError::Oversize)
                } else {
                    None
                },
            },
        }
    }
}

proof fn lemma_hydration_fault_stays(files: Seq<CandidateFileRecord>, m: int, n: int)
    requires
        m <= n,
        hydration_fault(files, m) is Some,
    ensures
        hydration_fault(files, n) == hydration_fault(files, m),
    decreases n - m,
{
    if m < n {
        lemma_hydration_fault_stays(files, m, n - 1);
    }
}

/// Gives the subgraphs of all files of a candidate with a graph of the scope tier, to
/// be restored one by one.
pub fn hydrate_scope_subgraphs(loaded: &LoadedSnapshot, deadline: &Deadline) -> (r: Result<
    Vec<StoredSubgraph>,
    CacheError,
>)
    ensures
        match r {
            Ok(stored) => {
                &&& has_tier(loaded.tier_graphs@, ResolverCacheTier::Scope)
                &&& hydration_fault(loaded.files@, loaded.files@.len() as int) is None
                &&& stored@.len() == loaded.files@.len()
                &&& forall|i: int|
                    0 <= i < stored@.len() ==> (#[trigger] stored@[i]).path@
                        == loaded.files@[i].path@ && loaded.files@[i].subgraph is Some
                        && stored@[i].blob@ == subgraph_blob(loaded.files@[i].subgraph->0.encoded@)
            },
            Err(e) => (e == CacheError::Timeout && deadline.may_be_used_up()) || if !has_tier(
                loaded.tier_graphs@,
                ResolverCacheTier::Scope,
            ) {
                e == CacheError::SnapshotMissing
            } else {
                hydration_fault(loaded.files@, loaded.files@.len() as int) == Some(e)
            },
        },
        deadline.heeds_clock(r == Err::<Vec<StoredSubgraph>, CacheError>(
            CacheError::Timeout,
        )),
{
    ensure_time(deadline)?;
    if !contains_tier(&loaded.tier_graphs, ResolverCacheTier::Scope) {
        return Err(CacheError::SnapshotMissing);
    }
    let mut stored: Vec<StoredSubgraph> = Vec::new();
    let mut i: usize = 0;
    while i < loaded.files.len()
        invariant
            i <= loaded.files.len(),
            has_tier(loaded.tier_graphs@, ResolverCacheTier::Scope),
            hydration_fault(loaded.files@, i as int) is None,
            stored@.len() == i,
            forall|j: int|
                0 <= j < i ==> (#[trigger] stored@[j]).path@ == loaded.files@[j].path@
                    && loaded.files@[j].subgraph is Some && stored@[j].blob@ == subgraph_blob(
                    loaded.files@[j].subgraph->0.encoded@,
                ),
        decreases loaded.files.len() - i,
    {
        ensure_time(deadline)?;
        let file = &loaded.files[i];
        let encoded: Result<Vec<u8>, CacheError> = match &file.subgraph {
            Some(subgraph) => encode_subgraph(subgraph.encoded.as_slice()),
            None => Err(CacheError::SnapshotMissing),
        };
        match encoded {
            Ok(blob) => stored.push(StoredSubgraph { path: file.path.clone(), blob }),
            Err(e) => {
                proof {
                    assert(hydration_fault(loaded.files@, i + 1) == Some(e));
                    lemma_hydration_fault_stays(
                        loaded.files@,
                        i + 1,
                        loaded.files@.len() as int,
                    );
                }
                return Err(e);
            },
        }
        i += 1;
    }
    Ok(stored)
}

/// The row of a file as it is stored, its blobs unread.
#[derive(Debug, Clone, PartialEq, Eq)]
pub struct CandidateFileRow {
    pub path: String,
    pub language: String,
    pub content_hash: Vec<u8>,
    pub size_bytes: i64,
    pub mtime_seconds: Option<i64>,
    pub mtime_nanoseconds: Option<i64>,
    pub package_assignment: String,
    pub file_facts: Vec<u8>,
    pub file_subgraph: Option<Vec<u8>>,
}

/// The subgraph is what restoring the blob for its owner gives.
pub open spec fn is_restoring<F: FnOnce(&serde_json::Value) -> Option<FileSubgraph>>(
    blob: Seq<u8>,
    owner: Seq<char>,
    read: F,
    result: Result<FileSubgraph, CacheError>,
) -> bool {
    if encode_utf8(owner).len() > CACHE_OWNER_MAX_BYTES {
        result == Err::<FileSubgraph, CacheError>(CacheError::Limits)
    } else {
        exists|subgraph: Result<FileSubgraph, CacheError>| #[trigger]
            is_decoding(blob, "file-subgraph"@, FILE_SUBGRAPH_SCHEMA_VERSION, read, subgraph)
                && owned_subgraph(owner, subgraph, result)
    }
}

/// Reads the blobs of a file's row.
pub fn decode_file_row<
    F: FnOnce(&serde_json::Value) -> Option<FileFacts>,
    G: FnOnce(&serde_json::Value) -> Option<FileSubgraph>,
>(row: CandidateFileRow, read_facts: F, read_subgraph: G) -> (r: LoadedCandidateFileRow)
    requires
        forall|v: &serde_json::Value| #[trigger] call_requires(read_facts, (v,)),
        forall|v: &serde_json::Value| #[trigger] call_requires(read_subgraph, (v,)),
    ensures
        r.path == row.path,
        r.language == row.language,
        r.content_hash == row.content_hash,
        r.size_bytes == row.size_bytes,
        r.mtime_seconds == row.mtime_seconds,
        r.mtime_nanoseconds == row.mtime_nanoseconds,
        r.package_assignment == row.package_assignment,
        exists|facts: Result<FileFacts, CacheError>| #[trigger]
            is_decoding(
                row.file_facts@,
                "file-facts"@,
                FILE_FACTS_SCHEMA_VERSION,
                read_facts,
                facts,
            ) && checked_facts(facts, r.facts),
        facts_come_back(row.file_facts@, read_facts, r.facts),
        match row.file_subgraph {
            Some(blob) => r.subgraph is Some && is_restoring(
                blob@,
                row.path@,
                read_subgraph,
                r.subgraph->0,
            ) && subgraphs_come_back(blob@, row.path@, read_subgraph, r.subgraph->0),
            None => r.subgraph is None,
        },
{
    let facts = decode_file_facts(row.file_facts.as_slice(), read_facts);
    let subgraph: Option<Result<FileSubgraph, CacheError>> = match row.file_subgraph {
        Some(blob) => {
            let restored = restore_subgraph(blob.as_slice(), row.path.as_str(), read_subgraph);
            assert(is_restoring(blob@, row.path@, read_subgraph, restored));
            Some(restored)
        },
        None => None,
    };
    LoadedCandidateFileRow {
        path: row.path,
        language: row.language,
        content_hash: row.content_hash,
        size_bytes: row.size_bytes,
        mtime_seconds: row.mtime_seconds,
        mtime_nanoseconds: row.mtime_nanoseconds,
        package_assignment: row.package_assignment,
        facts,
        subgraph,
    }
}

/// The row is that of the candidate that was written.
pub open spec fn header_written(row: CandidateSnapshotRow, p: PreparedCandidate) -> bool {
    &&& row.compatibility_id@ == p.compatibility_id@
    &&& row.language_fingerprint@ == p.language_fingerprint@
    &&& row.package_fingerprint@ == p.package_fingerprint@
    &&& row.input_digest@ == p.input_digest@
    &&& row.completeness == p.completeness
    &&& row.created_at_ns == p.created_at
    &&& row.compatibility_created_at_ns == p.compatibility_created_at
    &&& row.inventory_file_count == p.inventory_file_count
    &&& row.inventory_total_bytes == p.inventory_total_bytes
}

/// The row is that of the file that was written, and its blobs hold what the file
/// held.
pub open spec fn file_written(
    row: LoadedCandidateFileRow,
    p: PreparedFile,
    f: CandidateFileRecord,
) -> bool {
    &&& row.path@ == p.path@
    &&& row.language@ == p.language@
    &&& row.content_hash@ == p.content_hash@
    &&& row.size_bytes == p.size_bytes
    &&& row.mtime_seconds == p.mtime_seconds
    &&& row.mtime_nanoseconds == p.mtime_nanoseconds
    &&& row.package_assignment@ == p.package_assignment@
    &&& row.facts == Ok::<FileFacts, CacheError>(f.facts)
    &&& match f.subgraph {
        Some(subgraph) => row.subgraph == Some(Ok::<FileSubgraph, CacheError>(subgraph)),
        None => row.subgraph is None,
    }
}

/// The rows are those of the candidate that was written: its graphs may come back in
/// another order.
pub open spec fn rows_written(
    rows: CandidateRows,
    p: PreparedCandidate,
    c: CandidateSnapshot,
) -> bool {
    &&& rows.header is Some
    &&& header_written(rows.header->0, p)
    &&& omission_views(rows.omissions@) == omission_views(p.omissions@)
    &&& rows.files@.len() == p.files@.len()
    &&& forall|i: int|
        0 <= i < rows.files@.len() ==> file_written(
            #[trigger] rows.files@[i],
            p.files@[i],
            c.files@[i],
        )
    &&& forall|i: int|
        0 <= i < rows.graphs@.len() ==> graph_written(#[trigger] rows.graphs@[i], p.created_at, c)
}

/// The row is that of some graph of the candidate that was written.
pub open spec fn graph_written(row: LoadedGraphRow, created_at: i64, c: CandidateSnapshot) -> bool {
    exists|k: int|
        0 <= k < c.tier_graphs@.len() && row.created_at_ns == created_at && row.tier@ == (
        #[trigger] c.tier_graphs@[k]).0.sql() && row.graph == Ok::<CodeGraph, CacheError>(
            c.tier_graphs@[k].1,
        )
}

proof fn lemma_written_files_read(
    c: CandidateSnapshot,
    payloads: CandidatePayloads,
    p: PreparedCandidate,
    rows: CandidateRows,
    n: int,
)
    requires
        0 <= n <= c.files@.len(),
        candidate_fault(c, payloads) is None,
        candidate_stored(p, c, payloads),
        rows_written(rows, p, c),
    ensures
        file_rows_fault(rows.files@, n) is None,
        rows_size(rows.files@, n) == total_size(c.files@, n),
    decreases n,
{
    if n > 0 {
        lemma_written_files_read(c, payloads, p, rows, n - 1);
        lemma_no_fault(c, payloads, n);
        let i = n - 1;
        assert(file_stored(p.files@[i], c.files@[i], payloads.facts@[i]@));
        assert(file_written(rows.files@[i], p.files@[i], c.files@[i]));
        stored_mtimes_read_back(c.files@[i].mtime);
    }
}

proof fn lemma_no_fault(c: CandidateSnapshot, payloads: CandidatePayloads, n: int)
    requires
        0 < n <= c.files@.len(),
        candidate_fault(c, payloads) is None,
    ensures
        file_fault(c.files@[n - 1], payloads.facts@[n - 1]@) is None,
{
    if files_fault(c.files@, payloads.facts@, n) is Some {
        lemma_files_fault_stays(c.files@, payloads.facts@, n, c.files@.len() as int);
    }
}

proof fn lemma_written_graphs_read(
    c: CandidateSnapshot,
    p: PreparedCandidate,
    rows: CandidateRows,
    n: int,
)
    requires
        0 <= n <= rows.graphs@.len(),
        rows_written(rows, p, c),
    ensures
        graph_rows_fault(rows.graphs@, p.created_at, n) is None,
    decreases n,
{
    if n > 0 {
        lemma_written_graphs_read(c, p, rows, n - 1);
        assert(graph_written(rows.graphs@[n - 1], p.created_at, c));
        let k = choose|k: int|
            0 <= k < c.tier_graphs@.len() && rows.graphs@[n - 1].created_at_ns == p.created_at
                && rows.graphs@[n - 1].tier@ == (#[trigger] c.tier_graphs@[k]).0.sql()
                && rows.graphs@[n - 1].graph == Ok::<CodeGraph, CacheError>(c.tier_graphs@[k].1);
        assert(c.tier_graphs@[k].0.sql() == rows.graphs@[n - 1].tier@);
    }
}

/// A candidate that could be written is read back: the rows that were written for it
/// load without a fault, whatever graphs of it are asked for.
pub proof fn written_candidates_load(
    c: CandidateSnapshot,
    payloads: CandidatePayloads,
    p: PreparedCandidate,
    rows: CandidateRows,
    only_tier: Option<ResolverCacheTier>,
)
    requires
        candidate_fault(c, payloads) is None,
        candidate_stored(p, c, payloads),
        rows_written(rows, p, c),
        only_tier is Some ==> rows.graphs@.len() > 0,
    ensures
        rows_fault(c.candidate_id.bytes@, rows, only_tier) is None,
{
    let header = rows.header->0;
    lemma_written_files_read(c, payloads, p, rows, c.files@.len() as int);
    lemma_written_graphs_read(c, p, rows, rows.graphs@.len() as int);
    assert(candidate_consistent(c));
    assert(row_inputs(rows.files@) =~= file_inputs(c.files@)) by {
        assert forall|i: int| 0 <= i < rows.files@.len() implies row_inputs(rows.files@)[i]
            == file_inputs(c.files@)[i] by {
            assert(file_stored(p.files@[i], c.files@[i], payloads.facts@[i]@));
            assert(file_written(rows.files@[i], p.files@[i], c.files@[i]));
        }
    }
    assert(omission_keys(rows.omissions@) =~= omission_keys(c.omissions@)) by {
        let a = omission_views(rows.omissions@);
        let b = omission_views(c.omissions@);
        assert(a.len() == rows.omissions@.len() && b.len() == c.omissions@.len());
        assert forall|i: int| 0 <= i < a.len() implies omission_keys(rows.omissions@)[i]
            == omission_keys(c.omissions@)[i] by {
            assert(a[i] == rows.omissions@[i]@);
            assert(b[i] == c.omissions@[i]@);
        }
    }
    if has_scope_row(rows.graphs@) {
        let i = choose|i: int|
            0 <= i < rows.graphs@.len() && (#[trigger] rows.graphs@[i]).tier@
                == ResolverCacheTier::Scope.sql();
        assert(graph_written(rows.graphs@[i], p.created_at, c));
        let k = choose|k: int|
            0 <= k < c.tier_graphs@.len() && rows.graphs@[i].created_at_ns == p.created_at
                && rows.graphs@[i].tier@ == (#[trigger] c.tier_graphs@[k]).0.sql()
                && rows.graphs@[i].graph == Ok::<CodeGraph, CacheError>(c.tier_graphs@[k].1);
        crate::cache::types::stored_tiers_are_distinct(
            c.tier_graphs@[k].0,
            ResolverCacheTier::Scope,
        );
        assert(has_tier(c.tier_graphs@, ResolverCacheTier::Scope));
        assert forall|j: int| 0 <= j < rows.files@.len() implies (
        #[trigger] rows.files@[j]).subgraph is Some by {
            assert(file_written(rows.files@[j], p.files@[j], c.files@[j]));
            assert(c.files@[j].subgraph is Some);
        }
    }
    assert(rows_consistent(c.candidate_id.bytes@, header, rows));
}

/// The file is the one that was written.
pub open spec fn file_restored(f: CandidateFileRecord, c: CandidateFileRecord) -> bool {
    &&& f.path@ == c.path@
    &&& f.language@ == c.language@
    &&& f.content_hash@ == c.content_hash@
    &&& f.size_bytes == c.size_bytes
    &&& f.mtime == c.mtime
    &&& f.package_assignment@ == c.package_assignment@
    &&& f.facts == c.facts
    &&& f.subgraph == c.subgraph
}

/// The snapshot is the candidate that was written; of its graphs, it has those that
/// were asked for.
pub open spec fn candidate_restored(s: LoadedSnapshot, c: CandidateSnapshot) -> bool {
    &&& s.candidate_id.bytes@ == c.candidate_id.bytes@
    &&& s.compatibility.id.bytes@ == c.compatibility.id.bytes@
    &&& s.compatibility.language_fingerprint.bytes@ == c.compatibility.language_fingerprint.bytes@
    &&& s.compatibility.package_fingerprint.bytes@ == c.compatibility.package_fingerprint.bytes@
    &&& s.compatibility.created_at_ns == c.compatibility.created_at_ns
    &&& s.input_digest.bytes@ == c.input_digest.bytes@
    &&& s.completeness == c.completeness
    &&& omission_views(s.omissions@) == omission_views(c.omissions@)
    &&& s.created_at_ns == c.created_at_ns
    &&& s.inventory_file_count == c.inventory_file_count
    &&& s.inventory_total_bytes == c.inventory_total_bytes
    &&& s.files@.len() == c.files@.len()
    &&& forall|i: int|
        0 <= i < s.files@.len() ==> file_restored(#[trigger] s.files@[i], c.files@[i])
    &&& forall|i: int|
        0 <= i < s.tier_graphs@.len() ==> c.tier_graphs@.contains(#[trigger] s.tier_graphs@[i])
}

/// What is read back of a candidate is what was written of it.
pub proof fn loaded_candidates_are_as_written(
    c: CandidateSnapshot,
    payloads: CandidatePayloads,
    p: PreparedCandidate,
    rows: CandidateRows,
    s: LoadedSnapshot,
)
    requires
        candidate_fault(c, payloads) is None,
        candidate_stored(p, c, payloads),
        rows_written(rows, p, c),
        snapshot_read(s, c.candidate_id.bytes@, rows.header->0, rows),
    ensures
        candidate_restored(s, c),
{
    assert forall|i: int| 0 <= i < s.files@.len() implies file_restored(
        #[trigger] s.files@[i],
        c.files@[i],
    ) by {
        lemma_no_fault(c, payloads, i + 1);
        assert(file_stored(p.files@[i], c.files@[i], payloads.facts@[i]@));
        assert(file_written(rows.files@[i], p.files@[i], c.files@[i]));
        assert(file_read(s.files@[i], rows.files@[i]));
        stored_mtimes_read_back(c.files@[i].mtime);
    }
    assert forall|i: int| 0 <= i < s.tier_graphs@.len() implies c.tier_graphs@.contains(
        #[trigger] s.tier_graphs@[i],
    ) by {
        assert(graph_read(s.tier_graphs@[i], rows.graphs@[i]));
        assert(graph_written(rows.graphs@[i], p.created_at, c));
        let k = choose|k: int|
            0 <= k < c.tier_graphs@.len() && rows.graphs@[i].created_at_ns == p.created_at
                && rows.graphs@[i].tier@ == (#[trigger] c.tier_graphs@[k]).0.sql()
                && rows.graphs@[i].graph == Ok::<CodeGraph, CacheError>(c.tier_graphs@[k].1);
        crate::cache::types::stored_tiers_are_distinct(s.tier_graphs@[i].0, c.tier_graphs@[k].0);
        assert(s.tier_graphs@[i] == c.tier_graphs@[k]);
    }
}

} // verus!
