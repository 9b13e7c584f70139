//! Publication of candidates: which rows are written, in which order, and when what
//! is already stored stands in the way.

use vstd::prelude::*;
use vstd::string::*;
use crate::cache::fingerprint::omission_views;
use crate::cache::load::CandidateFileRow;
use crate::cache::rows::{
    candidate_fault, candidate_stored, ensure_time, CandidatePayloads, PreparedCandidate,
    PreparedFile, PreparedGraph,
};
use crate::cache::snapshot::CandidateSnapshot;
use crate::cache::types::{CacheError, CacheOmission, ResolverCacheTier};
use crate::deadline::Deadline;
use crate::text::{same_bytes, same_text};

verus! {

/// The fingerprints stored for a compatibility.
#[derive(Debug, Clone, PartialEq, Eq)]
pub struct ExistingCompatibilityRow {
    pub language_fingerprint: Vec<u8>,
    pub package_fingerprint: Vec<u8>,
}

/// The stored row of a candidate.
#[derive(Debug, Clone, PartialEq, Eq)]
pub struct ExistingCandidateRow {
    pub compatibility_id: Vec<u8>,
    pub input_digest: Vec<u8>,
    pub completeness: i64,
    pub inventory_file_count: i64,
    pub inventory_total_bytes: i64,
    pub created_at_ns: i64,
}

/// The stored graph of a candidate.
#[derive(Debug, Clone, PartialEq, Eq)]
pub struct ExistingGraphRow {
    pub tier: ResolverCacheTier,
    pub blob: Vec<u8>,
}

/// What is stored under the identities of a candidate.
#[derive(Debug, Clone, PartialEq, Eq)]
pub struct StoredCandidate {
    pub compatibility: Option<ExistingCompatibilityRow>,
    pub candidate: Option<ExistingCandidateRow>,
    pub omissions: Vec<CacheOmission>,
    pub files: Vec<CandidateFileRow>,
    pub graphs: Vec<ExistingGraphRow>,
}

/// One write of a publication; the numbers are places in the candidate's lists.
#[derive(Debug, Clone, Copy, PartialEq, Eq, Structural)]
pub enum PublishStep {
    InsertCompatibility,
    InsertCandidate,
    InsertOmission { index: usize },
    InsertFile { index: usize },
    FillSubgraph { index: usize },
    InsertGraph { index: usize, created_at: i64 },
    Activate { index: usize },
}

/// The stored row of the file of the path.
pub open spec fn stored_file(rows: Seq<CandidateFileRow>, path: Seq<char>) -> Option<
    CandidateFileRow,
>
    decreases rows.len(),
{
    if rows.len() == 0 {
        None
    } else if rows[0].path@ == path {
        Some(rows[0])
    } else {
        stored_file(rows.skip(1), path)
    }
}

/// The stored graph of the tier.
pub open spec fn stored_graph(rows: Seq<ExistingGraphRow>, tier: ResolverCacheTier) -> Option<
    Seq<u8>,
>
    decreases rows.len(),
{
    if rows.len() == 0 {
        None
    } else if rows[0].tier == tier {
        Some(rows[0].blob@)
    } else {
        stored_graph(rows.skip(1), tier)
    }
}

/// The stored file is the one that is to be written; a subgraph that only one of
/// them has does not set them apart.
pub open spec fn file_agrees(found: CandidateFileRow, file: PreparedFile) -> bool {
    &&& found.language@ == file.language@
    &&& found.content_hash@ == file.content_hash@
    &&& found.size_bytes == file.size_bytes
    &&& found.mtime_seconds == file.mtime_seconds
    &&& found.mtime_nanoseconds == file.mtime_nanoseconds
    &&& found.package_assignment@ == file.package_assignment@
    &&& found.file_facts@ == file.facts@
    &&& (found.file_subgraph is Some && file.subgraph is Some ==> found.file_subgraph->0@
        == file.subgraph->0@)
}

/// The file is stored as it is to be written.
pub open spec fn file_present(rows: Seq<CandidateFileRow>, file: PreparedFile) -> bool {
    match stored_file(rows, file.path@) {
        Some(found) => file_agrees(found, file),
        None => false,
    }
}

/// The stored compatibility is the one that is to be written.
pub open spec fn compatibility_agrees(p: PreparedCandidate, stored: StoredCandidate) -> bool {
    stored.compatibility matches Some(row) ==> row.language_fingerprint@
        == p.language_fingerprint@ && row.package_fingerprint@ == p.package_fingerprint@
}

/// The stored row is that of the candidate.
pub open spec fn header_agrees(p: PreparedCandidate, row: ExistingCandidateRow) -> bool {
    &&& row.compatibility_id@ == p.compatibility_id@
    &&& row.input_digest@ == p.input_digest@
    &&& row.completeness == p.completeness
    &&& row.inventory_file_count == p.inventory_file_count
    &&& row.inventory_total_bytes == p.inventory_total_bytes
}

/// The stored candidate is the one that is to be written.
pub open spec fn contents_agree(p: PreparedCandidate, stored: StoredCandidate) -> bool {
    &&& stored.files@.len() == p.files@.len()
    &&& omission_views(stored.omissions@) == omission_views(p.omissions@)
    &&& forall|i: int|
        0 <= i < p.files@.len() ==> file_present(stored.files@, #[trigger] p.files@[i])
}

/// The graph is stored as it is to be written, or not at all.
pub open spec fn graph_agrees(stored: StoredCandidate, graph: PreparedGraph) -> bool {
    stored_graph(stored.graphs@, graph.tier) matches Some(blob) ==> blob == graph.blob@
}

/// Nothing that is stored stands in the way of the candidate.
pub open spec fn publishable(p: PreparedCandidate, stored: StoredCandidate) -> bool {
    &&& compatibility_agrees(p, stored)
    &&& stored.candidate matches Some(row) ==> header_agrees(p, row) && contents_agree(p, stored)
    &&& forall|i: int|
        0 <= i < p.graphs@.len() ==> graph_agrees(stored, #[trigger] p.graphs@[i])
}

/// The writes of the first `n` omissions.
pub open spec fn omission_steps(n: nat) -> Seq<PublishStep> {
    Seq::new(n, |i: int| PublishStep::InsertOmission { index: i as usize })
}

/// The writes of the first `n` files.
pub open spec fn file_steps(n: nat) -> Seq<PublishStep> {
    Seq::new(n, |i: int| PublishStep::InsertFile { index: i as usize })
}

/// The stored file lacks the subgraph that the new one has.
pub open spec fn lacks_subgraph(rows: Seq<CandidateFileRow>, file: PreparedFile) -> bool {
    file.subgraph is Some && (stored_file(rows, file.path@) matches Some(found)
        && found.file_subgraph is None)
}

/// The subgraphs that are added to the first `n` files.
pub open spec fn fill_steps(
    rows: Seq<CandidateFileRow>,
    files: Seq<PreparedFile>,
    n: int,
) -> Seq<PublishStep>
    decreases n,
{
    if n <= 0 {
        Seq::empty()
    } else {
        fill_steps(rows, files, n - 1) + if lacks_subgraph(rows, files[n - 1]) {
            seq![PublishStep::FillSubgraph { index: (n - 1) as usize }]
        } else {
            Seq::empty()
        }
    }
}

/// The writes of the first `n` graphs; each is shown right after it is there.
pub open spec fn graph_steps(
    stored: StoredCandidate,
    graphs: Seq<PreparedGraph>,
    created_at: i64,
    n: int,
) -> Seq<PublishStep>
    decreases n,
{
    if n <= 0 {
        Seq::empty()
    } else {
        graph_steps(stored, graphs, created_at, n - 1) + if stored_graph(
            stored.graphs@,
            graphs[n - 1].tier,
        ) is None {
            seq![
                PublishStep::InsertGraph { index: (n - 1) as usize, created_at },
                PublishStep::Activate { index: (n - 1) as usize },
            ]
        } else {
            seq![PublishStep::Activate { index: (n - 1) as usize }]
        }
    }
}

/// The time that the graphs of a candidate carry: that of the candidate's row.
pub open spec fn candidate_time(p: PreparedCandidate, stored: StoredCandidate) -> i64 {
    match stored.candidate {
        Some(row) => row.created_at_ns,
        None => p.created_at,
    }
}

/// The writes before the graphs.
pub open spec fn content_steps(p: PreparedCandidate, stored: StoredCandidate) -> Seq<PublishStep> {
    let opening: Seq<PublishStep> = if stored.compatibility is None {
        seq![PublishStep::InsertCompatibility]
    } else {
        Seq::empty()
    };
    if stored.candidate is Some {
        opening + fill_steps(stored.files@, p.files@, p.files@.len() as int)
    } else {
        opening + seq![PublishStep::InsertCandidate] + omission_steps(p.omissions@.len())
            + file_steps(p.files@.len())
    }
}

/// All writes of a publication, in their order.
pub open spec fn publication(p: PreparedCandidate, stored: StoredCandidate) -> Seq<PublishStep> {
    content_steps(p, stored) + graph_steps(
        stored,
        p.graphs@,
        candidate_time(p, stored),
        p.graphs@.len() as int,
    )
}

/// The place of the stored row of the file of the path.
fn find_file(rows: &Vec<CandidateFileRow>, path: &str) -> (r: Option<usize>)
    ensures
        match r {
            Some(i) => i < rows@.len() && stored_file(rows@, path@) == Some(rows@[i as int]),
            None => stored_file(rows@, path@) is None,
        },
{
    assert(rows@.skip(0) =~= rows@);
    let mut i: usize = 0;
    while i < rows.len()
        invariant
            i <= rows.len(),
            stored_file(rows@, path@) == stored_file(rows@.skip(i as int), path@),
        decreases rows.len() - i,
    {
        assert(rows@.skip(i as int)[0] == rows@[i as int]);
        if same_text(rows[i].path.as_str(), path) {
            return Some(i);
        }
        assert(rows@.skip(i as int).skip(1) =~= rows@.skip(i + 1));
        i += 1;
    }
    None
}

/// The place of the stored graph of the tier.
fn find_graph(rows: &Vec<ExistingGraphRow>, tier: ResolverCacheTier) -> (r: Option<usize>)
    ensures
        match r {
            Some(i) => i < rows@.len() && stored_graph(rows@, tier) == Some(rows@[i as int].blob@),
            None => stored_graph(rows@, tier) is None,
        },
{
    assert(rows@.skip(0) =~= rows@);
    let mut i: usize = 0;
    while i < rows.len()
        invariant
            i <= rows.len(),
            stored_graph(rows@, tier) == stored_graph(rows@.skip(i as int), tier),
        decreases rows.len() - i,
    {
        assert(rows@.skip(i as int)[0] == rows@[i as int]);
        if rows[i].tier == tier {
            return Some(i);
        }
        assert(rows@.skip(i as int).skip(1) =~= rows@.skip(i + 1));
        i += 1;
    }
    None
}

fn agrees(found: &CandidateFileRow, file: &PreparedFile) -> (r: bool)
    ensures
        r == file_agrees(*found, *file),
{
    if !same_text(found.language.as_str(), file.language.as_str()) || !same_bytes(
        found.content_hash.as_slice(),
        file.content_hash.as_slice(),
    ) || found.size_bytes != file.size_bytes || found.mtime_seconds != file.mtime_seconds
        || found.mtime_nanoseconds != file.mtime_nanoseconds || !same_text(
        found.package_assignment.as_str(),
        file.package_assignment.as_str(),
    ) || !same_bytes(found.file_facts.as_slice(), file.facts.as_slice()) {
        return false;
    }
    match (&found.file_subgraph, &file.subgraph) {
        (Some(stored), Some(incoming)) => same_bytes(stored.as_slice(), incoming.as_slice()),
        _ => true,
    }
}

/// Tells whether two lists of omissions are equal.
pub fn same_omissions(a: &Vec<CacheOmission>, b: &Vec<CacheOmission>) -> (r: bool)
    ensures
        r == (omission_views(a@) == omission_views(b@)),
{
    let ghost va = omission_views(a@);
    let ghost vb = omission_views(b@);
    assert(va.len() == a@.len() && vb.len() == b@.len());
    if a.len() != b.len() {
        return false;
    }
    let mut i: usize = 0;
    while i < a.len()
        invariant
            i <= a.len(),
            a@.len() == b@.len(),
            va == omission_views(a@),
            vb == omission_views(b@),
            forall|j: int| 0 <= j < i ==> va[j] == vb[j],
        decreases a.len() - i,
    {
        assert(va[i as int] == a@[i as int]@ && vb[i as int] == b@[i as int]@);
        if !same_text(a[i].path.as_str(), b[i].path.as_str()) || !same_text(
            a[i].reason.as_str(),
            b[i].reason.as_str(),
        ) || !same_text(a[i].detail.as_str(), b[i].detail.as_str()) {
            assert(va[i as int] != vb[i as int]);
            return false;
        }
        i += 1;
    }
    assert(va =~= vb);
    true
}

/// Checks a stored candidate against the one to be written, and gives the subgraphs
/// that it lacks.
fn verify_existing_candidate(
    p: &PreparedCandidate,
    stored: &StoredCandidate,
    deadline: &Deadline,
) -> (r: Result<Vec<PublishStep>, CacheError>)
    ensures
        match r {
            Ok(steps) => contents_agree(*p, *stored) && steps@ == fill_steps(
                stored.files@,
                p.files@,
                p.files@.len() as int,
            ),
            Err(e) => (e == CacheError::Timeout && deadline.may_be_used_up()) || (e
                == CacheError::CandidateConflict && !contents_agree(*p, *stored)),
        },
{
    if stored.files.len() != p.files.len() || !same_omissions(&stored.omissions, &p.omissions) {
        return Err(CacheError::CandidateConflict);
    }
    let mut steps: Vec<PublishStep> = Vec::new();
    let mut i: usize = 0;
    while i < p.files.len()
        invariant
            i <= p.files.len(),
            stored.files@.len() == p.files@.len(),
            omission_views(stored.omissions@) == omission_views(p.omissions@),
            forall|j: int| 0 <= j < i ==> file_present(stored.files@, #[trigger] p.files@[j]),
            steps@ == fill_steps(stored.files@, p.files@, i as int),
        decreases p.files.len() - i,
    {
        ensure_time(deadline)?;
        let file = &p.files[i];
        match find_file(&stored.files, file.path.as_str()) {
            Some(at) => {
                if !agrees(&stored.files[at], file) {
                    assert(!file_present(stored.files@, p.files@[i as int]));
                    return Err(CacheError::CandidateConflict);
                }
                if stored.files[at].file_subgraph.is_none() && file.subgraph.is_some() {
                    steps.push(PublishStep::FillSubgraph { index: i });
                }
            },
            None => {
                assert(!file_present(stored.files@, p.files@[i as int]));
                return Err(CacheError::CandidateConflict);
            },
        }
        i += 1;
        assert(steps@ =~= fill_steps(stored.files@, p.files@, i as int));
    }
    Ok(steps)
}

/// Checks a candidate before it is published: a store that was opened for reading
/// takes none.
pub fn prepare_publication(
    writable: bool,
    candidate: &CandidateSnapshot,
    payloads: &CandidatePayloads,
    deadline: &Deadline,
) -> (r: Result<PreparedCandidate, CacheError>)
    requires
        payloads.fit(*candidate),
    ensures
        !writable ==> r == Err::<PreparedCandidate, CacheError>(CacheError::ReadOnly),
        writable ==> match r {
            Ok(p) => candidate_fault(*candidate, *payloads) is None && candidate_stored(
                p,
                *candidate,
                *payloads,
            ),
            Err(e) => (e == CacheError::Timeout && deadline.may_be_used_up()) || candidate_fault(
                *candidate,
                *payloads,
            ) == Some(e),
        },
        writable ==> deadline.heeds_clock(r == Err::<PreparedCandidate, CacheError>(
            CacheError::Timeout,
        )),
{
    if !writable {
        return Err(CacheError::ReadOnly);
    }
    PreparedCandidate::new(candidate, payloads, deadline)
}

/// Plans the publication of a candidate: the writes it takes, or the conflict with
/// what is stored.
pub fn plan_publication(
    p: &PreparedCandidate,
    stored: &StoredCandidate,
    deadline: &Deadline,
) -> (r: Result<Vec<PublishStep>, CacheError>)
    ensures
        match r {
            Ok(steps) => publishable(*p, *stored) && steps@ == publication(*p, *stored),
            Err(e) => (e == CacheError::Timeout && deadline.may_be_used_up()) || (e
                == CacheError::CandidateConflict && !publishable(*p, *stored)),
        },
        deadline.heeds_clock(r == Err::<Vec<PublishStep>, CacheError>(
            CacheError::Timeout,
        )),
{
    ensure_time(deadline)?;
    let mut steps: Vec<PublishStep> = Vec::new();
    match &stored.compatibility {
        Some(row) => {
            // The times of publication belong to the store. The fingerprints are exact
            // content: they must agree even where the derived identity does.
            if !same_bytes(row.language_fingerprint.as_slice(), p.language_fingerprint.as_slice())
                || !same_bytes(
                row.package_fingerprint.as_slice(),
                p.package_fingerprint.as_slice(),
            ) {
                return Err(CacheError::CandidateConflict);
            }
        },
        None => steps.push(PublishStep::InsertCompatibility),
    }
    let ghost opening = steps@;
    let created_at: i64 = match &stored.candidate {
        Some(row) => {
            if !same_bytes(row.compatibility_id.as_slice(), p.compatibility_id.as_slice())
                || !same_bytes(row.input_digest.as_slice(), p.input_digest.as_slice())
                || row.completeness != p.completeness || row.inventory_file_count
                != p.inventory_file_count || row.inventory_total_bytes != p.inventory_total_bytes {
                return Err(CacheError::CandidateConflict);
            }
            let mut fills = verify_existing_candidate(p, stored, deadline)?;
            steps.append(&mut fills);
            row.created_at_ns
        },
        None => {
            steps.push(PublishStep::InsertCandidate);
            let mut i: usize = 0;
            while i < p.omissions.len()
                invariant
                    i <= p.omissions.len(),
                    steps@ == opening + seq![PublishStep::InsertCandidate] + omission_steps(
                        i as nat,
                    ),
                decreases p.omissions.len() - i,
            {
                ensure_time(deadline)?;
                steps.push(PublishStep::InsertOmission { index: i });
                i += 1;
                assert(steps@ =~= opening + seq![PublishStep::InsertCandidate] + omission_steps(
                    i as nat,
                ));
            }
            let ghost before = steps@;
            let mut k: usize = 0;
            while k < p.files.len()
                invariant
                    k <= p.files.len(),
                    steps@ == before + file_steps(k as nat),
                decreases p.files.len() - k,
            {
                ensure_time(deadline)?;
                steps.push(PublishStep::InsertFile { index: k });
                k += 1;
                assert(steps@ =~= before + file_steps(k as nat));
            }
            p.created_at
        },
    };
    assert(steps@ =~= content_steps(*p, *stored));
    let ghost content = steps@;
    let mut k: usize = 0;
    while k < p.graphs.len()
        invariant
            k <= p.graphs.len(),
            created_at == candidate_time(*p, *stored),
            compatibility_agrees(*p, *stored),
            stored.candidate matches Some(row) ==> header_agrees(*p, row) && contents_agree(
                *p,
                *stored,
            ),
            content == content_steps(*p, *stored),
            forall|j: int| 0 <= j < k ==> graph_agrees(*stored, #[trigger] p.graphs@[j]),
            steps@ == content + graph_steps(*stored, p.graphs@, created_at, k as int),
        decreases p.graphs.len() - k,
    {
        ensure_time(deadline)?;
        match find_graph(&stored.graphs, p.graphs[k].tier) {
            Some(at) => {
                if !same_bytes(stored.graphs[at].blob.as_slice(), p.graphs[k].blob.as_slice()) {
                    assert(!graph_agrees(*stored, p.graphs@[k as int]));
                    return Err(CacheError::CandidateConflict);
                }
            },
            None => steps.push(PublishStep::InsertGraph { index: k, created_at }),
        }
        // This comes last: a write that failed before cannot change what is shown.
        steps.push(PublishStep::Activate { index: k });
        k += 1;
        assert(steps@ =~= content + graph_steps(*stored, p.graphs@, created_at, k as int));
    }
    ensure_time(deadline)?;
    Ok(steps)
}

/// What each slot shows: the identity of a candidate, by tier and completeness.
pub open spec fn shown_after(
    shown: Map<(ResolverCacheTier, i64), Seq<u8>>,
    p: PreparedCandidate,
    steps: Seq<PublishStep>,
) -> Map<(ResolverCacheTier, i64), Seq<u8>>
    decreases steps.len(),
{
    if steps.len() == 0 {
        shown
    } else {
        let before = shown_after(shown, p, steps.drop_last());
        match steps.last() {
            PublishStep::Activate { index } => before.insert(
                (p.graphs@[index as int].tier, p.completeness),
                p.candidate_id@,
            ),
            _ => before,
        }
    }
}

/// The candidate has a graph of the tier.
pub open spec fn publishes_tier(graphs: Seq<PreparedGraph>, n: int, tier: ResolverCacheTier) -> bool {
    exists|i: int| 0 <= i < n && (#[trigger] graphs[i]).tier == tier
}

proof fn lemma_shown_concat(
    shown: Map<(ResolverCacheTier, i64), Seq<u8>>,
    p: PreparedCandidate,
    a: Seq<PublishStep>,
    b: Seq<PublishStep>,
)
    ensures
        shown_after(shown, p, a + b) == shown_after(shown_after(shown, p, a), p, b),
    decreases b.len(),
{
    if b.len() == 0 {
        assert(a + b =~= a);
    } else {
        assert((a + b).drop_last() =~= a + b.drop_last());
        assert((a + b).last() == b.last());
        lemma_shown_concat(shown, p, a, b.drop_last());
    }
}

proof fn lemma_nothing_shown(
    shown: Map<(ResolverCacheTier, i64), Seq<u8>>,
    p: PreparedCandidate,
    steps: Seq<PublishStep>,
)
    requires
        forall|i: int| 0 <= i < steps.len() ==> !(#[trigger] steps[i] is Activate),
    ensures
        shown_after(shown, p, steps) == shown,
    decreases steps.len(),
{
    if steps.len() > 0 {
        assert(!(steps[steps.len() - 1] is Activate));
        assert forall|i: int| 0 <= i < steps.drop_last().len() implies !(
        #[trigger] steps.drop_last()[i] is Activate) by {
            assert(!(steps[i] is Activate));
        }
        lemma_nothing_shown(shown, p, steps.drop_last());
    }
}

proof fn lemma_fills_show_nothing(rows: Seq<CandidateFileRow>, files: Seq<PreparedFile>, n: int)
    ensures
        forall|i: int|
            0 <= i < fill_steps(rows, files, n).len() ==> (#[trigger] fill_steps(
                rows,
                files,
                n,
            )[i]) is FillSubgraph,
    decreases n,
{
    if n > 0 {
        lemma_fills_show_nothing(rows, files, n - 1);
    }
}

proof fn lemma_graphs_shown(
    shown: Map<(ResolverCacheTier, i64), Seq<u8>>,
    p: PreparedCandidate,
    stored: StoredCandidate,
    created_at: i64,
    n: int,
    tier: ResolverCacheTier,
    completeness: i64,
)
    requires
        0 <= n <= p.graphs@.len() <= usize::MAX,
    ensures
        ({
            let after = shown_after(shown, p, graph_steps(stored, p.graphs@, created_at, n));
            let slot = (tier, completeness);
            if completeness == p.completeness && publishes_tier(p.graphs@, n, tier) {
                after.contains_key(slot) && after[slot] == p.candidate_id@
            } else {
                after.contains_key(slot) == shown.contains_key(slot) && (shown.contains_key(slot)
                    ==> after[slot] == shown[slot])
            }
        }),
    decreases n,
{
    if n > 0 {
        lemma_graphs_shown(shown, p, stored, created_at, n - 1, tier, completeness);
        let head = graph_steps(stored, p.graphs@, created_at, n - 1);
        let graph = p.graphs@[n - 1];
        let index = (n - 1) as usize;
        let activate = PublishStep::Activate { index };
        let tail = if stored_graph(stored.graphs@, graph.tier) is None {
            seq![PublishStep::InsertGraph { index, created_at }, activate]
        } else {
            seq![activate]
        };
        assert(graph_steps(stored, p.graphs@, created_at, n) == head + tail);
        lemma_shown_concat(shown, p, head, tail);
        let middle = shown_after(shown, p, head);
        assert(tail.last() == activate);
        reveal_with_fuel(shown_after, 3);
        if stored_graph(stored.graphs@, graph.tier) is None {
            assert(tail.drop_last().last() == PublishStep::InsertGraph { index, created_at });
            assert(tail.drop_last().drop_last().len() == 0);
        } else {
            assert(tail.drop_last().len() == 0);
        }
        assert(shown_after(middle, p, tail) == middle.insert(
            (graph.tier, p.completeness),
            p.candidate_id@,
        ));
        if publishes_tier(p.graphs@, n - 1, tier) {
            assert(publishes_tier(p.graphs@, n, tier));
        }
        if graph.tier == tier {
            assert(p.graphs@[n - 1].tier == tier);
            assert(publishes_tier(p.graphs@, n, tier));
        }
        if publishes_tier(p.graphs@, n, tier) && graph.tier != tier {
            let i = choose|i: int| 0 <= i < n && (#[trigger] p.graphs@[i]).tier == tier;
            assert(publishes_tier(p.graphs@, n - 1, tier));
        }
    } else {
        assert(!publishes_tier(p.graphs@, n, tier));
    }
}

/// A publication shows the candidate in the slots of its own completeness and of the
/// tiers that it brings, and leaves every other slot as it was: a partial candidate
/// never takes the place of a complete one.
pub proof fn publication_keeps_other_slots(
    shown: Map<(ResolverCacheTier, i64), Seq<u8>>,
    p: PreparedCandidate,
    stored: StoredCandidate,
    tier: ResolverCacheTier,
    completeness: i64,
)
    requires
        p.graphs@.len() <= usize::MAX,
    ensures
        ({
            let after = shown_after(shown, p, publication(p, stored));
            let slot = (tier, completeness);
            if completeness == p.completeness && publishes_tier(
                p.graphs@,
                p.graphs@.len() as int,
                tier,
            ) {
                after.contains_key(slot) && after[slot] == p.candidate_id@
            } else {
                after.contains_key(slot) == shown.contains_key(slot) && (shown.contains_key(slot)
                    ==> after[slot] == shown[slot])
            }
        }),
{
    let content = content_steps(p, stored);
    let graphs = graph_steps(
        stored,
        p.graphs@,
        candidate_time(p, stored),
        p.graphs@.len() as int,
    );
    lemma_fills_show_nothing(stored.files@, p.files@, p.files@.len() as int);
    assert forall|i: int| 0 <= i < content.len() implies !(#[trigger] content[i] is Activate) by {
        let opening: Seq<PublishStep> = if stored.compatibility is None {
            seq![PublishStep::InsertCompatibility]
        } else {
            Seq::empty()
        };
        if i >= opening.len() && stored.candidate is Some {
            let fills = fill_steps(stored.files@, p.files@, p.files@.len() as int);
            assert(content[i] == fills[i - opening.len()]);
        }
    }
    lemma_nothing_shown(shown, p, content);
    lemma_shown_concat(shown, p, content, graphs);
    lemma_graphs_shown(
        shown,
        p,
        stored,
        candidate_time(p, stored),
        p.graphs@.len() as int,
        tier,
        completeness,
    );
}

proof fn lemma_no_fills(rows: Seq<CandidateFileRow>, files: Seq<PreparedFile>, n: int)
    requires
        0 <= n <= files.len(),
        forall|i: int| 0 <= i < files.len() ==> !lacks_subgraph(rows, #[trigger] files[i]),
    ensures
        fill_steps(rows, files, n).len() == 0,
    decreases n,
{
    if n > 0 {
        lemma_no_fills(rows, files, n - 1);
        assert(!lacks_subgraph(rows, files[n - 1]));
    }
}

proof fn lemma_only_activations(
    stored: StoredCandidate,
    graphs: Seq<PreparedGraph>,
    created_at: i64,
    n: int,
)
    requires
        0 <= n <= graphs.len(),
        forall|i: int|
            0 <= i < graphs.len() ==> stored_graph(
                stored.graphs@,
                (#[trigger] graphs[i]).tier,
            ) is Some,
    ensures
        graph_steps(stored, graphs, created_at, n).len() == n,
        forall|i: int|
            0 <= i < n ==> (#[trigger] graph_steps(stored, graphs, created_at, n)[i])
                is Activate,
    decreases n,
{
    if n > 0 {
        lemma_only_activations(stored, graphs, created_at, n - 1);
        assert(stored_graph(stored.graphs@, graphs[n - 1].tier) is Some);
    }
}

/// Publishing what is already stored writes nothing anew: it only shows the
/// candidate again.
pub proof fn republishing_writes_nothing(p: PreparedCandidate, stored: StoredCandidate)
    requires
        publishable(p, stored),
        stored.compatibility is Some,
        stored.candidate is Some,
        forall|i: int|
            0 <= i < p.files@.len() ==> !lacks_subgraph(stored.files@, #[trigger] p.files@[i]),
        forall|i: int|
            0 <= i < p.graphs@.len() ==> stored_graph(
                stored.graphs@,
                (#[trigger] p.graphs@[i]).tier,
            ) is Some,
    ensures
        publication(p, stored).len() == p.graphs@.len(),
        forall|i: int|
            0 <= i < p.graphs@.len() ==> (#[trigger] publication(p, stored)[i]) is Activate,
{
    lemma_no_fills(stored.files@, p.files@, p.files@.len() as int);
    lemma_only_activations(
        stored,
        p.graphs@,
        candidate_time(p, stored),
        p.graphs@.len() as int,
    );
    assert(content_steps(p, stored).len() == 0);
    assert(publication(p, stored) =~= graph_steps(
        stored,
        p.graphs@,
        candidate_time(p, stored),
        p.graphs@.len() as int,
    ));
}

} // verus!
