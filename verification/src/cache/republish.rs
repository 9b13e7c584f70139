//! What publications leave in a store, and what publishing again finds there.

use vstd::prelude::*;
use crate::cache::fingerprint::omission_views;
use crate::cache::load::CandidateFileRow;
use crate::cache::publish::{
    candidate_time, compatibility_agrees, content_steps, contents_agree, file_present, file_steps,
    fill_steps, graph_agrees, graph_steps, header_agrees, lacks_subgraph, omission_steps,
    publication, publishable, republishing_writes_nothing, stored_file, stored_graph, ExistingCandidateRow, ExistingGraphRow, PublishStep, StoredCandidate,
};
use crate::cache::rows::{
    candidate_fault, candidate_stored, path_keys, tier_keys, CandidatePayloads, PreparedCandidate,
    PreparedFile, PreparedGraph,
};
use crate::cache::snapshot::CandidateSnapshot;
use crate::cache::transaction::{
    ends_with, failed_transactions_change_nothing, shown_through, TransactionStage,
};
use crate::cache::types::{CacheError, OmissionView, ResolverCacheTier};
use crate::ordering::{key_lt, key_order_is_total};

verus! {

/// What the row of a file holds.
pub struct FileRowView {
    pub path: Seq<char>,
    pub language: Seq<char>,
    pub content_hash: Seq<u8>,
    pub size_bytes: i64,
    pub mtime_seconds: Option<i64>,
    pub mtime_nanoseconds: Option<i64>,
    pub package_assignment: Seq<char>,
    pub facts: Seq<u8>,
    pub subgraph: Option<Seq<u8>>,
}

/// What the row of a candidate holds.
pub struct HeaderView {
    pub compatibility_id: Seq<u8>,
    pub input_digest: Seq<u8>,
    pub completeness: i64,
    pub inventory_file_count: i64,
    pub inventory_total_bytes: i64,
    pub created_at_ns: i64,
}

/// What a store holds under the identities of a candidate.
pub struct RowsView {
    pub compatibility: Option<(Seq<u8>, Seq<u8>)>,
    pub candidate: Option<HeaderView>,
    pub omissions: Seq<OmissionView>,
    pub files: Seq<FileRowView>,
    pub graphs: Seq<(ResolverCacheTier, Seq<u8>)>,
}

/// The bytes, where there are any.
pub open spec fn bytes_of(bytes: Option<Vec<u8>>) -> Option<Seq<u8>> {
    match bytes {
        Some(b) => Some(b@),
        None => None,
    }
}

/// What a stored row of a file holds.
pub open spec fn file_view(row: CandidateFileRow) -> FileRowView {
    FileRowView {
        path: row.path@,
        language: row.language@,
        content_hash: row.content_hash@,
        size_bytes: row.size_bytes,
        mtime_seconds: row.mtime_seconds,
        mtime_nanoseconds: row.mtime_nanoseconds,
        package_assignment: row.package_assignment@,
        facts: row.file_facts@,
        subgraph: bytes_of(row.file_subgraph),
    }
}

/// What the row of a file will hold.
pub open spec fn prepared_view(file: PreparedFile) -> FileRowView {
    FileRowView {
        path: file.path@,
        language: file.language@,
        content_hash: file.content_hash@,
        size_bytes: file.size_bytes,
        mtime_seconds: file.mtime_seconds,
        mtime_nanoseconds: file.mtime_nanoseconds,
        package_assignment: file.package_assignment@,
        facts: file.facts@,
        subgraph: bytes_of(file.subgraph),
    }
}

/// What the stored row of a candidate holds.
pub open spec fn header_view(row: ExistingCandidateRow) -> HeaderView {
    HeaderView {
        compatibility_id: row.compatibility_id@,
        input_digest: row.input_digest@,
        completeness: row.completeness,
        inventory_file_count: row.inventory_file_count,
        inventory_total_bytes: row.inventory_total_bytes,
        created_at_ns: row.created_at_ns,
    }
}

/// What the row of a candidate will hold.
pub open spec fn prepared_header(p: PreparedCandidate) -> HeaderView {
    HeaderView {
        compatibility_id: p.compatibility_id@,
        input_digest: p.input_digest@,
        completeness: p.completeness,
        inventory_file_count: p.inventory_file_count,
        inventory_total_bytes: p.inventory_total_bytes,
        created_at_ns: p.created_at,
    }
}

/// What the stored rows of files hold.
pub open spec fn file_views(rows: Seq<CandidateFileRow>) -> Seq<FileRowView> {
    rows.map_values(|row: CandidateFileRow| file_view(row))
}

/// What the rows of files will hold.
pub open spec fn prepared_views(files: Seq<PreparedFile>) -> Seq<FileRowView> {
    files.map_values(|file: PreparedFile| prepared_view(file))
}

/// What the stored graphs hold.
pub open spec fn graph_views(rows: Seq<ExistingGraphRow>) -> Seq<(ResolverCacheTier, Seq<u8>)> {
    rows.map_values(|row: ExistingGraphRow| (row.tier, row.blob@))
}

/// What is stored under the identities of a candidate.
pub open spec fn rows_of(stored: StoredCandidate) -> RowsView {
    RowsView {
        compatibility: match stored.compatibility {
            Some(row) => Some((row.language_fingerprint@, row.package_fingerprint@)),
            None => None,
        },
        candidate: match stored.candidate {
            Some(row) => Some(header_view(row)),
            None => None,
        },
        omissions: omission_views(stored.omissions@),
        files: file_views(stored.files@),
        graphs: graph_views(stored.graphs@),
    }
}

/// The row, with the subgraph where it is that of the path and has none.
pub open spec fn filled(row: FileRowView, file: FileRowView) -> FileRowView {
    if row.path == file.path && row.subgraph is None {
        FileRowView { subgraph: file.subgraph, ..row }
    } else {
        row
    }
}

/// What a write makes of the rows.
pub open spec fn after_step(rows: RowsView, p: PreparedCandidate, step: PublishStep) -> RowsView {
    match step {
        PublishStep::InsertCompatibility => RowsView {
            compatibility: Some((p.language_fingerprint@, p.package_fingerprint@)),
            ..rows
        },
        PublishStep::InsertCandidate => RowsView { candidate: Some(prepared_header(p)), ..rows },
        PublishStep::InsertOmission { index } => RowsView {
            omissions: rows.omissions.push(p.omissions@[index as int]@),
            ..rows
        },
        PublishStep::InsertFile { index } => RowsView {
            files: rows.files.push(prepared_view(p.files@[index as int])),
            ..rows
        },
        PublishStep::FillSubgraph { index } => RowsView {
            files: rows.files.map_values(
                |row: FileRowView| filled(row, prepared_view(p.files@[index as int])),
            ),
            ..rows
        },
        PublishStep::InsertGraph { index, created_at: _ } => RowsView {
            graphs: rows.graphs.push(
                (p.graphs@[index as int].tier, p.graphs@[index as int].blob@),
            ),
            ..rows
        },
        PublishStep::Activate { index: _ } => rows,
    }
}

/// What writes make of the rows, one after the other.
pub open spec fn rows_after(rows: RowsView, p: PreparedCandidate, steps: Seq<PublishStep>) -> RowsView
    decreases steps.len(),
{
    if steps.len() == 0 {
        rows
    } else {
        after_step(rows_after(rows, p, steps.drop_last()), p, steps.last())
    }
}

/// The first row of the path.
pub open spec fn first_file(rows: Seq<FileRowView>, path: Seq<char>) -> Option<FileRowView>
    decreases rows.len(),
{
    if rows.len() == 0 {
        None
    } else if rows[0].path == path {
        Some(rows[0])
    } else {
        first_file(rows.skip(1), path)
    }
}

/// The first graph of the tier.
pub open spec fn first_graph(
    rows: Seq<(ResolverCacheTier, Seq<u8>)>,
    tier: ResolverCacheTier,
) -> Option<Seq<u8>>
    decreases rows.len(),
{
    if rows.len() == 0 {
        None
    } else if rows[0].0 == tier {
        Some(rows[0].1)
    } else {
        first_graph(rows.skip(1), tier)
    }
}

/// No two files of the candidate have the same path, and no two graphs the same tier.
pub open spec fn has_own_rows(p: PreparedCandidate) -> bool {
    &&& forall|i: int, j: int|
        0 <= i < j < p.files@.len() ==> (#[trigger] p.files@[i]).path@ != (
        #[trigger] p.files@[j]).path@
    &&& forall|i: int, j: int|
        0 <= i < j < p.graphs@.len() ==> (#[trigger] p.graphs@[i]).tier != (
        #[trigger] p.graphs@[j]).tier
}

/// Rows that belong to a candidate stand in the store only with the row of the
/// candidate itself.
pub open spec fn hangs_together(stored: StoredCandidate) -> bool {
    stored.candidate is None ==> stored.omissions@.len() == 0 && stored.files@.len() == 0
        && stored.graphs@.len() == 0
}

/// The same candidate, prepared at another time.
pub open spec fn same_content(p: PreparedCandidate, q: PreparedCandidate) -> bool {
    &&& p.candidate_id@ == q.candidate_id@
    &&& p.compatibility_id@ == q.compatibility_id@
    &&& p.language_fingerprint@ == q.language_fingerprint@
    &&& p.package_fingerprint@ == q.package_fingerprint@
    &&& p.input_digest@ == q.input_digest@
    &&& p.completeness == q.completeness
    &&& p.inventory_file_count == q.inventory_file_count
    &&& p.inventory_total_bytes == q.inventory_total_bytes
    &&& omission_views(p.omissions@) == omission_views(q.omissions@)
    &&& prepared_views(p.files@) == prepared_views(q.files@)
    &&& p.graphs@.len() == q.graphs@.len()
    &&& forall|i: int|
        0 <= i < p.graphs@.len() ==> (#[trigger] p.graphs@[i]).tier == q.graphs@[i].tier
            && p.graphs@[i].blob@ == q.graphs@[i].blob@
}

proof fn lemma_file_views(rows: Seq<CandidateFileRow>, path: Seq<char>)
    ensures
        first_file(file_views(rows), path) == match stored_file(rows, path) {
            Some(row) => Some(file_view(row)),
            None => None,
        },
    decreases rows.len(),
{
    if rows.len() > 0 {
        assert(file_views(rows)[0] == file_view(rows[0]));
        assert(file_views(rows).skip(1) =~= file_views(rows.skip(1)));
        lemma_file_views(rows.skip(1), path);
    }
}

proof fn lemma_graph_views(rows: Seq<ExistingGraphRow>, tier: ResolverCacheTier)
    ensures
        first_graph(graph_views(rows), tier) == stored_graph(rows, tier),
    decreases rows.len(),
{
    if rows.len() > 0 {
        assert(graph_views(rows)[0] == (rows[0].tier, rows[0].blob@));
        assert(graph_views(rows).skip(1) =~= graph_views(rows.skip(1)));
        lemma_graph_views(rows.skip(1), tier);
    }
}

proof fn lemma_rows_concat(
    rows: RowsView,
    p: PreparedCandidate,
    a: Seq<PublishStep>,
    b: Seq<PublishStep>,
)
    ensures
        rows_after(rows, p, a + b) == rows_after(rows_after(rows, p, a), p, b),
    decreases b.len(),
{
    if b.len() == 0 {
        assert(a + b =~= a);
    } else {
        assert((a + b).drop_last() =~= a + b.drop_last());
        assert((a + b).last() == b.last());
        lemma_rows_concat(rows, p, a, b.drop_last());
    }
}

proof fn lemma_one_step(rows: RowsView, p: PreparedCandidate, step: PublishStep)
    ensures
        rows_after(rows, p, seq![step]) == after_step(rows, p, step),
{
    reveal_with_fuel(rows_after, 2);
    assert(seq![step].drop_last().len() == 0);
    assert(seq![step].last() == step);
}

proof fn lemma_omissions_written(rows: RowsView, p: PreparedCandidate, n: nat)
    requires
        n <= p.omissions@.len() <= usize::MAX,
    ensures
        rows_after(rows, p, omission_steps(n)) == (RowsView {
            omissions: rows.omissions + omission_views(p.omissions@).take(n as int),
            ..rows
        }),
    decreases n,
{
    let views = omission_views(p.omissions@);
    if n == 0 {
        assert(rows.omissions + views.take(0) =~= rows.omissions);
    } else {
        let k = (n - 1) as nat;
        lemma_omissions_written(rows, p, k);
        assert(omission_steps(n).drop_last() =~= omission_steps(k));
        assert(rows.omissions + views.take(n as int) =~= (rows.omissions + views.take(
            k as int,
        )).push(p.omissions@[k as int]@));
    }
}

proof fn lemma_files_written(rows: RowsView, p: PreparedCandidate, n: nat)
    requires
        n <= p.files@.len() <= usize::MAX,
    ensures
        rows_after(rows, p, file_steps(n)) == (RowsView {
            files: rows.files + prepared_views(p.files@).take(n as int),
            ..rows
        }),
    decreases n,
{
    let views = prepared_views(p.files@);
    if n == 0 {
        assert(rows.files + views.take(0) =~= rows.files);
    } else {
        let k = (n - 1) as nat;
        lemma_files_written(rows, p, k);
        assert(file_steps(n).drop_last() =~= file_steps(k));
        assert(rows.files + views.take(n as int) =~= (rows.files + views.take(k as int)).push(
            prepared_view(p.files@[k as int]),
        ));
    }
}

proof fn lemma_first_filled(rows: Seq<FileRowView>, file: FileRowView, path: Seq<char>)
    ensures
        first_file(rows.map_values(|row: FileRowView| filled(row, file)), path) == match first_file(
            rows,
            path,
        ) {
            Some(row) => Some(filled(row, file)),
            None => None,
        },
    decreases rows.len(),
{
    let after = rows.map_values(|row: FileRowView| filled(row, file));
    if rows.len() > 0 {
        assert(after[0] == filled(rows[0], file));
        assert(after.skip(1) =~= rows.skip(1).map_values(|row: FileRowView| filled(row, file)));
        lemma_first_filled(rows.skip(1), file, path);
    }
}

proof fn lemma_first_path(rows: Seq<FileRowView>, path: Seq<char>)
    ensures
        first_file(rows, path) matches Some(row) ==> row.path == path,
    decreases rows.len(),
{
    if rows.len() > 0 {
        lemma_first_path(rows.skip(1), path);
    }
}

proof fn lemma_first_own(rows: Seq<FileRowView>, i: int)
    requires
        0 <= i < rows.len(),
        forall|j: int| 0 <= j < i ==> (#[trigger] rows[j]).path != rows[i].path,
    ensures
        first_file(rows, rows[i].path) == Some(rows[i]),
    decreases i,
{
    if i > 0 {
        assert(rows[0].path != rows[i].path);
        let rest = rows.skip(1);
        assert(rest[i - 1] == rows[i]);
        assert forall|j: int| 0 <= j < i - 1 implies (#[trigger] rest[j]).path
            != rest[i - 1].path by {
            assert(rest[j] == rows[j + 1]);
        }
        lemma_first_own(rest, i - 1);
    }
}

/// The row of a file once its subgraph is filled in.
spec fn row_filled(row: FileRowView, file: FileRowView) -> FileRowView {
    if row.subgraph is None {
        FileRowView { subgraph: file.subgraph, ..row }
    } else {
        row
    }
}

proof fn lemma_fills(rows: RowsView, p: PreparedCandidate, stored: Seq<CandidateFileRow>, n: int)
    requires
        0 <= n <= p.files@.len() <= usize::MAX,
        has_own_rows(p),
        rows.files == file_views(stored),
    ensures
        ({
            let after = rows_after(rows, p, fill_steps(stored, p.files@, n));
            &&& after == (RowsView { files: after.files, ..rows })
            &&& after.files.len() == rows.files.len()
            &&& forall|i: int|
                0 <= i < p.files@.len() ==> first_file(
                    after.files,
                    (#[trigger] p.files@[i]).path@,
                ) == match first_file(rows.files, p.files@[i].path@) {
                    None => None,
                    Some(row) => if i < n {
                        Some(row_filled(row, prepared_view(p.files@[i])))
                    } else {
                        Some(row)
                    },
                }
        }),
    decreases n,
{
    if n > 0 {
        lemma_fills(rows, p, stored, n - 1);
        let head = fill_steps(stored, p.files@, n - 1);
        let before = rows_after(rows, p, head);
        let file = p.files@[n - 1];
        let index = (n - 1) as usize;
        let steps = fill_steps(stored, p.files@, n);
        let after = rows_after(rows, p, steps);
        lemma_file_views(stored, file.path@);
        if lacks_subgraph(stored, file) {
            let step = PublishStep::FillSubgraph { index };
            assert(steps == head + seq![step]);
            lemma_rows_concat(rows, p, head, seq![step]);
            lemma_one_step(before, p, step);
            assert forall|i: int| 0 <= i < p.files@.len() implies first_file(
                after.files,
                (#[trigger] p.files@[i]).path@,
            ) == match first_file(rows.files, p.files@[i].path@) {
                None => None,
                Some(row) => if i < n {
                    Some(row_filled(row, prepared_view(p.files@[i])))
                } else {
                    Some(row)
                },
            } by {
                lemma_first_filled(before.files, prepared_view(file), p.files@[i].path@);
                lemma_first_path(before.files, p.files@[i].path@);
                if i < n - 1 {
                    assert(p.files@[i].path@ != p.files@[n - 1].path@);
                } else if i > n - 1 {
                    assert(p.files@[n - 1].path@ != p.files@[i].path@);
                }
            }
        } else {
            assert(steps =~= head);
        }
    }
}

proof fn lemma_first_graph_push(
    rows: Seq<(ResolverCacheTier, Seq<u8>)>,
    x: (ResolverCacheTier, Seq<u8>),
    tier: ResolverCacheTier,
)
    ensures
        first_graph(rows.push(x), tier) == match first_graph(rows, tier) {
            Some(blob) => Some(blob),
            None => if x.0 == tier {
                Some(x.1)
            } else {
                None
            },
        },
    decreases rows.len(),
{
    reveal_with_fuel(first_graph, 2);
    if rows.len() > 0 {
        assert(rows.push(x).skip(1) =~= rows.skip(1).push(x));
        lemma_first_graph_push(rows.skip(1), x, tier);
    }
}

proof fn lemma_graphs_written(
    rows: RowsView,
    p: PreparedCandidate,
    stored: StoredCandidate,
    created_at: i64,
    n: int,
)
    requires
        0 <= n <= p.graphs@.len() <= usize::MAX,
        has_own_rows(p),
        rows.graphs == graph_views(stored.graphs@),
    ensures
        ({
            let after = rows_after(rows, p, graph_steps(stored, p.graphs@, created_at, n));
            &&& after == (RowsView { graphs: after.graphs, ..rows })
            &&& forall|i: int|
                0 <= i < p.graphs@.len() ==> first_graph(
                    after.graphs,
                    (#[trigger] p.graphs@[i]).tier,
                ) == match first_graph(rows.graphs, p.graphs@[i].tier) {
                    Some(blob) => Some(blob),
                    None => if i < n {
                        Some(p.graphs@[i].blob@)
                    } else {
                        None
                    },
                }
        }),
    decreases n,
{
    if n > 0 {
        lemma_graphs_written(rows, p, stored, created_at, n - 1);
        let head = graph_steps(stored, p.graphs@, created_at, n - 1);
        let before = rows_after(rows, p, head);
        let graph = p.graphs@[n - 1];
        let index = (n - 1) as usize;
        let show = PublishStep::Activate { index };
        let steps = graph_steps(stored, p.graphs@, created_at, n);
        let after = rows_after(rows, p, steps);
        lemma_graph_views(stored.graphs@, graph.tier);
        if stored_graph(stored.graphs@, graph.tier) is None {
            let write = PublishStep::InsertGraph { index, created_at };
            let mid = head.push(write);
            assert(steps.drop_last() =~= mid && steps.last() == show);
            assert(mid.drop_last() =~= head && mid.last() == write);
            assert(rows_after(rows, p, mid) == after_step(before, p, write));
            assert(after == after_step(before, p, write));
            assert forall|i: int| 0 <= i < p.graphs@.len() implies first_graph(
                after.graphs,
                (#[trigger] p.graphs@[i]).tier,
            ) == match first_graph(rows.graphs, p.graphs@[i].tier) {
                Some(blob) => Some(blob),
                None => if i < n {
                    Some(p.graphs@[i].blob@)
                } else {
                    None
                },
            } by {
                lemma_first_graph_push(
                    before.graphs,
                    (graph.tier, graph.blob@),
                    p.graphs@[i].tier,
                );
                if i < n - 1 {
                    assert(p.graphs@[i].tier != p.graphs@[n - 1].tier);
                } else if i > n - 1 {
                    assert(p.graphs@[n - 1].tier != p.graphs@[i].tier);
                }
            }
        } else {
            assert(steps.drop_last() =~= head && steps.last() == show);
            assert(after == before);
        }
    }
}

/// The row holds the file: all but the subgraph, and that too where the file has one.
spec fn row_holds(row: FileRowView, file: FileRowView) -> bool {
    &&& row == (FileRowView { subgraph: row.subgraph, ..file })
    &&& file.subgraph is Some ==> row.subgraph == file.subgraph
}

/// The rows hold the candidate but for its graphs.
spec fn content_held(rows: RowsView, p: PreparedCandidate, created_at_ns: i64) -> bool {
    &&& rows.compatibility == Some((p.language_fingerprint@, p.package_fingerprint@))
    &&& rows.candidate == Some(HeaderView { created_at_ns, ..prepared_header(p) })
    &&& rows.omissions == omission_views(p.omissions@)
    &&& rows.files.len() == p.files@.len()
    &&& forall|i: int|
        0 <= i < p.files@.len() ==> (first_file(
            rows.files,
            (#[trigger] p.files@[i]).path@,
        ) matches Some(row) && row_holds(row, prepared_view(p.files@[i])))
}

proof fn lemma_content_held(p: PreparedCandidate, stored: StoredCandidate)
    requires
        has_own_rows(p),
        hangs_together(stored),
        publishable(p, stored),
        p.omissions@.len() <= usize::MAX,
        p.files@.len() <= usize::MAX,
    ensures
        ({
            let after = rows_after(rows_of(stored), p, content_steps(p, stored));
            content_held(after, p, candidate_time(p, stored)) && after.graphs == graph_views(
                stored.graphs@,
            )
        }),
{
    let r0 = rows_of(stored);
    let opening: Seq<PublishStep> = if stored.compatibility is None {
        seq![PublishStep::InsertCompatibility]
    } else {
        Seq::empty()
    };
    let r1 = rows_after(r0, p, opening);
    if stored.compatibility is None {
        lemma_one_step(r0, p, PublishStep::InsertCompatibility);
    }
    assert(r1.compatibility == Some((p.language_fingerprint@, p.package_fingerprint@)));
    let after = rows_after(r0, p, content_steps(p, stored));
    if stored.candidate is Some {
        let fills = fill_steps(stored.files@, p.files@, p.files@.len() as int);
        lemma_rows_concat(r0, p, opening, fills);
        lemma_fills(r1, p, stored.files@, p.files@.len() as int);
        assert forall|i: int| 0 <= i < p.files@.len() implies (first_file(
            after.files,
            (#[trigger] p.files@[i]).path@,
        ) matches Some(row) && row_holds(row, prepared_view(p.files@[i]))) by {
            assert(file_present(stored.files@, p.files@[i]));
            lemma_file_views(stored.files@, p.files@[i].path@);
            lemma_first_path(r1.files, p.files@[i].path@);
        }
    } else {
        let header = seq![PublishStep::InsertCandidate];
        let omissions = omission_steps(p.omissions@.len());
        let files = file_steps(p.files@.len());
        lemma_rows_concat(r0, p, opening, header);
        lemma_one_step(r1, p, PublishStep::InsertCandidate);
        let r2 = rows_after(r1, p, header);
        lemma_rows_concat(r0, p, opening + header, omissions);
        lemma_omissions_written(r2, p, p.omissions@.len());
        let r3 = rows_after(r2, p, omissions);
        lemma_rows_concat(r0, p, opening + header + omissions, files);
        lemma_files_written(r3, p, p.files@.len());
        assert(r0.omissions.len() == 0 && r0.files.len() == 0);
        let views = omission_views(p.omissions@);
        assert(r0.omissions + views.take(p.omissions@.len() as int) =~= views);
        let written = prepared_views(p.files@);
        assert(r0.files + written.take(p.files@.len() as int) =~= written);
        assert forall|i: int| 0 <= i < p.files@.len() implies (first_file(
            after.files,
            (#[trigger] p.files@[i]).path@,
        ) matches Some(row) && row_holds(row, prepared_view(p.files@[i]))) by {
            assert(written[i] == prepared_view(p.files@[i]));
            assert forall|j: int| 0 <= j < i implies (#[trigger] written[j]).path
                != written[i].path by {
                assert(p.files@[j].path@ != p.files@[i].path@);
            }
            lemma_first_own(written, i);
        }
    }
}

proof fn lemma_showing_writes_nothing(rows: RowsView, p: PreparedCandidate, steps: Seq<PublishStep>)
    requires
        forall|i: int| 0 <= i < steps.len() ==> (#[trigger] steps[i]) is Activate,
    ensures
        rows_after(rows, p, steps) == rows,
    decreases steps.len(),
{
    if steps.len() > 0 {
        assert(steps[steps.len() - 1] is Activate);
        assert forall|i: int| 0 <= i < steps.drop_last().len() implies (
        #[trigger] steps.drop_last()[i]) is Activate by {
            assert(steps[i] is Activate);
        }
        lemma_showing_writes_nothing(rows, p, steps.drop_last());
    }
}

/// A candidate that was published can be published again, at any later time: nothing that
/// the first publication left stands in its way, it writes no row, it only shows the
/// candidate again, and the time of the first publication stays.
pub proof fn publishing_again_writes_nothing(
    p: PreparedCandidate,
    stored: StoredCandidate,
    q: PreparedCandidate,
    left: StoredCandidate,
)
    requires
        has_own_rows(p),
        hangs_together(stored),
        publishable(p, stored),
        rows_of(left) == rows_after(rows_of(stored), p, publication(p, stored)),
        same_content(p, q),
    ensures
        publishable(q, left),
        publication(q, left).len() == q.graphs@.len(),
        forall|i: int|
            0 <= i < q.graphs@.len() ==> (#[trigger] publication(q, left)[i]) is Activate,
        rows_after(rows_of(left), q, publication(q, left)) == rows_of(left),
        candidate_time(q, left) == candidate_time(p, stored),
{
    assert(p.omissions.len() <= usize::MAX);
    assert(p.files.len() <= usize::MAX);
    assert(p.graphs.len() <= usize::MAX);
    let content = content_steps(p, stored);
    let created_at = candidate_time(p, stored);
    let graphs = graph_steps(stored, p.graphs@, created_at, p.graphs@.len() as int);
    let middle = rows_after(rows_of(stored), p, content);
    lemma_content_held(p, stored);
    lemma_rows_concat(rows_of(stored), p, content, graphs);
    lemma_graphs_written(middle, p, stored, created_at, p.graphs@.len() as int);
    assert(content_held(rows_of(left), p, created_at));
    assert(q.files@.len() == prepared_views(q.files@).len());
    assert(p.files@.len() == prepared_views(p.files@).len());
    assert(left.files@.len() == file_views(left.files@).len());
    assert forall|i: int| 0 <= i < q.files@.len() implies file_present(
        left.files@,
        #[trigger] q.files@[i],
    ) && !lacks_subgraph(left.files@, q.files@[i]) by {
        assert(prepared_views(q.files@)[i] == prepared_view(q.files@[i]));
        assert(prepared_views(p.files@)[i] == prepared_view(p.files@[i]));
        assert(p.files@[i].path@ == q.files@[i].path@);
        lemma_file_views(left.files@, q.files@[i].path@);
    }
    assert forall|i: int| 0 <= i < q.graphs@.len() implies graph_agrees(
        left,
        #[trigger] q.graphs@[i],
    ) && stored_graph(left.graphs@, q.graphs@[i].tier) is Some by {
        assert(p.graphs@[i].tier == q.graphs@[i].tier);
        lemma_graph_views(left.graphs@, q.graphs@[i].tier);
        lemma_graph_views(stored.graphs@, q.graphs@[i].tier);
        assert(graph_agrees(stored, p.graphs@[i]));
    }
    assert(contents_agree(q, left));
    assert(header_agrees(q, left.candidate->0));
    assert(compatibility_agrees(q, left));
    republishing_writes_nothing(q, left);
    let again = publication(q, left);
    assert forall|i: int| 0 <= i < again.len() implies (#[trigger] again[i]) is Activate by {
        assert(publication(q, left)[i] is Activate);
    }
    lemma_showing_writes_nothing(rows_of(left), q, again);
}

proof fn lemma_own_key(a: Seq<u64>)
    ensures
        !key_lt(a, a),
{
    key_order_is_total(a, a);
}

/// A candidate that can be stored has no two files of one path and no two graphs of one
/// tier.
pub proof fn prepared_candidates_have_own_rows(
    p: PreparedCandidate,
    c: CandidateSnapshot,
    payloads: CandidatePayloads,
)
    requires
        candidate_fault(c, payloads) is None,
        candidate_stored(p, c, payloads),
    ensures
        has_own_rows(p),
{
    let paths = path_keys(c.files@);
    let tiers = tier_keys(c.tier_graphs@);
    assert forall|i: int, j: int| 0 <= i < j < p.files@.len() implies (
    #[trigger] p.files@[i]).path@ != (#[trigger] p.files@[j]).path@ by {
        assert(key_lt(paths[i], paths[j]));
        assert(p.files@[i].path@ == c.files@[i].path@);
        assert(p.files@[j].path@ == c.files@[j].path@);
        lemma_own_key(paths[i]);
    }
    assert forall|i: int, j: int| 0 <= i < j < p.graphs@.len() implies (
    #[trigger] p.graphs@[i]).tier != (#[trigger] p.graphs@[j]).tier by {
        assert(key_lt(tiers[i], tiers[j]));
        assert(p.graphs@[i].tier == c.tier_graphs@[i].0);
        assert(p.graphs@[j].tier == c.tier_graphs@[j].0);
        lemma_own_key(tiers[i]);
    }
}

proof fn lemma_same_fills(
    a: Seq<CandidateFileRow>,
    b: Seq<CandidateFileRow>,
    files: Seq<PreparedFile>,
    n: int,
)
    requires
        0 <= n <= files.len(),
        file_views(a) == file_views(b),
    ensures
        fill_steps(a, files, n) == fill_steps(b, files, n),
    decreases n,
{
    if n > 0 {
        lemma_same_fills(a, b, files, n - 1);
        lemma_file_views(a, files[n - 1].path@);
        lemma_file_views(b, files[n - 1].path@);
        assert(lacks_subgraph(a, files[n - 1]) == lacks_subgraph(b, files[n - 1]));
    }
}

proof fn lemma_same_graph_steps(
    a: StoredCandidate,
    b: StoredCandidate,
    graphs: Seq<PreparedGraph>,
    created_at: i64,
    n: int,
)
    requires
        0 <= n <= graphs.len(),
        graph_views(a.graphs@) == graph_views(b.graphs@),
    ensures
        graph_steps(a, graphs, created_at, n) == graph_steps(b, graphs, created_at, n),
    decreases n,
{
    if n > 0 {
        lemma_same_graph_steps(a, b, graphs, created_at, n - 1);
        lemma_graph_views(a.graphs@, graphs[n - 1].tier);
        lemma_graph_views(b.graphs@, graphs[n - 1].tier);
    }
}

/// What can be published and what it takes follows from what the stored rows hold.
pub proof fn rows_decide_publication(p: PreparedCandidate, a: StoredCandidate, b: StoredCandidate)
    requires
        rows_of(a) == rows_of(b),
    ensures
        publishable(p, a) <==> publishable(p, b),
        publication(p, a) == publication(p, b),
{
    assert(a.files@.len() == file_views(a.files@).len());
    assert(b.files@.len() == file_views(b.files@).len());
    assert forall|file: PreparedFile| #[trigger]
        file_present(a.files@, file) == file_present(b.files@, file) by {
        lemma_file_views(a.files@, file.path@);
        lemma_file_views(b.files@, file.path@);
    }
    assert forall|graph: PreparedGraph| #[trigger]
        graph_agrees(a, graph) == graph_agrees(b, graph) by {
        lemma_graph_views(a.graphs@, graph.tier);
        lemma_graph_views(b.graphs@, graph.tier);
    }
    if a.candidate is Some {
        assert(header_view(a.candidate->0) == header_view(b.candidate->0));
    }
    assert(compatibility_agrees(p, a) == compatibility_agrees(p, b));
    assert(contents_agree(p, a) == contents_agree(p, b));
    lemma_same_fills(a.files@, b.files@, p.files@, p.files@.len() as int);
    lemma_same_graph_steps(a, b, p.graphs@, candidate_time(p, a), p.graphs@.len() as int);
}

/// A publication that fails, wherever it fails, can be repeated: it leaves the rows as
/// they were, so that the candidate can be published as before, and by the same writes.
pub proof fn failed_publications_can_be_repeated(
    p: PreparedCandidate,
    stored: StoredCandidate,
    went: Seq<Option<CacheError>>,
    failure: CacheError,
    left: StoredCandidate,
)
    requires
        publishable(p, stored),
        ends_with(TransactionStage::Open, went, Some(failure)),
        rows_of(left) == shown_through(
            TransactionStage::Open,
            went,
            rows_of(stored),
            rows_after(rows_of(stored), p, publication(p, stored)),
        ),
    ensures
        rows_of(left) == rows_of(stored),
        publishable(p, left),
        publication(p, left) == publication(p, stored),
{
    failed_transactions_change_nothing(
        TransactionStage::Open,
        went,
        failure,
        rows_of(stored),
        rows_after(rows_of(stored), p, publication(p, stored)),
    );
    rows_decide_publication(p, stored, left);
}

} // verus!
