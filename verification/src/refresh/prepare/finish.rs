//! The candidate of an attempt: its omissions, its rows, its identity.

use vstd::prelude::*;
use vstd::string::*;
use vstd::utf8::*;
use crate::cache::fingerprint::{
    blake3_digest, blake3_of, candidate_preimage, input_preimage, omission_views, CandidateId,
    ProjectInputDigest,
};
use crate::cache::snapshot::{
    digest_of_files, file_inputs, file_paths, has_tier, contains_tier, CandidateFileRecord,
    CandidateSnapshot, CompatibilityRecord, LoadedSnapshot,
};
use crate::cache::types::{CacheCompleteness, CacheOmission, OmissionView, ResolverCacheTier};
use crate::config::ResolverTier;
use crate::deadline::{
    failure_of, heeds, is_interruption, may_go_on, Cancellation, Deadline,
};
use crate::error::CliError;
use crate::graph::{CodeGraph, FileFacts, FileSubgraph, SubgraphView};
use crate::inventory::types::{InventoryFile, OmissionImpact, OmittedFile, SourceCandidate};
use crate::ordering::{is_stable_sort, stable_sort};
use crate::package_assignment::records::texts;
use crate::project::path::{rejection, ProjectPath};
use crate::refresh::plan::{latest_candidate, normal_path, CandidateIndex, RefreshPlan};
use crate::refresh::prepare::pipeline::{is_fault, CliFault};
use crate::text::same_text;
use crate::text_map::{strictly_ascending, TextMap};

verus! {

/// The omissions are of one path, for one reason, with one impact.
pub open spec fn same_omission(a: OmittedFile, b: OmittedFile) -> bool {
    a.path@ == b.path@ && a.reason == b.reason && a.impact == b.impact
}

/// The omissions without those that repeat the one before them.
pub open spec fn deduplicated(s: Seq<OmittedFile>) -> Seq<OmittedFile>
    decreases s.len(),
{
    if s.len() == 0 {
        Seq::empty()
    } else {
        let before = deduplicated(s.drop_last());
        if before.len() > 0 && same_omission(before.last(), s.last()) {
            before
        } else {
            before.push(s.last())
        }
    }
}

/// An omission as the cache records it; a detail of the attempt comes before that
/// of the reason.
pub open spec fn cached_omission(o: OmittedFile, details: Map<Seq<char>, String>) -> OmissionView {
    OmissionView {
        path: o.path@,
        reason: o.reason.tag_text(),
        detail: if details.contains_key(o.path@) {
            details[o.path@]@
        } else {
            o.reason.detail_text()
        },
    }
}

/// The omissions of one impact as the cache records them, in their order.
pub open spec fn omissions_with(
    s: Seq<OmittedFile>,
    impact: OmissionImpact,
    details: Map<Seq<char>, String>,
) -> Seq<OmissionView>
    decreases s.len(),
{
    if s.len() == 0 {
        Seq::empty()
    } else {
        let before = omissions_with(s.drop_last(), impact, details);
        if s.last().impact == impact {
            before.push(cached_omission(s.last(), details))
        } else {
            before
        }
    }
}

fn cache_omission(o: &OmittedFile, details: &TextMap<String>) -> (r: CacheOmission)
    ensures
        r@ == cached_omission(*o, details@),
{
    let detail = match details.get(o.path.as_str()) {
        Some(detail) => detail.clone(),
        None => o.reason.detail(),
    };
    CacheOmission { path: o.path.to_text(), reason: o.reason.tag(), detail }
}

fn collect_omissions(
    s: &Vec<OmittedFile>,
    impact: OmissionImpact,
    details: &TextMap<String>,
) -> (r: Vec<CacheOmission>)
    ensures
        omission_views(r@) == omissions_with(s@, impact, details@),
{
    let mut r: Vec<CacheOmission> = Vec::new();
    let mut i: usize = 0;
    assert(s@.take(0) =~= Seq::<OmittedFile>::empty());
    assert(omission_views(r@) =~= Seq::<OmissionView>::empty());
    while i < s.len()
        invariant
            i <= s.len(),
            omission_views(r@) == omissions_with(s@.take(i as int), impact, details@),
        decreases s.len() - i,
    {
        assert(s@.take(i as int + 1).drop_last() =~= s@.take(i as int));
        assert(s@.take(i as int + 1).last() == s@[i as int]);
        if s[i].impact == impact {
            let ghost before = r@;
            r.push(cache_omission(&s[i], details));
            assert(omission_views(r@) =~= omission_views(before).push(
                cached_omission(s@[i as int], details@),
            ));
        }
        i += 1;
    }
    assert(s@.take(s@.len() as int) =~= s@);
    r
}

fn deduplicate(s: Vec<OmittedFile>) -> (r: Vec<OmittedFile>)
    ensures
        r@ == deduplicated(s@),
{
    let mut r: Vec<OmittedFile> = Vec::new();
    let mut i: usize = 0;
    assert(s@.take(0) =~= Seq::<OmittedFile>::empty());
    while i < s.len()
        invariant
            i <= s.len(),
            r@ == deduplicated(s@.take(i as int)),
        decreases s.len() - i,
    {
        assert(s@.take(i as int + 1).drop_last() =~= s@.take(i as int));
        assert(s@.take(i as int + 1).last() == s@[i as int]);
        let repeated = if r.len() > 0 {
            let last = &r[r.len() - 1];
            same_text(last.path.as_str(), s[i].path.as_str()) && last.reason == s[i].reason
                && last.impact == s[i].impact
        } else {
            false
        };
        if !repeated {
            r.push(s[i].copied());
        }
        i += 1;
    }
    assert(s@.take(s@.len() as int) =~= s@);
    r
}

/// The first file of a path.
pub open spec fn first_file(files: Seq<CandidateFileRecord>, path: Seq<char>) -> Option<
    CandidateFileRecord,
>
    decreases files.len(),
{
    if files.len() == 0 {
        None
    } else if files[0].path@ == path {
        Some(files[0])
    } else {
        first_file(files.drop_first(), path)
    }
}

/// The digest of a file's content: of the bytes that were read, or else the one
/// that its reused facts were recorded with.
pub open spec fn content_hash_of(
    path: Seq<char>,
    files: Map<Seq<char>, InventoryFile>,
    prior: Option<&LoadedSnapshot>,
) -> Option<Seq<u8>> {
    if files.contains_key(path) {
        Some(blake3_of(files[path].bytes@))
    } else {
        match prior {
            Some(p) => match first_file(p.files@, path) {
                Some(f) => Some(f.content_hash@),
                None => None,
            },
            None => None,
        }
    }
}

fn find_content_hash(
    path: &str,
    files: &TextMap<InventoryFile>,
    prior: Option<&LoadedSnapshot>,
) -> (r: Option<[u8; 32]>)
    ensures
        match r {
            Some(h) => content_hash_of(path@, files@, prior) == Some(h@),
            None => content_hash_of(path@, files@, prior) is None,
        },
{
    match files.get(path) {
        Some(file) => Some(blake3_digest(file.bytes.as_slice())),
        None => match prior {
            None => None,
            Some(p) => {
                let recorded = &p.files;
                let mut i: usize = 0;
                assert(recorded@.skip(0) =~= recorded@);
                while i < recorded.len()
                    invariant
                        i <= recorded.len(),
                        recorded@ == p.files@,
                        prior == Some(p),
                        !files@.contains_key(path@),
                        first_file(recorded@, path@) == first_file(
                            recorded@.skip(i as int),
                            path@,
                        ),
                    decreases recorded.len() - i,
                {
                    assert(recorded@.skip(i as int)[0] == recorded@[i as int]);
                    assert(recorded@.skip(i as int).drop_first() =~= recorded@.skip(i as int + 1));
                    if same_text(recorded[i].path.as_str(), path) {
                        return Some(recorded[i].content_hash);
                    }
                    i += 1;
                }
                None
            },
        },
    }
}

/// What the rows of a candidate are made of.
pub struct RowSources<'a> {
    pub facts: &'a TextMap<FileFacts>,
    pub files: &'a TextMap<InventoryFile>,
    pub prior: Option<&'a LoadedSnapshot>,
    pub candidates: &'a Vec<SourceCandidate>,
    pub assignments: &'a TextMap<String>,
}

/// Why the row of a path cannot be made, if it cannot.
pub open spec fn row_fault(s: RowSources<'_>, path: Seq<char>) -> Option<CliFault> {
    match latest_candidate(s.candidates@, path) {
        None => Some(CliFault::Index("facts lack current metadata"@)),
        Some(c) => if content_hash_of(path, s.files@, s.prior) is None {
            Some(CliFault::Cache("reused facts lack prior hash"@))
        } else if c.language is None {
            Some(CliFault::Index("admitted facts have no language"@))
        } else if !s.assignments@.contains_key(path) {
            Some(CliFault::Index("source lacks package assignment"@))
        } else {
            None
        },
    }
}

/// The row of a path.
pub open spec fn is_row(s: RowSources<'_>, path: Seq<char>, row: CandidateFileRecord) -> bool {
    let c = latest_candidate(s.candidates@, path)->0;
    &&& row.path@ == path
    &&& row.language@ == c.language->0.tag()
    &&& Some(row.content_hash@) == content_hash_of(path, s.files@, s.prior)
    &&& row.size_bytes == c.size_bytes
    &&& row.mtime == c.mtime
    &&& row.package_assignment@ == s.assignments@[path]@
    &&& row.facts@ == s.facts@[path]@
    &&& row.subgraph is None
}

/// Every row before position `i` can be made.
pub open spec fn rows_ok(s: RowSources<'_>, i: int) -> bool {
    forall|j: int| 0 <= j < i ==> row_fault(s, #[trigger] s.facts.keys()[j]) is None
}

/// The first row that cannot be made decides the failure.
pub open spec fn is_first_row_fault(s: RowSources<'_>, e: CliError) -> bool {
    exists|i: int|
        0 <= i < s.facts.keys().len() && rows_ok(s, i) && row_fault(
            s,
            #[trigger] s.facts.keys()[i],
        ) is Some && is_fault(e, row_fault(s, s.facts.keys()[i])->0)
}

/// The rows are those of the paths that have facts, in the order of the paths.
pub open spec fn are_rows(s: RowSources<'_>, rows: Seq<CandidateFileRecord>) -> bool {
    &&& rows.len() == s.facts.keys().len()
    &&& forall|i: int| 0 <= i < rows.len() ==> is_row(s, s.facts.keys()[i], #[trigger] rows[i])
}

fn make_row(
    s: &RowSources<'_>,
    index: &CandidateIndex,
    path: &String,
    facts: &FileFacts,
) -> (r: Result<CandidateFileRecord, CliError>)
    requires
        index.wf(),
        index@ == s.candidates@,
        s.facts@.contains_key(path@),
        s.facts@[path@] == *facts,
    ensures
        match r {
            Ok(row) => row_fault(*s, path@) is None && is_row(*s, path@, row),
            Err(e) => row_fault(*s, path@) is Some && is_fault(e, row_fault(*s, path@)->0),
        },
{
    let candidate = match index.find(s.candidates, path.as_str()) {
        Some(candidate) => candidate,
        None => {
            return Err(CliError::Index("facts lack current metadata".to_owned()));
        },
    };
    let content_hash = match find_content_hash(path.as_str(), s.files, s.prior) {
        Some(hash) => hash,
        None => {
            return Err(CliError::Cache("reused facts lack prior hash".to_owned()));
        },
    };
    let language = match candidate.language {
        Some(language) => language,
        None => {
            return Err(CliError::Index("admitted facts have no language".to_owned()));
        },
    };
    let package_assignment = match s.assignments.get(path.as_str()) {
        Some(identity) => identity.clone(),
        None => {
            return Err(CliError::Index("source lacks package assignment".to_owned()));
        },
    };
    Ok(
        CandidateFileRecord {
            path: path.clone(),
            language: language.as_str().to_owned(),
            content_hash,
            size_bytes: candidate.size_bytes,
            mtime: candidate.mtime,
            package_assignment,
            facts: facts.copied(),
            subgraph: None,
        },
    )
}

/// Makes the rows of all paths that have facts, in the order of the paths.
pub fn make_rows<C: Cancellation + ?Sized>(
    s: &RowSources<'_>,
    deadline: &Deadline,
    cancellation: &C,
) -> (r: Result<Vec<CandidateFileRecord>, CliError>)
    ensures
        match r {
            Ok(rows) => rows_ok(*s, s.facts.keys().len() as int) && are_rows(*s, rows@)
                && strictly_ascending(file_paths(rows@)),
            Err(e) => is_interruption(e, *deadline, cancellation) || (!rows_ok(
                *s,
                s.facts.keys().len() as int,
            ) && is_first_row_fault(*s, e)),
        },
        s.facts.keys().len() > 0 ==> heeds(*deadline, cancellation, failure_of(r)),
{
    let index = CandidateIndex::new(s.candidates);
    let mut rows: Vec<CandidateFileRecord> = Vec::new();
    let mut i: usize = 0;
    let n = s.facts.len();
    while i < n
        invariant
            i <= n,
            n == s.facts.keys().len(),
            s.facts.indexed(),
            index.wf(),
            index@ == s.candidates@,
            rows@.len() == i,
            rows_ok(*s, i as int),
            forall|j: int| 0 <= j < i ==> is_row(*s, s.facts.keys()[j], #[trigger] rows@[j]),
            i > 0 ==> may_go_on(*deadline, cancellation),
        decreases n - i,
    {
        match deadline.check(cancellation) {
            Ok(()) => {},
            Err(e) => {
                return Err(e);
            },
        }
        let path = s.facts.key_at(i);
        let facts = s.facts.value_at(i);
        assert(s.facts@.contains_key(s.facts.keys()[i as int]));
        match make_row(s, &index, path, facts) {
            Ok(row) => rows.push(row),
            Err(e) => {
                assert(row_fault(*s, s.facts.keys()[i as int]) is Some);
                assert(is_first_row_fault(*s, e));
                return Err(e);
            },
        }
        i += 1;
    }
    proof {
        assert(file_paths(rows@) =~= s.facts.keys()) by {
            assert forall|j: int| 0 <= j < rows@.len() implies file_paths(rows@)[j]
                == #[trigger] s.facts.keys()[j] by {
                assert(is_row(*s, s.facts.keys()[j], rows@[j]));
            }
        }
    }
    Ok(rows)
}

/// The paths of a map of flags, as texts in ascending order.
fn paths_of(flags: &TextMap<bool>) -> (r: Vec<String>)
    ensures
        texts(r@) == flags.keys(),
        strictly_ascending(texts(r@)),
        forall|p: Seq<char>| #[trigger] texts(r@).contains(p) <==> flags@.contains_key(p),
{
    let mut r: Vec<String> = Vec::new();
    let n = flags.len();
    let mut i: usize = 0;
    while i < n
        invariant
            i <= n,
            n == flags.keys().len(),
            flags.indexed(),
            texts(r@) == flags.keys().take(i as int),
        decreases n - i,
    {
        let ghost before = r@;
        r.push(flags.key_at(i).clone());
        assert(texts(r@) =~= texts(before).push(flags.keys()[i as int]));
        assert(flags.keys().take(i as int + 1) =~= flags.keys().take(i as int).push(
            flags.keys()[i as int],
        ));
        i += 1;
    }
    assert(flags.keys().take(flags.keys().len() as int) =~= flags.keys());
    r
}

/// The path is one of the files.
pub open spec fn names_file(files: Seq<CandidateFileRecord>, path: Seq<char>) -> bool {
    exists|i: int| 0 <= i < files.len() && (#[trigger] files[i]).path@ == path
}

/// The path was recorded and has no facts any more.
pub open spec fn is_deleted(
    prior: Option<&LoadedSnapshot>,
    facts: Map<Seq<char>, FileFacts>,
    path: Seq<char>,
) -> bool {
    prior is Some && names_file(prior->0.files@, path) && !facts.contains_key(path)
}

/// The recorded paths that have no facts any more, each once, in ascending order.
pub fn deleted_paths(prior: Option<&LoadedSnapshot>, facts: &TextMap<FileFacts>) -> (r: Vec<String>)
    ensures
        strictly_ascending(texts(r@)),
        forall|p: Seq<char>| #[trigger] texts(r@).contains(p) <==> is_deleted(prior, facts@, p),
{
    let mut flags: TextMap<bool> = TextMap::new();
    match prior {
        None => {},
        Some(p) => {
            let files = &p.files;
            let mut i: usize = 0;
            while i < files.len()
                invariant
                    i <= files.len(),
                    files@ == p.files@,
                    forall|q: Seq<char>| #[trigger]
                        flags@.contains_key(q) <==> names_file(files@.take(i as int), q)
                            && !facts@.contains_key(q),
                decreases files.len() - i,
            {
                let ghost before = flags@;
                let path = files[i].path.as_str();
                let kept = match facts.get(path) {
                    Some(_) => true,
                    None => false,
                };
                if !kept {
                    flags.insert(files[i].path.clone(), true);
                }
                proof {
                    let then = files@.take(i as int);
                    let now = files@.take(i as int + 1);
                    assert forall|q: Seq<char>| #[trigger] flags@.contains_key(q) <==> names_file(
                        now,
                        q,
                    ) && !facts@.contains_key(q) by {
                        assert(before.contains_key(q) <==> names_file(then, q)
                            && !facts@.contains_key(q));
                        if names_file(then, q) {
                            let k = choose|k: int|
                                0 <= k < then.len() && (#[trigger] then[k]).path@ == q;
                            assert(now[k].path@ == q);
                        }
                        if q == path@ {
                            assert(now[i as int].path@ == q);
                        }
                        if names_file(now, q) {
                            let k = choose|k: int|
                                0 <= k < now.len() && (#[trigger] now[k]).path@ == q;
                            if k < i {
                                assert(then[k].path@ == q);
                            }
                        }
                    }
                }
                i += 1;
            }
            assert(files@.take(files@.len() as int) =~= files@);
        },
    }
    let r = paths_of(&flags);
    proof {
        assert forall|q: Seq<char>| #[trigger] texts(r@).contains(q) <==> is_deleted(
            prior,
            facts@,
            q,
        ) by {
            assert(texts(r@).contains(q) <==> flags@.contains_key(q));
        }
    }
    r
}

/// The subgraphs of the files that have one, by path.
pub struct OwnedSubgraph {
    pub path: String,
    pub subgraph: FileSubgraph,
}

/// What an incremental resolution needs to know of the snapshot before.
pub struct PriorScopeState {
    pub candidate_id: CandidateId,
    pub file_paths: Vec<String>,
    pub subgraphs: Vec<OwnedSubgraph>,
}

/// The path and the subgraph of each file that has one.
pub open spec fn subgraph_views(files: Seq<CandidateFileRecord>) -> Seq<(Seq<char>, SubgraphView)>
    decreases files.len(),
{
    if files.len() == 0 {
        Seq::empty()
    } else {
        let before = subgraph_views(files.drop_last());
        match files.last().subgraph {
            Some(g) => before.push((files.last().path@, g@)),
            None => before,
        }
    }
}

/// The path and the content of each subgraph.
pub open spec fn owned_views(s: Seq<OwnedSubgraph>) -> Seq<(Seq<char>, SubgraphView)> {
    s.map_values(|x: OwnedSubgraph| (x.path@, x.subgraph@))
}

/// The scope state of a snapshot, where it has a scope graph.
pub open spec fn is_scope_state(snapshot: LoadedSnapshot, r: Option<PriorScopeState>) -> bool {
    match r {
        None => !has_tier(snapshot.tier_graphs@, ResolverCacheTier::Scope),
        Some(state) => {
            &&& has_tier(snapshot.tier_graphs@, ResolverCacheTier::Scope)
            &&& state.candidate_id == snapshot.candidate_id
            &&& texts(state.file_paths@) == file_paths(snapshot.files@)
            &&& owned_views(state.subgraphs@) == subgraph_views(snapshot.files@)
        },
    }
}

/// The scope state of a snapshot, where it has a scope graph.
pub fn scope_state(snapshot: &LoadedSnapshot) -> (r: Option<PriorScopeState>)
    ensures
        is_scope_state(*snapshot, r),
{
    if !contains_tier(&snapshot.tier_graphs, ResolverCacheTier::Scope) {
        return None;
    }
    let files = &snapshot.files;
    let mut paths: Vec<String> = Vec::new();
    let mut subgraphs: Vec<OwnedSubgraph> = Vec::new();
    let mut i: usize = 0;
    proof {
        assert(files@.take(0) =~= Seq::<CandidateFileRecord>::empty());
        assert(texts(paths@) =~= file_paths(files@.take(0)));
        assert(owned_views(subgraphs@) =~= subgraph_views(files@.take(0)));
    }
    while i < files.len()
        invariant
            i <= files.len(),
            texts(paths@) == file_paths(files@.take(i as int)),
            owned_views(subgraphs@) == subgraph_views(files@.take(i as int)),
        decreases files.len() - i,
    {
        let ghost now = files@.take(i as int + 1);
        let ghost before_paths = paths@;
        let ghost before_graphs = subgraphs@;
        assert(now.drop_last() =~= files@.take(i as int));
        assert(now.last() == files@[i as int]);
        paths.push(files[i].path.clone());
        match &files[i].subgraph {
            Some(g) => {
                subgraphs.push(
                    OwnedSubgraph { path: files[i].path.clone(), subgraph: g.copied() },
                );
                assert(owned_views(subgraphs@) =~= owned_views(before_graphs).push(
                    (files@[i as int].path@, g@),
                ));
            },
            None => {},
        }
        assert(texts(paths@) =~= texts(before_paths).push(files@[i as int].path@));
        assert(file_paths(now) =~= file_paths(files@.take(i as int)).push(files@[i as int].path@));
        i += 1;
    }
    assert(files@.take(files@.len() as int) =~= files@);
    Some(PriorScopeState { candidate_id: snapshot.candidate_id, file_paths: paths, subgraphs })
}

/// A candidate before its graph is resolved.
pub struct AssembledCandidate {
    pub candidate_id: CandidateId,
    pub input_digest: ProjectInputDigest,
    pub completeness: CacheCompleteness,
    pub omissions: Vec<CacheOmission>,
    pub ignored_omissions: Vec<CacheOmission>,
    pub rows: Vec<CandidateFileRecord>,
    pub tier: ResolverCacheTier,
    pub prior_scope: Option<PriorScopeState>,
    pub changed_paths: Vec<String>,
    pub deleted_paths: Vec<String>,
}

/// What the omissions of a candidate are made of.
pub struct OmissionSources {
    pub discovered: Vec<OmittedFile>,
    pub extra: Vec<OmittedFile>,
    pub details: TextMap<String>,
}

/// The recorded and the ignored omissions follow from all that was left out: sorted
/// by path and reason, without repetitions, told apart by impact.
pub open spec fn are_omissions(
    all: Seq<OmittedFile>,
    details: Map<Seq<char>, String>,
    recorded: Seq<OmissionView>,
    ignored: Seq<OmissionView>,
) -> bool {
    exists|sorted: Seq<OmittedFile>|
        {
            &&& #[trigger] is_stable_sort(all, sorted)
            &&& recorded == omissions_with(
                deduplicated(sorted),
                OmissionImpact::IncompleteSourceSet,
                details,
            )
            &&& ignored == omissions_with(
                deduplicated(sorted),
                OmissionImpact::IgnoredNonSource,
                details,
            )
        }
}

/// The completeness and the identity of a candidate follow from its rows and
/// omissions.
pub open spec fn identity_ok(a: AssembledCandidate, compatibility: CompatibilityRecord) -> bool {
    &&& a.input_digest.bytes@ == blake3_of(input_preimage(file_inputs(a.rows@)))
    &&& a.completeness == CacheCompleteness::Complete <==> a.omissions@.len() == 0
    &&& a.candidate_id.bytes@ == blake3_of(
        candidate_preimage(
            compatibility.id.bytes@,
            a.input_digest.bytes@,
            a.completeness,
            omission_views(a.omissions@),
        ),
    )
}

/// What an assembled candidate holds.
pub open spec fn is_assembled(
    a: AssembledCandidate,
    rows: RowSources<'_>,
    changed: TextMap<bool>,
    omitted: OmissionSources,
    compatibility: CompatibilityRecord,
    requested_prior: Option<&LoadedSnapshot>,
    tier: ResolverTier,
) -> bool {
    &&& are_rows(rows, a.rows@)
    &&& strictly_ascending(file_paths(a.rows@))
    &&& are_omissions(
        omitted.discovered@ + omitted.extra@,
        omitted.details@,
        omission_views(a.omissions@),
        omission_views(a.ignored_omissions@),
    )
    &&& identity_ok(a, compatibility)
    &&& a.tier == tier.cached()
    &&& match rows.prior {
        Some(p) => if a.tier == ResolverCacheTier::Scope {
            is_scope_state(*p, a.prior_scope)
        } else {
            a.prior_scope is None
        },
        None => a.prior_scope is None,
    }
    &&& texts(a.changed_paths@) == changed.keys()
    &&& strictly_ascending(texts(a.deleted_paths@))
    &&& forall|p: Seq<char>| #[trigger]
        texts(a.deleted_paths@).contains(p) <==> is_deleted(requested_prior, rows.facts@, p)
}

/// Assembles a candidate from what an attempt gathered. `requested_prior` is the
/// snapshot that the refresh was given, compatible or not: what it recorded and is
/// gone now counts as deleted.
pub fn assemble<C: Cancellation + ?Sized>(
    rows: &RowSources<'_>,
    changed: &TextMap<bool>,
    omitted: OmissionSources,
    compatibility: &CompatibilityRecord,
    requested_prior: Option<&LoadedSnapshot>,
    tier: ResolverTier,
    deadline: &Deadline,
    cancellation: &C,
) -> (r: Result<AssembledCandidate, CliError>)
    ensures
        match r {
            Ok(a) => rows_ok(*rows, rows.facts.keys().len() as int) && is_assembled(
                a,
                *rows,
                *changed,
                omitted,
                *compatibility,
                requested_prior,
                tier,
            ),
            Err(e) => is_interruption(e, *deadline, cancellation) || (!rows_ok(
                *rows,
                rows.facts.keys().len() as int,
            ) && is_first_row_fault(*rows, e)),
        },
        heeds(*deadline, cancellation, failure_of(r)),
{
    match deadline.check(cancellation) {
        Ok(()) => {},
        Err(e) => {
            return Err(e);
        },
    }
    let ghost all = omitted.discovered@ + omitted.extra@;
    let mut discovered = omitted.discovered;
    let mut extra = omitted.extra;
    discovered.append(&mut extra);
    assert(discovered@ =~= all);
    let sorted = stable_sort(discovered);
    let ghost order = sorted@;
    let kept = deduplicate(sorted);
    let details = &omitted.details;
    let ignored_omissions = collect_omissions(&kept, OmissionImpact::IgnoredNonSource, details);
    let omissions = collect_omissions(&kept, OmissionImpact::IncompleteSourceSet, details);
    proof {
        assert(is_stable_sort(all, order));
        assert(are_omissions(
            all,
            omitted.details@,
            omission_views(omissions@),
            omission_views(ignored_omissions@),
        ));
    }
    let made = match make_rows(rows, deadline, cancellation) {
        Ok(made) => made,
        Err(e) => {
            return Err(e);
        },
    };
    let input_digest = digest_of_files(&made);
    let completeness = if omissions.len() == 0 {
        CacheCompleteness::Complete
    } else {
        CacheCompleteness::Partial
    };
    let candidate_id = CandidateId::new(compatibility.id, input_digest, completeness, &omissions);
    let cache_tier = ResolverCacheTier::from(tier);
    let prior_scope = if cache_tier == ResolverCacheTier::Scope {
        match rows.prior {
            Some(p) => scope_state(p),
            None => None,
        }
    } else {
        None
    };
    let deleted = deleted_paths(requested_prior, rows.facts);
    let changed_paths = paths_of(changed);
    Ok(
        AssembledCandidate {
            candidate_id,
            input_digest,
            completeness,
            omissions,
            ignored_omissions,
            rows: made,
            tier: cache_tier,
            prior_scope,
            changed_paths,
            deleted_paths: deleted,
        },
    )
}

/// The sum of the sizes of files, or why it cannot be had.
pub enum TotalBytes {
    Sum(nat),
    BadPath(Seq<u8>),
    Missing,
    Overflow,
}

/// The sum of the current sizes of the files that facts are about.
pub open spec fn total_bytes_of(
    rows: Seq<CandidateFileRecord>,
    candidates: Seq<SourceCandidate>,
) -> TotalBytes
    decreases rows.len(),
{
    if rows.len() == 0 {
        TotalBytes::Sum(0)
    } else {
        match total_bytes_of(rows.drop_last(), candidates) {
            TotalBytes::Sum(total) => {
                let file = rows.last().facts.file@;
                if rejection(encode_utf8(file)) is Some {
                    TotalBytes::BadPath(encode_utf8(file))
                } else {
                    match latest_candidate(candidates, normal_path(file)) {
                        None => TotalBytes::Missing,
                        Some(c) => if total + c.size_bytes > u64::MAX {
                            TotalBytes::Overflow
                        } else {
                            TotalBytes::Sum(total + c.size_bytes as nat)
                        },
                    }
                }
            },
            other => other,
        }
    }
}

proof fn lemma_total_fails_on(
    rows: Seq<CandidateFileRecord>,
    candidates: Seq<SourceCandidate>,
    k: int,
)
    requires
        0 <= k <= rows.len(),
        !(total_bytes_of(rows.take(k), candidates) is Sum),
    ensures
        total_bytes_of(rows, candidates) == total_bytes_of(rows.take(k), candidates),
    decreases rows.len() - k,
{
    if k < rows.len() {
        assert(rows.take(k + 1).drop_last() =~= rows.take(k));
        lemma_total_fails_on(rows, candidates, k + 1);
    } else {
        assert(rows.take(k) =~= rows);
    }
}

/// The failure is why the sum cannot be had.
pub open spec fn is_total_fault(t: TotalBytes, e: CliError) -> bool {
    match t {
        TotalBytes::Sum(_) => false,
        TotalBytes::BadPath(b) => e.is_relative_path(b, rejection(b)->0),
        TotalBytes::Missing => e.is_index("resolved file metadata disappeared"@),
        TotalBytes::Overflow => e.is_index("inventory byte count overflow"@),
    }
}

/// Sums the current sizes of the files that facts are about.
pub fn rows_total_bytes(
    rows: &Vec<CandidateFileRecord>,
    candidates: &Vec<SourceCandidate>,
) -> (r: Result<u64, CliError>)
    ensures
        match r {
            Ok(total) => total_bytes_of(rows@, candidates@) == TotalBytes::Sum(total as nat),
            Err(e) => is_total_fault(total_bytes_of(rows@, candidates@), e),
        },
{
    let index = CandidateIndex::new(candidates);
    let mut total: u64 = 0;
    let mut i: usize = 0;
    assert(rows@.take(0) =~= Seq::<CandidateFileRecord>::empty());
    while i < rows.len()
        invariant
            i <= rows.len(),
            index.wf(),
            index@ == candidates@,
            total_bytes_of(rows@.take(i as int), candidates@) == TotalBytes::Sum(total as nat),
        decreases rows.len() - i,
    {
        let ghost now = rows@.take(i as int + 1);
        proof {
            assert(now.drop_last() =~= rows@.take(i as int));
            assert(now.last() == rows@[i as int]);
        }
        let file = rows[i].facts.file.as_str();
        let path = match ProjectPath::new(file.as_bytes()) {
            Ok(path) => path,
            Err(e) => {
                proof {
                    lemma_total_fails_on(rows@, candidates@, i as int + 1);
                }
                return Err(e);
            },
        };
        proof {
            encode_utf8_decode_utf8(path@);
            assert(path@ == normal_path(file@));
        }
        let candidate = match index.find(candidates, path.as_str()) {
            Some(candidate) => candidate,
            None => {
                proof {
                    lemma_total_fails_on(rows@, candidates@, i as int + 1);
                }
                return Err(CliError::Index("resolved file metadata disappeared".to_owned()));
            },
        };
        match total.checked_add(candidate.size_bytes) {
            Some(sum) => {
                total = sum;
            },
            None => {
                proof {
                    lemma_total_fails_on(rows@, candidates@, i as int + 1);
                }
                return Err(CliError::Index("inventory byte count overflow".to_owned()));
            },
        }
        i += 1;
    }
    assert(rows@.take(rows@.len() as int) =~= rows@);
    Ok(total)
}

/// A resolved graph with the subgraphs that each file owns.
pub struct ResolvedCandidate {
    pub graph: CodeGraph,
    pub file_subgraphs: TextMap<Option<FileSubgraph>>,
}

/// A candidate ready for publication, with how it came about.
pub struct PreparedRefreshCandidate {
    pub snapshot: CandidateSnapshot,
    pub plan: RefreshPlan,
    pub changed_paths: Vec<String>,
    pub deleted_paths: Vec<String>,
    pub ignored_omissions: Vec<CacheOmission>,
    pub attempts: u8,
}

/// The subgraph that the resolution gave a path.
pub open spec fn resolved_subgraph(
    subgraphs: Map<Seq<char>, Option<FileSubgraph>>,
    path: Seq<char>,
) -> Option<SubgraphView> {
    if subgraphs.contains_key(path) {
        match subgraphs[path] {
            Some(g) => Some(g@),
            None => None,
        }
    } else {
        None
    }
}

/// The content of an optional subgraph.
pub open spec fn optional_subgraph(g: Option<FileSubgraph>) -> Option<SubgraphView> {
    match g {
        Some(x) => Some(x@),
        None => None,
    }
}

/// The file is the row with the subgraph that the resolution gave it.
pub open spec fn is_resolved_row(
    row: CandidateFileRecord,
    file: CandidateFileRecord,
    subgraphs: Map<Seq<char>, Option<FileSubgraph>>,
) -> bool {
    &&& file.path == row.path
    &&& file.language == row.language
    &&& file.content_hash == row.content_hash
    &&& file.size_bytes == row.size_bytes
    &&& file.mtime == row.mtime
    &&& file.package_assignment == row.package_assignment
    &&& file.facts == row.facts
    &&& optional_subgraph(file.subgraph) == resolved_subgraph(subgraphs, row.path@)
}

fn resolve_rows(
    rows: Vec<CandidateFileRecord>,
    subgraphs: &TextMap<Option<FileSubgraph>>,
) -> (r: Vec<CandidateFileRecord>)
    ensures
        r@.len() == rows@.len(),
        forall|i: int|
            0 <= i < r@.len() ==> is_resolved_row(rows@[i], #[trigger] r@[i], subgraphs@),
{
    let ghost all = rows@;
    let mut rest = rows;
    let mut back: Vec<CandidateFileRecord> = Vec::new();
    while rest.len() > 0
        invariant
            all == rows@,
            rest@.len() + back@.len() == all.len(),
            rest@ == all.take(rest@.len() as int),
            forall|j: int|
                0 <= j < back@.len() ==> is_resolved_row(
                    all[all.len() - 1 - j],
                    #[trigger] back@[j],
                    subgraphs@,
                ),
        decreases rest.len(),
    {
        match rest.pop() {
            None => {},
            Some(row) => {
                let subgraph = match subgraphs.get(row.path.as_str()) {
                    Some(found) => match found {
                        Some(g) => Some(g.copied()),
                        None => None,
                    },
                    None => None,
                };
                back.push(
                    CandidateFileRecord {
                        path: row.path,
                        language: row.language,
                        content_hash: row.content_hash,
                        size_bytes: row.size_bytes,
                        mtime: row.mtime,
                        package_assignment: row.package_assignment,
                        facts: row.facts,
                        subgraph,
                    },
                );
            },
        }
    }
    let r = crate::ordering::reversed(back);
    proof {
        assert forall|i: int| 0 <= i < r@.len() implies is_resolved_row(
            all[i],
            #[trigger] r@[i],
            subgraphs@,
        ) by {
            assert(r@[i] == back@[back@.len() - 1 - i]);
        }
    }
    r
}

/// What a prepared candidate holds.
pub open spec fn is_prepared(
    p: PreparedRefreshCandidate,
    a: AssembledCandidate,
    compatibility: CompatibilityRecord,
    resolved: ResolvedCandidate,
    candidates: Seq<SourceCandidate>,
    prepared_at_ns: u64,
) -> bool {
    let s = p.snapshot;
    &&& s.candidate_id == a.candidate_id
    &&& s.compatibility == compatibility
    &&& s.input_digest == a.input_digest
    &&& s.completeness == a.completeness
    &&& s.omissions == a.omissions
    &&& s.created_at_ns == prepared_at_ns
    &&& s.inventory_file_count == a.rows@.len()
    &&& total_bytes_of(a.rows@, candidates) == TotalBytes::Sum(s.inventory_total_bytes as nat)
    &&& s.files@.len() == a.rows@.len()
    &&& forall|i: int|
        0 <= i < s.files@.len() ==> is_resolved_row(
            a.rows@[i],
            #[trigger] s.files@[i],
            resolved.file_subgraphs@,
        )
    &&& s.tier_graphs@ == seq![(a.tier, resolved.graph)]
    &&& p.changed_paths == a.changed_paths
    &&& p.deleted_paths == a.deleted_paths
    &&& p.ignored_omissions == a.ignored_omissions
}

/// Completes a candidate with its resolved graph.
pub fn finish(
    a: AssembledCandidate,
    plan: RefreshPlan,
    compatibility: CompatibilityRecord,
    resolved: ResolvedCandidate,
    candidates: &Vec<SourceCandidate>,
    prepared_at_ns: u64,
    attempts: u8,
) -> (r: Result<PreparedRefreshCandidate, CliError>)
    ensures
        match r {
            Ok(p) => is_prepared(
                p,
                a,
                compatibility,
                resolved,
                candidates@,
                prepared_at_ns,
            ) && p.plan == plan && p.attempts == attempts,
            Err(e) => is_total_fault(total_bytes_of(a.rows@, candidates@), e),
        },
{
    let total = match rows_total_bytes(&a.rows, candidates) {
        Ok(total) => total,
        Err(e) => {
            return Err(e);
        },
    };
    let count = a.rows.len() as u64;
    let files = resolve_rows(a.rows, &resolved.file_subgraphs);
    let mut tier_graphs: Vec<(ResolverCacheTier, CodeGraph)> = Vec::new();
    tier_graphs.push((a.tier, resolved.graph));
    assert(tier_graphs@ =~= seq![(a.tier, resolved.graph)]);
    Ok(
        PreparedRefreshCandidate {
            snapshot: CandidateSnapshot {
                candidate_id: a.candidate_id,
                compatibility,
                input_digest: a.input_digest,
                completeness: a.completeness,
                omissions: a.omissions,
                created_at_ns: prepared_at_ns,
                inventory_file_count: count,
                inventory_total_bytes: total,
                files,
                tier_graphs,
            },
            plan,
            changed_paths: a.changed_paths,
            deleted_paths: a.deleted_paths,
            ignored_omissions: a.ignored_omissions,
            attempts,
        },
    )
}

} // verus!
