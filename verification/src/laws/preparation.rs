//! Laws of preparation: which files are read, whose facts are reused, and what an extraction
//! changes.

use vstd::prelude::*;
use vstd::string::*;
use crate::cache::snapshot::{
    file_paths, CandidateFileRecord, CompatibilityRecord, LoadedSnapshot,
};
use crate::cache::types::ResolverCacheTier;
use crate::error::CliError;
use crate::graph::{facts_valid, has_duplicate, FileFacts};
use crate::inventory::types::{
    InventoryFile, MaterializedCandidate, OmissionReason, SourceCandidate,
};
use crate::package_assignment::records::texts;
use crate::package_assignment::types::PackageAssignmentSet;
use crate::refresh::plan::{latest_candidate, RefreshDecision, RefreshEntry};
use crate::refresh::prepare::finish::{
    owned_views, scope_state, subgraph_views, PriorScopeState,
};
use crate::refresh::prepare::pipeline::{
    are_applied, extract_count, files_read, is_applied, is_extraction_omitted, is_fact_kept,
    is_outcome_applied, latest_file, planned_extractions, prior_file, reads_drifted, reads_omitted,
    usable_prior, wanted_sources, work_fault, work_ok, Attempt, AttemptState, SourcedAttempt,
};
use crate::refresh::prepare::pool::IndexedOutcome;
use crate::refresh::prepare::recovery::{
    dies_and_is_replaced, finishes, is_recovery, ExtractionOutcome, RecoverableWorker,
};
use crate::refresh::prepare::retry::AttemptError;
use crate::worker::{RequestId, WorkerErrorCode, WorkerFailure};

verus! {

/// A snapshot is started from exactly where its languages and its packages are those of now, and
/// with them its identity.
pub proof fn priors_are_used_only_if_compatible(
    prior: Option<&LoadedSnapshot>,
    c: CompatibilityRecord,
)
    ensures
        usable_prior(prior, c) is Some <==> prior is Some && prior->0.compatibility.id.bytes@
            == c.id.bytes@ && prior->0.compatibility.language_fingerprint.bytes@
            == c.language_fingerprint.bytes@ && prior->0.compatibility.package_fingerprint.bytes@
            == c.package_fingerprint.bytes@,
        usable_prior(prior, c) is Some ==> usable_prior(prior, c) == prior,
{
}

proof fn lemma_latest_file(files: Seq<CandidateFileRecord>, path: Seq<char>)
    ensures
        latest_file(files, path) matches Some(f) ==> f.path@ == path && files.contains(f),
    decreases files.len(),
{
    if files.len() > 0 {
        if files.last().path@ == path {
            assert(files[files.len() - 1] == files.last());
        } else {
            let rest = files.drop_last();
            lemma_latest_file(rest, path);
            if latest_file(rest, path) is Some {
                let f = latest_file(rest, path)->0;
                let k = choose|k: int| 0 <= k < rest.len() && rest[k] == f;
                assert(files[k] == f);
            }
        }
    }
}

/// Facts are reused only from the file that they are about: it is one of the snapshot, of the
/// same path, in the language that the file has now, assigned to the package that it has now,
/// and its facts say so themselves.
pub proof fn reused_facts_are_about_their_file(s: SourcedAttempt<'_>, i: int)
    requires
        work_ok(s, s.attempt.plan.entries@.len() as int),
        0 <= i < s.attempt.plan.entries@.len(),
        s.attempt.plan.entries@[i].decision == RefreshDecision::ReuseFacts,
    ensures
        s.attempt.prior is Some,
        ({
            let path = s.attempt.plan.entries@[i].path@;
            let f = prior_file(s.attempt.prior, path)->0;
            let c = latest_candidate(s.attempt.discovery.candidates@, path);
            &&& s.attempt.prior->0.files@.contains(f)
            &&& f.path@ == path
            &&& f.facts.file@ == path
            &&& f.facts.lang@ == f.language@
            &&& c is Some
            &&& c->0.language is Some
            &&& c->0.language->0.tag() == f.language@
            &&& s.attempt.assignments@.contains_key(path)
            &&& s.attempt.assignments@[path]@ == f.package_assignment@
        }),
{
    assert(work_fault(s, i) is None);
    let path = s.attempt.plan.entries@[i].path@;
    lemma_latest_file(s.attempt.prior->0.files@, path);
}

/// What is extracted was read: an action to extract has the content of its file.
pub proof fn extractions_have_their_sources(s: SourcedAttempt<'_>, i: int)
    requires
        work_ok(s, s.attempt.plan.entries@.len() as int),
        0 <= i < s.attempt.plan.entries@.len(),
        s.attempt.plan.entries@[i].decision == RefreshDecision::Extract,
    ensures
        s.files@.contains_key(s.attempt.plan.entries@[i].path@),
{
    assert(work_fault(s, i) is None);
}

/// The content of a file is read exactly where the plan needs it: to extract the file, or to
/// tell by its hash whether it has changed; once for each such action, in their order.
pub proof fn files_are_read_where_needed(
    entries: Seq<RefreshEntry>,
    candidates: Seq<SourceCandidate>,
    e: RefreshEntry,
)
    ensures
        wanted_sources(entries.push(e), candidates) == (if (e.decision == RefreshDecision::Extract
            || e.decision == RefreshDecision::NeedHash) && latest_candidate(candidates, e.path@)
            is Some {
            wanted_sources(entries, candidates).push(latest_candidate(candidates, e.path@)->0)
        } else {
            wanted_sources(entries, candidates)
        }),
        wanted_sources(Seq::empty(), candidates).len() == 0,
{
    assert(entries.push(e).drop_last() =~= entries);
}

/// A file that changed while it was read makes the whole attempt drift, and nothing else that
/// was read does.
pub proof fn changed_files_are_drift<'a>(
    a: Attempt<'a>,
    reads: Vec<MaterializedCandidate>,
    r: Result<SourcedAttempt<'a>, AttemptError>,
)
    requires
        call_ensures(Attempt::<'a>::absorb_sources, (a, reads), r),
    ensures
        r == Err::<SourcedAttempt<'a>, AttemptError>(AttemptError::Drift) <==> exists|i: int|
            0 <= i < reads@.len() && is_changed(#[trigger] reads@[i]),
        r is Ok || r == Err::<SourcedAttempt<'a>, AttemptError>(AttemptError::Drift),
{
    if reads_drifted(reads@) {
        let i = choose|i: int|
            0 <= i < reads@.len() && crate::refresh::prepare::pipeline::is_drift(
                #[trigger] reads@[i],
            );
        assert(is_changed(reads@[i]));
    }
    if exists|i: int| 0 <= i < reads@.len() && is_changed(#[trigger] reads@[i]) {
        let i = choose|i: int| 0 <= i < reads@.len() && is_changed(#[trigger] reads@[i]);
        assert(crate::refresh::prepare::pipeline::is_drift(reads@[i]));
    }
}

/// The candidate was left out because it changed while it was read.
pub open spec fn is_changed(read: MaterializedCandidate) -> bool {
    match read {
        MaterializedCandidate::Omitted(o) => o.reason == OmissionReason::ChangedDuringRead,
        MaterializedCandidate::File(_) => false,
    }
}

/// Everything that was read is kept, as a file or as an omission: one more of them is one more
/// file under its path, or one more omission.
pub proof fn reads_are_kept(reads: Seq<MaterializedCandidate>, m: MaterializedCandidate)
    ensures
        m matches MaterializedCandidate::File(f) ==> files_read(reads.push(m)) == files_read(
            reads,
        ).insert(f.path@, f) && reads_omitted(reads.push(m)) == reads_omitted(reads),
        m matches MaterializedCandidate::Omitted(o) ==> files_read(reads.push(m)) == files_read(
            reads,
        ) && reads_omitted(reads.push(m)) == reads_omitted(reads).push(o),
        files_read(Seq::empty()) == Map::<Seq<char>, InventoryFile>::empty(),
        reads_omitted(Seq::empty()).len() == 0,
{
    assert(reads.push(m).drop_last() =~= reads);
}

proof fn lemma_extract_count(entries: Seq<RefreshEntry>)
    ensures
        planned_extractions(entries).len() == extract_count(entries),
        extract_count(entries) <= entries.len(),
    decreases entries.len(),
{
    if entries.len() > 0 {
        lemma_extract_count(entries.drop_last());
    }
}

/// Every action to extract is given out, once, under its place in the plan, and nothing else
/// is; the requests are numbered one after another from one on.
pub proof fn extractions_are_numbered_in_plan_order(entries: Seq<RefreshEntry>)
    requires
        entries.len() <= usize::MAX,
        entries.len() <= u64::MAX,
    ensures
        forall|k: int|
            0 <= k < planned_extractions(entries).len() ==> (#[trigger] planned_extractions(
                entries,
            )[k]).request_id == k + 1 && planned_extractions(entries)[k].index < entries.len()
                && entries[planned_extractions(entries)[k].index as int].decision
                == RefreshDecision::Extract,
        forall|i: int|
            0 <= i < entries.len() && (#[trigger] entries[i]).decision == RefreshDecision::Extract
                ==> exists|k: int|
                0 <= k < planned_extractions(entries).len() && (#[trigger] planned_extractions(
                    entries,
                )[k]).index == i,
    decreases entries.len(),
{
    if entries.len() > 0 {
        let rest = entries.drop_last();
        extractions_are_numbered_in_plan_order(rest);
        lemma_extract_count(rest);
        lemma_extract_count(entries);
        let before = planned_extractions(rest);
        let all = planned_extractions(entries);
        assert forall|k: int| 0 <= k < all.len() implies (#[trigger] all[k]).request_id == k + 1
            && all[k].index < entries.len() && entries[all[k].index as int].decision
            == RefreshDecision::Extract by {
            if k < before.len() {
                assert(all[k] == before[k]);
                assert(rest[before[k].index as int] == entries[before[k].index as int]);
            }
        }
        assert forall|i: int|
            0 <= i < entries.len() && (#[trigger] entries[i]).decision
                == RefreshDecision::Extract implies exists|k: int|
            0 <= k < all.len() && (#[trigger] all[k]).index == i by {
            if i < rest.len() {
                assert(rest[i] == entries[i]);
                let k = choose|k: int| 0 <= k < before.len() && (#[trigger] before[k]).index == i;
                assert(all[k].index == i);
            } else {
                assert(all[all.len() - 1].index == i);
            }
        }
    }
}

/// The failure is one of the file alone.
pub open spec fn is_of_the_file(e: CliError) -> bool {
    e == CliError::Worker(WorkerFailure::Remote(WorkerErrorCode::Extraction))
}

/// The outcome of an extraction changes one file and no other. Facts are kept under the path of
/// the file, which then counts as changed, or the file is left out because its extraction
/// failed; and a failure that is not one of the file alone changes nothing.
pub proof fn outcomes_change_one_file(
    packages: PackageAssignmentSet,
    before: AttemptState,
    after: AttemptState,
    index: int,
    outcome: Result<ExtractionOutcome, CliError>,
)
    requires
        is_outcome_applied(packages, before, after, index, outcome),
        0 <= index < before.plan.entries@.len(),
    ensures
        ({
            let path = before.plan.entries@[index].path@;
            let kept = after.facts@.contains_key(path) && after.facts@
                == before.facts@.insert(path, after.facts@[path]) && after.changed@
                == before.changed@.insert(path, true) && after.plan == before.plan
                && after.extra_omissions == before.extra_omissions;
            let left_out = after.facts == before.facts && after.changed == before.changed
                && after.plan.entries@.len() == before.plan.entries@.len()
                && after.plan.entries@[index].decision is Omit
                && after.plan.entries@[index].decision->reason == OmissionReason::ExtractionError
                && after.extra_omissions@.len() == before.extra_omissions@.len() + 1
                && after.extra_omissions@.last().path@ == path
                && after.extra_omissions@.last().reason == OmissionReason::ExtractionError
                && after.omission_details@.contains_key(path);
            &&& outcome matches Ok(ExtractionOutcome::Facts(_)) ==> kept || left_out
            &&& outcome matches Ok(ExtractionOutcome::Omitted { detail }) ==> left_out
                && after.omission_details@[path]@ == detail@
            &&& outcome matches Err(e) ==> (is_of_the_file(e) ==> left_out)
            &&& outcome matches Err(e) ==> (!is_of_the_file(e) ==> after == before)
            &&& forall|j: int|
                0 <= j < before.plan.entries@.len() && j != index ==> #[trigger] after.plan.entries@[j]
                    == before.plan.entries@[j]
        }),
{
}

/// Facts that are kept are valid: no identity is defined in them twice.
pub proof fn kept_facts_define_nothing_twice(
    packages: PackageAssignmentSet,
    before: AttemptState,
    after: AttemptState,
    index: int,
    facts: FileFacts,
    i: int,
    j: int,
)
    requires
        is_outcome_applied(
            packages,
            before,
            after,
            index,
            Ok(ExtractionOutcome::Facts(facts)),
        ),
        0 <= index < before.plan.entries@.len(),
        after.plan == before.plan,
        !(before.plan.entries@[index].decision is Omit),
        after.facts@.contains_key(before.plan.entries@[index].path@),
        0 <= i < j < after.facts@[before.plan.entries@[index].path@].symbols@.len(),
    ensures
        after.facts@[before.plan.entries@[index].path@].symbols@[i].id@
            != after.facts@[before.plan.entries@[index].path@].symbols@[j].id@,
{
    let kept = after.facts@[before.plan.entries@[index].path@];
    let enriched = choose|enriched: FileFacts|
        {
            &&& #[trigger] crate::refresh::prepare::pipeline::is_enriched(
                packages,
                facts,
                enriched,
            )
            &&& facts_valid(enriched.symbols@) ==> is_fact_kept(before, after, index, enriched)
            &&& !facts_valid(enriched.symbols@) ==> exists|detail: Seq<char>|
                crate::refresh::prepare::pipeline::is_validation_detail(enriched, detail)
                    && #[trigger] is_extraction_omitted(before, after, index, detail)
        };
    if !facts_valid(enriched.symbols@) {
        assert(after.plan.entries@[index].decision is Omit);
    }
    assert(kept == enriched);
    assert(!has_duplicate(enriched.symbols@, j));
}

/// A worker is given a file twice at most. Facts are kept only if a worker gave them; and a file
/// is left out for crashing its workers only if two of them died on it.
pub proof fn files_are_given_out_twice_at_most<W: RecoverableWorker>(
    before: W,
    file: &InventoryFile,
    request_id: RequestId,
    after: W,
    r: Result<ExtractionOutcome, CliError>,
)
    requires
        is_recovery(before, file, request_id, after, r),
    ensures
        r matches Ok(ExtractionOutcome::Facts(facts)) ==> W::attempted(
            before,
            file,
            request_id,
            Ok(facts),
            after,
        ) || exists|fresh: W| #[trigger]
            dies_and_is_replaced(before, file, request_id, fresh) && W::attempted(
                fresh,
                file,
                request_id,
                Ok(facts),
                after,
            ),
        finishes(before, file, request_id, after, r) || (r is Err) || exists|fresh: W| #[trigger]
            dies_and_is_replaced(before, file, request_id, fresh) && (finishes(
                fresh,
                file,
                request_id,
                after,
                r,
            ) || dies_and_is_replaced(fresh, file, request_id, after)),
{
}

/// The path is that of none of the first outcomes.
pub open spec fn is_not_extracted(
    entries: Seq<RefreshEntry>,
    outcomes: Seq<IndexedOutcome>,
    n: nat,
    path: Seq<char>,
) -> bool {
    forall|k: int|
        0 <= k < n ==> entries[(#[trigger] outcomes[k]).index as int].path@ != path
}

/// A file that is not extracted keeps the facts that were reused for it, and does not count as
/// changed.
pub proof fn files_that_are_not_extracted_are_unchanged(
    packages: PackageAssignmentSet,
    first: AttemptState,
    outcomes: Seq<IndexedOutcome>,
    n: nat,
    last: AttemptState,
    path: Seq<char>,
)
    requires
        are_applied(packages, first, outcomes, n, last),
        n <= outcomes.len(),
        forall|k: int|
            0 <= k < n ==> (#[trigger] outcomes[k]).index < first.plan.entries@.len(),
        is_not_extracted(first.plan.entries@, outcomes, n, path),
    ensures
        last.facts@.contains_key(path) <==> first.facts@.contains_key(path),
        last.facts@.contains_key(path) ==> last.facts@[path] == first.facts@[path],
        last.changed@.contains_key(path) <==> first.changed@.contains_key(path),
        last.plan.entries@.len() == first.plan.entries@.len(),
        forall|j: int|
            0 <= j < first.plan.entries@.len() ==> (#[trigger] last.plan.entries@[j]).path
                == first.plan.entries@[j].path,
    decreases n,
{
    if n > 0 {
        let before = choose|before: AttemptState| #[trigger]
            is_applied(packages, before, outcomes[n - 1], last) && are_applied(
                packages,
                first,
                outcomes,
                (n - 1) as nat,
                before,
            );
        assert(is_not_extracted(first.plan.entries@, outcomes, (n - 1) as nat, path));
        files_that_are_not_extracted_are_unchanged(
            packages,
            first,
            outcomes,
            (n - 1) as nat,
            before,
            path,
        );
        let index = outcomes[n - 1].index as int;
        outcomes_change_one_file(packages, before, last, index, outcomes[n - 1].outcome);
        assert(before.plan.entries@[index].path == first.plan.entries@[index].path);
        assert forall|j: int| 0 <= j < first.plan.entries@.len() implies (
        #[trigger] last.plan.entries@[j]).path == first.plan.entries@[j].path by {
            assert(before.plan.entries@[j].path == first.plan.entries@[j].path);
            if j != index {
                assert(last.plan.entries@[j] == before.plan.entries@[j]);
            }
        }
    }
}

proof fn lemma_subgraph_is_seen(files: Seq<CandidateFileRecord>, i: int)
    requires
        0 <= i < files.len(),
        files[i].subgraph is Some,
    ensures
        subgraph_views(files).contains((files[i].path@, files[i].subgraph->0@)),
    decreases files.len(),
{
    let all = subgraph_views(files);
    let wanted = (files[i].path@, files[i].subgraph->0@);
    if i == files.len() - 1 {
        assert(all.last() == wanted);
    } else {
        lemma_subgraph_is_seen(files.drop_last(), i);
        let before = subgraph_views(files.drop_last());
        let k = choose|k: int| 0 <= k < before.len() && before[k] == wanted;
        assert(all[k] == wanted);
    }
}

proof fn lemma_seen_subgraph_is_of_a_file(files: Seq<CandidateFileRecord>, k: int)
    requires
        0 <= k < subgraph_views(files).len(),
    ensures
        exists|i: int|
            0 <= i < files.len() && (#[trigger] files[i]).subgraph is Some && subgraph_views(
                files,
            )[k] == (files[i].path@, files[i].subgraph->0@),
    decreases files.len(),
{
    if files.len() > 0 {
        let rest = files.drop_last();
        if k < subgraph_views(rest).len() {
            lemma_seen_subgraph_is_of_a_file(rest, k);
            let i = choose|i: int|
                0 <= i < rest.len() && (#[trigger] rest[i]).subgraph is Some && subgraph_views(
                    rest,
                )[k] == (rest[i].path@, rest[i].subgraph->0@);
            assert(files[i] == rest[i]);
        } else {
            assert(files[files.len() - 1] == files.last());
        }
    }
}

/// A resolution that goes on from a snapshot is given the snapshot as it is: the paths of all
/// its files, and the subgraph of each file that has one, under the path of that file.
pub proof fn resolutions_go_on_from_what_was_there(
    snapshot: LoadedSnapshot,
    r: Option<PriorScopeState>,
    i: int,
    k: int,
)
    requires
        call_ensures(scope_state, (&snapshot,), r),
    ensures
        r is Some <==> exists|j: int|
            0 <= j < snapshot.tier_graphs@.len() && (#[trigger] snapshot.tier_graphs@[j]).0
                == ResolverCacheTier::Scope,
        r matches Some(state) ==> {
            &&& state.candidate_id == snapshot.candidate_id
            &&& state.file_paths@.len() == snapshot.files@.len()
            &&& 0 <= i < snapshot.files@.len() ==> state.file_paths@[i]@
                == snapshot.files@[i].path@
            &&& 0 <= i < snapshot.files@.len() && snapshot.files@[i].subgraph is Some ==> exists|
                m: int,
            |
                0 <= m < state.subgraphs@.len() && (#[trigger] state.subgraphs@[m]).path@
                    == snapshot.files@[i].path@ && state.subgraphs@[m].subgraph@
                    == snapshot.files@[i].subgraph->0@
            &&& 0 <= k < state.subgraphs@.len() ==> exists|m: int|
                0 <= m < snapshot.files@.len() && (#[trigger] snapshot.files@[m]).subgraph is Some
                    && state.subgraphs@[k].path@ == snapshot.files@[m].path@
                    && state.subgraphs@[k].subgraph@ == snapshot.files@[m].subgraph->0@
        },
{
    if r is Some {
        let state = r->0;
        let files = snapshot.files@;
        let told = owned_views(state.subgraphs@);
        assert(texts(state.file_paths@) == file_paths(files));
        assert(texts(state.file_paths@).len() == state.file_paths@.len());
        if 0 <= i < files.len() {
            assert(texts(state.file_paths@)[i] == file_paths(files)[i]);
            if files[i].subgraph is Some {
                lemma_subgraph_is_seen(files, i);
                let wanted = (files[i].path@, files[i].subgraph->0@);
                let m = choose|m: int| 0 <= m < told.len() && told[m] == wanted;
                assert(told[m] == (state.subgraphs@[m].path@, state.subgraphs@[m].subgraph@));
            }
        }
        if 0 <= k < state.subgraphs@.len() {
            assert(told[k] == (state.subgraphs@[k].path@, state.subgraphs@[k].subgraph@));
            lemma_seen_subgraph_is_of_a_file(files, k);
        }
    }
}

} // verus!
