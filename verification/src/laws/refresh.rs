//! Laws of refreshes: what is reused, what is extracted anew, what is left out, and when a
//! candidate is complete.

use vstd::prelude::*;
use vstd::string::*;
use crate::cache::fingerprint::{blake3_of, omission_views};
use crate::cache::snapshot::{CompatibilityRecord, LoadedSnapshot};
use crate::cache::types::CacheCompleteness;
use crate::config::{ResolverTier, ResourceLimits};
use crate::deadline::{Cancellation, Deadline};
use crate::error::CliError;
use crate::graph::FileFacts;
use crate::inventory::types::{
    OmissionImpact, OmissionReason, OmittedFile, SourceCandidate, SourceDiscovery,
};
use crate::ordering::{is_stable_sort, Keyed};
use crate::package_assignment::records::texts;
use crate::refresh::plan::{
    candidate_entries, decision_of, hashed_decision, is_current, latest_candidate, latest_prior,
    names_path, omission_entries, planned, removals, removals_are_exact, PriorFileRecord,
    RefreshDecision, RefreshEntry,
};
use crate::refresh::prepare::budgets::budgeted;
use crate::refresh::prepare::finish::{
    cached_omission, deduplicated, is_assembled, is_row, omissions_with, same_omission,
    AssembledCandidate, OmissionSources, RowSources,
};
use crate::refresh::prepare::recovery::{is_recovery_step, ExtractionOutcome, RecoveryStep};
use crate::refresh::prepare::retry::{
    first_settled, is_next_step, retry_drift, AttemptError, RetryStep,
};
use crate::text::text_lt;
use crate::text_map::TextMap;
use crate::worker::{WorkerAttemptFailure, WorkerErrorCode, WorkerFailure};

verus! {

/// The record of the file is one that its facts can be reused by, whatever its content: it is
/// of the same language, of the tier that is asked for, and assigned to the same package.
pub open spec fn record_fits(
    c: SourceCandidate,
    p: PriorFileRecord,
    assignments: Map<Seq<char>, String>,
    tier: ResolverTier,
) -> bool {
    &&& c.language == Some(p.language)
    &&& p.tier == tier
    &&& assignments.contains_key(c.path@)
    &&& assignments[c.path@]@ == p.package_assignment@
}

/// What metadata alone decide: a file of no language is left out. Any other is extracted
/// exactly where the refresh is forced or no record fits it; reused without looking at it
/// exactly where a record fits, modification times are trusted, both are known and equal, and
/// the sizes are; and hashed in all other cases. Nothing that is there is removed.
pub proof fn metadata_decide_exactly(
    c: SourceCandidate,
    prior: Option<PriorFileRecord>,
    assignments: Map<Seq<char>, String>,
    force: bool,
    trust_mtime: bool,
    tier: ResolverTier,
)
    ensures
        ({
            let d = decision_of(c, prior, assignments, force, trust_mtime, tier);
            let fits = prior is Some && record_fits(c, prior->0, assignments, tier);
            let untouched = prior is Some && c.mtime is Some && prior->0.mtime is Some
                && c.mtime->0 == prior->0.mtime->0 && c.size_bytes == prior->0.size_bytes;
            &&& d is Omit <==> c.language is None
            &&& d == RefreshDecision::Extract <==> c.language is Some && (force || !fits)
            &&& d == RefreshDecision::ReuseFacts <==> !force && fits && trust_mtime && untouched
            &&& d == RefreshDecision::NeedHash <==> !force && fits && !(trust_mtime && untouched)
        }),
{
}

/// Once the content is known, facts are reused exactly where it is what was recorded, and the
/// language and the package of the file are what they were.
pub proof fn content_decides_exactly(
    path: Seq<char>,
    hashes: Map<Seq<char>, [u8; 32]>,
    prior: Seq<PriorFileRecord>,
    assignments: Map<Seq<char>, String>,
    candidates: Seq<SourceCandidate>,
    c: SourceCandidate,
    p: PriorFileRecord,
    i: int,
    j: int,
)
    requires
        0 <= i < candidates.len() && candidates[i] == c && c.path@ == path,
        forall|k: int| i < k < candidates.len() ==> (#[trigger] candidates[k]).path@ != path,
        0 <= j < prior.len() && prior[j] == p && p.path@ == path,
        forall|k: int| j < k < prior.len() ==> (#[trigger] prior[k]).path@ != path,
    ensures
        ({
            let d = hashed_decision(path, hashes, prior, assignments, candidates);
            &&& d == RefreshDecision::ReuseFacts <==> hashes.contains_key(path) && hashes[path]@
                == p.content_hash@ && c.language == Some(p.language) && assignments.contains_key(
                path,
            ) && assignments[path]@ == p.package_assignment@
            &&& d == RefreshDecision::ReuseFacts || d == RefreshDecision::Extract
        }),
{
    lemma_latest_candidate(candidates, path, i);
    lemma_latest_prior(prior, path, j);
}

proof fn lemma_latest_candidate(candidates: Seq<SourceCandidate>, path: Seq<char>, i: int)
    requires
        0 <= i < candidates.len(),
        candidates[i].path@ == path,
        forall|k: int| i < k < candidates.len() ==> (#[trigger] candidates[k]).path@ != path,
    ensures
        latest_candidate(candidates, path) == Some(candidates[i]),
    decreases candidates.len(),
{
    if i < candidates.len() - 1 {
        assert(candidates[candidates.len() - 1].path@ != path);
        let rest = candidates.drop_last();
        assert forall|k: int| i < k < rest.len() implies (#[trigger] rest[k]).path@ != path by {
            assert(rest[k] == candidates[k]);
        }
        lemma_latest_candidate(rest, path, i);
    }
}

proof fn lemma_latest_prior(prior: Seq<PriorFileRecord>, path: Seq<char>, i: int)
    requires
        0 <= i < prior.len(),
        prior[i].path@ == path,
        forall|k: int| i < k < prior.len() ==> (#[trigger] prior[k]).path@ != path,
    ensures
        latest_prior(prior, path) == Some(prior[i]),
    decreases prior.len(),
{
    if i < prior.len() - 1 {
        assert(prior[prior.len() - 1].path@ != path);
        let rest = prior.drop_last();
        assert forall|k: int| i < k < rest.len() implies (#[trigger] rest[k]).path@ != path by {
            assert(rest[k] == prior[k]);
        }
        lemma_latest_prior(rest, path, i);
    }
}

proof fn lemma_no_prior(prior: Seq<PriorFileRecord>, path: Seq<char>)
    requires
        forall|k: int| 0 <= k < prior.len() ==> (#[trigger] prior[k]).path@ != path,
    ensures
        latest_prior(prior, path) is None,
    decreases prior.len(),
{
    if prior.len() > 0 {
        assert(prior[prior.len() - 1].path@ != path);
        let rest = prior.drop_last();
        assert forall|k: int| 0 <= k < rest.len() implies (#[trigger] rest[k]).path@ != path by {
            assert(rest[k] == prior[k]);
        }
        lemma_no_prior(rest, path);
    }
}

/// The plan has the action for the path.
pub open spec fn plans(entries: Seq<RefreshEntry>, path: Seq<char>, d: RefreshDecision) -> bool {
    exists|i: int|
        0 <= i < entries.len() && (#[trigger] entries[i]).path@ == path && entries[i].decision == d
}

proof fn lemma_plans(all: Seq<RefreshEntry>, entries: Seq<RefreshEntry>, e: RefreshEntry)
    requires
        is_stable_sort(all, entries),
    ensures
        all.contains(e) <==> entries.contains(e),
{
    all.to_multiset_ensures();
    entries.to_multiset_ensures();
    assert(all.contains(e) <==> all.to_multiset().count(e) > 0);
    assert(entries.contains(e) <==> entries.to_multiset().count(e) > 0);
}

/// A plan is whole. A new file of a language is extracted, and so is every file of a language
/// in a forced refresh; what was left out is left out; a path that was recorded and is gone is
/// removed; and the actions ascend by their paths.
pub proof fn plans_are_whole(
    discovery: SourceDiscovery,
    prior: Seq<PriorFileRecord>,
    assignments: Map<Seq<char>, String>,
    force: bool,
    trust_mtime: bool,
    tier: ResolverTier,
    entries: Seq<RefreshEntry>,
)
    requires
        is_stable_sort(
            planned(discovery, prior, assignments, force, trust_mtime, tier),
            entries,
        ),
    ensures
        forall|i: int|
            0 <= i < discovery.candidates@.len() && (#[trigger] discovery.candidates@[i]).language
                is Some && (force || !names_path(prior, discovery.candidates@[i].path@)) ==> plans(
                entries,
                discovery.candidates@[i].path@,
                RefreshDecision::Extract,
            ),
        forall|i: int|
            0 <= i < discovery.omitted@.len() ==> plans(
                entries,
                (#[trigger] discovery.omitted@[i]).path@,
                RefreshDecision::Omit {
                    reason: discovery.omitted@[i].reason,
                    impact: discovery.omitted@[i].impact,
                },
            ),
        forall|i: int|
            0 <= i < prior.len() && !is_current(discovery, (#[trigger] prior[i]).path@) ==> plans(
                entries,
                prior[i].path@,
                RefreshDecision::Remove,
            ),
        forall|i: int|
            0 <= i < entries.len() && (#[trigger] entries[i]).decision == RefreshDecision::Remove
                ==> names_path(prior, entries[i].path@) && !is_current(
                discovery,
                entries[i].path@,
            ),
        forall|i: int|
            0 <= i < entries.len() ==> is_current(discovery, (#[trigger] entries[i]).path@)
                || names_path(prior, entries[i].path@),
        forall|i: int, j: int|
            0 <= i < j < entries.len() ==> !text_lt(
                (#[trigger] entries[j]).path@,
                (#[trigger] entries[i]).path@,
            ),
{
    let all = planned(discovery, prior, assignments, force, trust_mtime, tier);
    let first = candidate_entries(discovery, prior, assignments, force, trust_mtime, tier);
    let second = omission_entries(discovery.omitted@);
    let third = removals(prior, discovery);
    let n = first.len();
    let m = second.len();
    assert forall|i: int|
        0 <= i < discovery.candidates@.len() && (#[trigger] discovery.candidates@[i]).language
            is Some && (force || !names_path(prior, discovery.candidates@[i].path@)) implies plans(
        entries,
        discovery.candidates@[i].path@,
        RefreshDecision::Extract,
    ) by {
        let c = discovery.candidates@[i];
        if !names_path(prior, c.path@) {
            assert forall|k: int| 0 <= k < prior.len() implies (#[trigger] prior[k]).path@
                != c.path@ by {}
            lemma_no_prior(prior, c.path@);
        }
        let e = first[i];
        assert(e.decision == RefreshDecision::Extract);
        assert(all[i] == e);
        assert(all.contains(e));
        lemma_plans(all, entries, e);
        let k = choose|k: int| 0 <= k < entries.len() && entries[k] == e;
        assert(entries[k].path@ == c.path@);
    }
    assert forall|i: int| 0 <= i < discovery.omitted@.len() implies plans(
        entries,
        (#[trigger] discovery.omitted@[i]).path@,
        RefreshDecision::Omit {
            reason: discovery.omitted@[i].reason,
            impact: discovery.omitted@[i].impact,
        },
    ) by {
        let e = second[i];
        assert(all[n + i] == e);
        assert(all.contains(e));
        lemma_plans(all, entries, e);
        let k = choose|k: int| 0 <= k < entries.len() && entries[k] == e;
        assert(entries[k].path@ == discovery.omitted@[i].path@);
    }
    assert forall|i: int|
        0 <= i < prior.len() && !is_current(discovery, (#[trigger] prior[i]).path@) implies plans(
        entries,
        prior[i].path@,
        RefreshDecision::Remove,
    ) by {
        let path = prior[i].path@;
        assert(names_path(prior, path));
        removals_are_exact(prior, discovery, path);
        let p = |e: RefreshEntry| e.path@ == path;
        let hits = third.filter(p);
        assert(hits.len() == 1);
        crate::laws::terms::lemma_filter_is_exact(third, p);
        assert(p(hits[0]) && third.contains(hits[0]));
        let k = choose|k: int| 0 <= k < third.len() && third[k] == hits[0];
        lemma_removals_remove(prior, discovery);
        let e = third[k];
        assert(all[n + m + k] == e);
        assert(all.contains(e));
        lemma_plans(all, entries, e);
        let q = choose|q: int| 0 <= q < entries.len() && entries[q] == e;
        assert(entries[q].path@ == path);
    }
    assert forall|i: int| 0 <= i < entries.len() implies (is_current(
        discovery,
        (#[trigger] entries[i]).path@,
    ) || names_path(prior, entries[i].path@)) && (entries[i].decision == RefreshDecision::Remove
        ==> names_path(prior, entries[i].path@) && !is_current(discovery, entries[i].path@)) by {
        let e = entries[i];
        assert(entries.contains(e));
        lemma_plans(all, entries, e);
        let k = choose|k: int| 0 <= k < all.len() && all[k] == e;
        if k < n {
            assert(all[k] == first[k]);
            assert(discovery.candidates@[k].path@ == e.path@);
        } else if k < n + m {
            assert(all[k] == second[k - n]);
            assert(discovery.omitted@[k - n].path@ == e.path@);
        } else {
            assert(all[k] == third[k - n - m]);
            lemma_removals_remove(prior, discovery);
        }
    }
    assert forall|i: int, j: int| 0 <= i < j < entries.len() implies !text_lt(
        (#[trigger] entries[j]).path@,
        (#[trigger] entries[i]).path@,
    ) by {
        assert(crate::ordering::key_le(entries[i].key(), entries[j].key()));
    }
}

proof fn lemma_removals_remove(prior: Seq<PriorFileRecord>, discovery: SourceDiscovery)
    ensures
        forall|k: int|
            0 <= k < removals(prior, discovery).len() ==> (#[trigger] removals(
                prior,
                discovery,
            )[k]).decision == RefreshDecision::Remove && names_path(
                prior,
                removals(prior, discovery)[k].path@,
            ) && !is_current(discovery, removals(prior, discovery)[k].path@),
    decreases prior.len(),
{
    if prior.len() > 0 {
        let rest = prior.drop_last();
        lemma_removals_remove(rest, discovery);
        let r = removals(prior, discovery);
        let before = removals(rest, discovery);
        assert forall|k: int| 0 <= k < r.len() implies (#[trigger] r[k]).decision
            == RefreshDecision::Remove && names_path(prior, r[k].path@) && !is_current(
            discovery,
            r[k].path@,
        ) by {
            if k < before.len() {
                assert(r[k] == before[k]);
                let i = choose|i: int|
                    0 <= i < rest.len() && (#[trigger] rest[i]).path@ == before[k].path@;
                assert(prior[i].path@ == r[k].path@);
            } else {
                assert(prior[prior.len() - 1].path@ == r[k].path@);
            }
        }
    }
}

/// The bytes of the first candidates of a language.
pub open spec fn bytes_of_sources(candidates: Seq<SourceCandidate>) -> int
    decreases candidates.len(),
{
    if candidates.len() == 0 {
        0
    } else {
        bytes_of_sources(candidates.drop_last()) + if candidates.last().language is Some {
            candidates.last().size_bytes as int
        } else {
            0
        }
    }
}

proof fn lemma_bytes_grow(candidates: Seq<SourceCandidate>, n: int)
    requires
        0 <= n <= candidates.len(),
    ensures
        0 <= bytes_of_sources(candidates.take(n)) <= bytes_of_sources(candidates),
    decreases candidates.len(),
{
    if candidates.len() == 0 {
        assert(candidates.take(n) =~= candidates);
    } else if n == candidates.len() {
        assert(candidates.take(n) =~= candidates);
        lemma_bytes_grow(candidates.drop_last(), n - 1);
    } else {
        lemma_bytes_grow(candidates.drop_last(), n);
        assert(candidates.drop_last().take(n) =~= candidates.take(n));
    }
}

/// What fits is kept: where no source is larger than is allowed, where there are no more files
/// than are allowed, and where the sources together are not larger than is allowed, nothing is
/// left out and the order stays.
pub proof fn nothing_is_left_out_within_the_budgets(
    candidates: Seq<SourceCandidate>,
    limits: ResourceLimits,
)
    requires
        forall|i: int|
            0 <= i < candidates.len() && (#[trigger] candidates[i]).language is Some
                ==> candidates[i].size_bytes <= limits.max_file_bytes,
        candidates.len() <= limits.max_files,
        bytes_of_sources(candidates) <= limits.max_total_bytes,
    ensures
        budgeted(candidates, limits).retained == candidates,
        budgeted(candidates, limits).omitted.len() == 0,
        budgeted(candidates, limits).total == bytes_of_sources(candidates),
    decreases candidates.len(),
{
    if candidates.len() > 0 {
        let rest = candidates.drop_last();
        assert forall|i: int|
            0 <= i < rest.len() && (#[trigger] rest[i]).language is Some implies rest[i].size_bytes
            <= limits.max_file_bytes by {
            assert(rest[i] == candidates[i]);
        }
        lemma_bytes_grow(candidates, candidates.len() - 1);
        assert(candidates.take(candidates.len() - 1) =~= rest);
        nothing_is_left_out_within_the_budgets(rest, limits);
        let c = candidates[candidates.len() - 1];
        assert(c == candidates.last());
        assert(budgeted(rest, limits).retained.push(c) =~= candidates);
    } else {
        assert(budgeted(candidates, limits).retained =~= candidates);
    }
}

/// A candidate is left out for this reason, and the reason is true of it.
pub open spec fn is_true_reason(
    c: SourceCandidate,
    o: OmittedFile,
    kept: nat,
    bytes: nat,
    limits: ResourceLimits,
) -> bool {
    &&& o.path == c.path
    &&& c.language is Some
    &&& match o.reason {
        OmissionReason::FileTooLarge { limit } => limit == limits.max_file_bytes && c.size_bytes
            > limit,
        OmissionReason::FileCountLimit { limit } => limit == limits.max_files && c.size_bytes
            <= limits.max_file_bytes && kept >= limit,
        OmissionReason::TotalBytesLimit { limit } => limit == limits.max_total_bytes && c.size_bytes
            <= limits.max_file_bytes && kept < limits.max_files && bytes + c.size_bytes > limit,
        _ => false,
    }
}

/// A candidate more is kept, or left out for a reason that is true of it: too large by itself,
/// one too many, or too large together with what is kept. A file of no language is kept, for it
/// is left out later, and takes nothing of the bytes.
pub proof fn budgets_leave_out_for_true_reasons(
    candidates: Seq<SourceCandidate>,
    limits: ResourceLimits,
)
    requires
        candidates.len() > 0,
    ensures
        ({
            let c = candidates.last();
            let before = budgeted(candidates.drop_last(), limits);
            let after = budgeted(candidates, limits);
            ||| after.retained == before.retained.push(c) && after.omitted == before.omitted && (
            c.language is None ==> after.total == before.total) && (c.language is Some
                ==> after.total == before.total + c.size_bytes && c.size_bytes
                <= limits.max_file_bytes && before.retained.len() < limits.max_files && after.total
                <= limits.max_total_bytes)
            ||| after.retained == before.retained && after.total == before.total
                && after.omitted.len() == before.omitted.len() + 1 && after.omitted.drop_last()
                == before.omitted && is_true_reason(
                c,
                after.omitted.last(),
                before.retained.len(),
                before.total,
                limits,
            )
        }),
{
    let before = budgeted(candidates.drop_last(), limits);
    let after = budgeted(candidates, limits);
    if after.omitted.len() > before.omitted.len() {
        assert(after.omitted.drop_last() =~= before.omitted);
    }
}

/// A worker that broke off or whose process exited is dead, and no other failure is a death.
pub open spec fn has_died(failure: WorkerAttemptFailure) -> bool {
    match failure {
        WorkerAttemptFailure::Failure(WorkerFailure::Transport) => true,
        WorkerAttemptFailure::Failure(WorkerFailure::Exit) => true,
        _ => false,
    }
}

/// The failure concerns the file alone: the worker could not extract it, or gave facts that do
/// not fit it.
pub open spec fn concerns_the_file(failure: WorkerAttemptFailure) -> bool {
    match failure {
        WorkerAttemptFailure::Remote { code: WorkerErrorCode::Extraction, .. } => true,
        WorkerAttemptFailure::InvalidFacts { .. } => true,
        _ => false,
    }
}

/// A file is never lost and never retried without end: facts are kept; a first death is
/// retried, a second leaves the file out; a failure that concerns the file alone leaves it out;
/// and every other failure ends the extraction with that failure.
pub proof fn recoveries_are_bounded_and_honest(
    retry: bool,
    attempt: Result<FileFacts, WorkerAttemptFailure>,
    step: RecoveryStep,
)
    requires
        is_recovery_step(retry, attempt, step),
    ensures
        step is RespawnAndRetry <==> attempt is Err && has_died(attempt->Err_0) && !retry,
        step is RespawnAndOmit <==> attempt is Err && has_died(attempt->Err_0) && retry,
        attempt matches Ok(facts) ==> step == RecoveryStep::Finished(
            Ok(ExtractionOutcome::Facts(facts)),
        ),
        step matches RecoveryStep::Finished(Ok(ExtractionOutcome::Facts(facts))) ==> attempt == Ok::<
            FileFacts,
            WorkerAttemptFailure,
        >(facts),
        step matches RecoveryStep::Finished(Ok(ExtractionOutcome::Omitted { .. })) ==> attempt
            is Err && concerns_the_file(attempt->Err_0),
        attempt is Err && concerns_the_file(attempt->Err_0) ==> (step matches
            RecoveryStep::Finished(Ok(ExtractionOutcome::Omitted { .. }))),
        attempt matches Err(WorkerAttemptFailure::Failure(f)) ==> f != WorkerFailure::Transport && f
            != WorkerFailure::Exit ==> step == RecoveryStep::Finished(Err(CliError::Worker(f))),
        attempt matches Err(WorkerAttemptFailure::Remote { code, .. }) ==> code
            != WorkerErrorCode::Extraction ==> step == RecoveryStep::Finished(
            Err(CliError::Worker(WorkerFailure::Remote(code))),
        ),
{
}

/// Sources that change while they are read are read again, three times at most. An attempt that
/// succeeds ends the refresh with what it made, and one that fails for good ends it with its
/// failure; no attempt is skipped.
pub proof fn drift_is_retried_three_times<T>(
    attempt: u8,
    outcome: Result<T, AttemptError>,
    step: RetryStep<T>,
)
    requires
        1 <= attempt <= 3,
        is_next_step(attempt, outcome, step),
    ensures
        step is Again <==> attempt < 3 && outcome == Err::<T, AttemptError>(AttemptError::Drift),
        step matches RetryStep::Again(n) ==> n == attempt + 1,
        outcome matches Ok(value) ==> step == RetryStep::<T>::Done(Ok(value)),
        outcome matches Err(AttemptError::Fatal(e)) ==> step == RetryStep::<T>::Done(Err(e)),
        attempt == 3 && outcome == Err::<T, AttemptError>(AttemptError::Drift) ==> (step matches
            RetryStep::Done(Err(e)) && e is Index),
{
}

/// Something is left out that could be a source.
pub open spec fn misses_a_source(omitted: Seq<OmittedFile>) -> bool {
    exists|i: int|
        0 <= i < omitted.len() && (#[trigger] omitted[i]).impact
            == OmissionImpact::IncompleteSourceSet
}

proof fn lemma_deduplicated(s: Seq<OmittedFile>, o: OmittedFile)
    requires
        s.contains(o),
    ensures
        exists|i: int|
            0 <= i < deduplicated(s).len() && same_omission(#[trigger] deduplicated(s)[i], o),
    decreases s.len(),
{
    let rest = s.drop_last();
    let before = deduplicated(rest);
    let all = deduplicated(s);
    let k = choose|k: int| 0 <= k < s.len() && s[k] == o;
    if k < s.len() - 1 {
        assert(rest[k] == o);
        lemma_deduplicated(rest, o);
        let i = choose|i: int| 0 <= i < before.len() && same_omission(#[trigger] before[i], o);
        assert(all[i] == before[i]);
    } else {
        assert(same_omission(all[all.len() - 1], o));
    }
}

proof fn lemma_deduplicated_from(s: Seq<OmittedFile>, i: int)
    requires
        0 <= i < deduplicated(s).len(),
    ensures
        s.contains(deduplicated(s)[i]),
    decreases s.len(),
{
    let rest = s.drop_last();
    let before = deduplicated(rest);
    if i < before.len() {
        lemma_deduplicated_from(rest, i);
        let k = choose|k: int| 0 <= k < rest.len() && rest[k] == before[i];
        assert(s[k] == before[i]);
        assert(deduplicated(s)[i] == before[i]);
    } else {
        assert(s[s.len() - 1] == deduplicated(s)[i]);
    }
}

proof fn lemma_omissions_with(
    s: Seq<OmittedFile>,
    impact: OmissionImpact,
    details: Map<Seq<char>, String>,
)
    ensures
        omissions_with(s, impact, details).len() > 0 <==> exists|i: int|
            0 <= i < s.len() && (#[trigger] s[i]).impact == impact,
        forall|i: int|
            0 <= i < s.len() && (#[trigger] s[i]).impact == impact ==> omissions_with(
                s,
                impact,
                details,
            ).contains(cached_omission(s[i], details)),
    decreases s.len(),
{
    if s.len() > 0 {
        let rest = s.drop_last();
        lemma_omissions_with(rest, impact, details);
        let before = omissions_with(rest, impact, details);
        let all = omissions_with(s, impact, details);
        assert forall|i: int|
            0 <= i < s.len() && (#[trigger] s[i]).impact == impact implies all.contains(
            cached_omission(s[i], details),
        ) by {
            if i < rest.len() {
                assert(rest[i] == s[i]);
                assert(before.contains(cached_omission(s[i], details)));
                let k = choose|k: int|
                    0 <= k < before.len() && before[k] == cached_omission(s[i], details);
                assert(all[k] == before[k]);
            } else {
                assert(all[all.len() - 1] == cached_omission(s[i], details));
            }
        }
        if all.len() > 0 {
            if s.last().impact == impact {
                assert(s[s.len() - 1].impact == impact);
            } else {
                let i = choose|i: int| 0 <= i < rest.len() && (#[trigger] rest[i]).impact == impact;
                assert(s[i].impact == impact);
            }
        }
        if exists|i: int| 0 <= i < s.len() && (#[trigger] s[i]).impact == impact {
            let i = choose|i: int| 0 <= i < s.len() && (#[trigger] s[i]).impact == impact;
            assert(all.contains(cached_omission(s[i], details)));
        }
    }
}

/// A candidate is complete exactly when nothing was left out that could be a source, neither
/// when the sources were discovered nor later; and every path that was left out and could be
/// one is recorded, with its reason.
pub proof fn candidates_are_complete_unless_a_source_is_missing(
    a: AssembledCandidate,
    rows: RowSources<'_>,
    changed: TextMap<bool>,
    omitted: OmissionSources,
    compatibility: CompatibilityRecord,
    requested_prior: Option<&LoadedSnapshot>,
    tier: ResolverTier,
)
    requires
        is_assembled(a, rows, changed, omitted, compatibility, requested_prior, tier),
    ensures
        a.completeness == CacheCompleteness::Partial <==> misses_a_source(
            omitted.discovered@ + omitted.extra@,
        ),
        forall|i: int|
            0 <= i < (omitted.discovered@ + omitted.extra@).len() && (#[trigger] (
            omitted.discovered@ + omitted.extra@)[i]).impact == OmissionImpact::IncompleteSourceSet
                ==> exists|k: int|
                0 <= k < a.omissions@.len() && (#[trigger] a.omissions@[k]).path@ == (
                omitted.discovered@ + omitted.extra@)[i].path@ && a.omissions@[k].reason@ == (
                omitted.discovered@ + omitted.extra@)[i].reason.tag_text(),
{
    let all = omitted.discovered@ + omitted.extra@;
    let recorded = omission_views(a.omissions@);
    let ignored = omission_views(a.ignored_omissions@);
    let details = omitted.details@;
    let sorted = choose|sorted: Seq<OmittedFile>|
        {
            &&& #[trigger] is_stable_sort(all, sorted)
            &&& recorded == omissions_with(
                deduplicated(sorted),
                OmissionImpact::IncompleteSourceSet,
                details,
            )
            &&& ignored == omissions_with(
                deduplicated(sorted),
                OmissionImpact::IgnoredNonSource,
                details,
            )
        };
    let once = deduplicated(sorted);
    lemma_omissions_with(once, OmissionImpact::IncompleteSourceSet, details);
    assert(recorded.len() == a.omissions@.len());
    all.to_multiset_ensures();
    sorted.to_multiset_ensures();
    assert forall|i: int|
        0 <= i < all.len() && (#[trigger] all[i]).impact
            == OmissionImpact::IncompleteSourceSet implies exists|k: int|
        0 <= k < a.omissions@.len() && (#[trigger] a.omissions@[k]).path@ == all[i].path@
            && a.omissions@[k].reason@ == all[i].reason.tag_text() by {
        assert(all.contains(all[i]));
        assert(sorted.to_multiset().count(all[i]) > 0);
        assert(sorted.contains(all[i]));
        lemma_deduplicated(sorted, all[i]);
        let m = choose|m: int| 0 <= m < once.len() && same_omission(#[trigger] once[m], all[i]);
        assert(once[m].impact == OmissionImpact::IncompleteSourceSet);
        assert(recorded.contains(cached_omission(once[m], details)));
        let k = choose|k: int|
            0 <= k < recorded.len() && recorded[k] == cached_omission(once[m], details);
        assert(recorded[k] == a.omissions@[k]@);
        assert(a.omissions@[k].path@ == all[i].path@);
    }
    if misses_a_source(all) {
        let i = choose|i: int|
            0 <= i < all.len() && (#[trigger] all[i]).impact == OmissionImpact::IncompleteSourceSet;
        assert(a.omissions@.len() > 0);
    }
    if a.omissions@.len() > 0 {
        let m = choose|m: int|
            0 <= m < once.len() && (#[trigger] once[m]).impact
                == OmissionImpact::IncompleteSourceSet;
        lemma_deduplicated_from(sorted, m);
        assert(sorted.contains(once[m]));
        assert(all.to_multiset().count(once[m]) > 0);
        assert(all.contains(once[m]));
        let i = choose|i: int| 0 <= i < all.len() && all[i] == once[m];
        assert(all[i].impact == OmissionImpact::IncompleteSourceSet);
    }
}

/// A file that was read is recorded by the digest of what was read; only one that was not is
/// recorded by the digest that it had.
pub proof fn read_files_are_recorded_by_what_was_read(
    s: RowSources<'_>,
    path: Seq<char>,
    row: crate::cache::snapshot::CandidateFileRecord,
)
    requires
        is_row(s, path, row),
        s.files@.contains_key(path),
    ensures
        row.content_hash@ == blake3_of(s.files@[path].bytes@),
        row.path@ == path,
        row.facts@ == s.facts@[path]@,
        row.package_assignment@ == s.assignments@[path]@,
{
}

/// A path counts as deleted exactly where the snapshot that the refresh was given recorded it
/// and the candidate has no row of it any more; and every row is one of a path.
pub proof fn deleted_paths_are_those_without_a_row(
    a: AssembledCandidate,
    rows: RowSources<'_>,
    changed: TextMap<bool>,
    omitted: OmissionSources,
    compatibility: CompatibilityRecord,
    requested_prior: Option<&LoadedSnapshot>,
    tier: ResolverTier,
    p: Seq<char>,
)
    requires
        is_assembled(a, rows, changed, omitted, compatibility, requested_prior, tier),
        forall|q: Seq<char>| #[trigger]
            rows.facts@.contains_key(q) <==> rows.facts.keys().contains(q),
    ensures
        texts(a.deleted_paths@).contains(p) <==> requested_prior is Some && (exists|i: int|
            0 <= i < requested_prior->0.files@.len() && (#[trigger] requested_prior->0.files@[i]).path@
                == p) && !(exists|k: int|
            0 <= k < a.rows@.len() && (#[trigger] a.rows@[k]).path@ == p),
        texts(a.changed_paths@) == changed.keys(),
{
    let keys = rows.facts.keys();
    assert(rows.facts@.contains_key(p) <==> exists|k: int|
        0 <= k < a.rows@.len() && (#[trigger] a.rows@[k]).path@ == p) by {
        if rows.facts@.contains_key(p) {
            assert(keys.contains(p));
            let k = choose|k: int| 0 <= k < keys.len() && keys[k] == p;
            assert(is_row(rows, keys[k], a.rows@[k]));
            assert(a.rows@[k].path@ == p);
        }
        if exists|k: int| 0 <= k < a.rows@.len() && (#[trigger] a.rows@[k]).path@ == p {
            let k = choose|k: int| 0 <= k < a.rows@.len() && (#[trigger] a.rows@[k]).path@ == p;
            assert(is_row(rows, keys[k], a.rows@[k]));
            assert(keys.contains(keys[k]));
        }
    }
    assert(texts(a.deleted_paths@).contains(p) <==> crate::refresh::prepare::finish::is_deleted(
        requested_prior,
        rows.facts@,
        p,
    ));
}

/// What a refresh returns is the outcome of its first attempt that did not see its inputs drift:
/// every attempt before it did, and there are three at most.
pub proof fn the_first_attempt_without_drift_counts<
    T,
    C: Cancellation,
    F: Fn(u8) -> Result<T, AttemptError>,
>(f: F, deadline: Deadline, cancellation: &C, r: Result<T, CliError>)
    requires
        call_ensures(retry_drift::<T, C, F>, (&deadline, cancellation, f), r),
    ensures
        r matches Ok(value) ==> exists|k: u8| #[trigger]
            call_ensures(f, (k,), Ok::<T, AttemptError>(value)) && 1 <= k <= 3 && forall|j: u8|
                1 <= j < k ==> #[trigger] call_ensures(
                    f,
                    (j,),
                    Err::<T, AttemptError>(AttemptError::Drift),
                ),
        r matches Err(e) ==> e == CliError::Cancelled || e == CliError::Timeout || (exists|k: u8|
         #[trigger]
            call_ensures(f, (k,), Err::<T, AttemptError>(AttemptError::Fatal(e))) && 1 <= k <= 3)
            || (e is Index && forall|j: u8|
            1 <= j <= 3 ==> #[trigger] call_ensures(
                f,
                (j,),
                Err::<T, AttemptError>(AttemptError::Drift),
            )),
{
    if r is Ok {
        let value = r->Ok_0;
        let k = choose|k: u8|
            first_settled(f, k, Ok::<T, AttemptError>(value));
        assert(call_ensures(f, (k,), Ok::<T, AttemptError>(value)));
    } else {
        let e = r->Err_0;
        if exists|k: u8|
            first_settled(
                f,
                k,
                Err::<T, AttemptError>(AttemptError::Fatal(e)),
            ) {
            let k = choose|k: u8|
                first_settled(
                    f,
                    k,
                    Err::<T, AttemptError>(AttemptError::Fatal(e)),
                );
            assert(call_ensures(f, (k,), Err::<T, AttemptError>(AttemptError::Fatal(e))));
        }
    }
}

} // verus!
