//! Pure refresh-plan construction and hash finalization.

use vstd::prelude::*;
use vstd::string::*;
use vstd::utf8::*;
use crate::cache::snapshot::{contains_tier, has_tier, CandidateFileRecord};
use crate::cache::snapshot::LoadedSnapshot;
use crate::cache::types::ResolverCacheTier;
use crate::config::ResolverTier;
use crate::error::CliError;
use crate::graph::Language;
use crate::inventory::types::{
    path_impact, FileClassification, MtimeHint, OmissionImpact, OmissionReason, OmittedFile,
    SourceCandidate, SourceDiscovery,
};
use crate::ordering::{is_stable_sort, stable_sort, Keyed};
use crate::package_assignment::types::{is_canonical_identity, SourcePackageAssignment};
use crate::project::path::{rejection, ProjectPath};
use crate::text::{same_bytes, same_text, text_key, text_less, text_lt};
use crate::text_map::TextMap;

verus! {

/// Maximum bounded attempts allowed when a filesystem input drifts during refresh.
pub const MAX_REFRESH_ATTEMPTS: u8 = 3;

/// Stable source-free extraction failure for refresh orchestration.
#[derive(Debug, Clone, Copy, PartialEq, Eq, Structural)]
pub enum ExtractionError {
    /// The source changed while it was being materialized.
    Drift,
}

/// Cached per-file facts metadata sufficient for refresh planning.
#[derive(Debug, Clone, PartialEq, Eq)]
pub struct PriorFileRecord {
    pub path: ProjectPath,
    pub language: Language,
    pub content_hash: [u8; 32],
    pub size_bytes: u64,
    pub mtime: Option<MtimeHint>,
    /// Canonical package-assignment identity, including selected manifest path.
    pub package_assignment: String,
    pub tier: ResolverTier,
}

/// A planned action. `NeedHash` explicitly means no reuse claim has been made.
#[derive(Debug, Clone, Copy, PartialEq, Eq, Structural)]
pub enum RefreshDecision {
    NeedHash,
    ReuseFacts,
    Extract,
    Remove,
    Omit { reason: OmissionReason, impact: OmissionImpact },
}

/// One deterministic per-path refresh action.
#[derive(Debug, Clone, PartialEq, Eq)]
pub struct RefreshEntry {
    pub path: ProjectPath,
    pub decision: RefreshDecision,
}

impl Keyed for RefreshEntry {
    open spec fn key(&self) -> Seq<u64> {
        text_key(self.path@)
    }

    fn sort_key(&self) -> (k: Vec<u64>) {
        self.path.sort_key()
    }
}

/// A sorted refresh plan. Planning itself performs no filesystem reads.
#[derive(Debug, Clone, PartialEq, Eq)]
pub struct RefreshPlan {
    pub entries: Vec<RefreshEntry>,
}

/// Immutable inputs to the filesystem-free refresh planner. The assignments hold
/// the canonical assignment identities by source path.
pub struct RefreshInputs<'a> {
    pub discovery: &'a SourceDiscovery,
    pub prior: &'a Vec<PriorFileRecord>,
    pub package_assignments: &'a TextMap<String>,
    pub force: bool,
    pub trust_mtime: bool,
    pub tier: ResolverTier,
}

/// The last record of a path.
pub open spec fn latest_prior(prior: Seq<PriorFileRecord>, path: Seq<char>) -> Option<
    PriorFileRecord,
>
    decreases prior.len(),
{
    if prior.len() == 0 {
        None
    } else if prior.last().path@ == path {
        Some(prior.last())
    } else {
        latest_prior(prior.drop_last(), path)
    }
}

/// The last candidate of a path.
pub open spec fn latest_candidate(candidates: Seq<SourceCandidate>, path: Seq<char>) -> Option<
    SourceCandidate,
>
    decreases candidates.len(),
{
    if candidates.len() == 0 {
        None
    } else if candidates.last().path@ == path {
        Some(candidates.last())
    } else {
        latest_candidate(candidates.drop_last(), path)
    }
}

/// The assignment of a path is this one.
pub open spec fn is_assigned(
    assignments: Map<Seq<char>, String>,
    path: Seq<char>,
    identity: Seq<char>,
) -> bool {
    assignments.contains_key(path) && assignments[path]@ == identity
}

/// Why a file that is in no enabled language is left out.
pub open spec fn classification_reason(c: FileClassification) -> OmissionReason {
    match c {
        FileClassification::FeatureDisabled(language) => OmissionReason::FeatureDisabled {
            language,
        },
        _ => OmissionReason::UnrecognizedExtension,
    }
}

/// Both modification times are known, and they are the same.
pub open spec fn same_mtime(a: Option<MtimeHint>, b: Option<MtimeHint>) -> bool {
    match (a, b) {
        (Some(x), Some(y)) => x == y,
        _ => false,
    }
}

/// What metadata alone decide about a candidate.
pub open spec fn decision_of(
    candidate: SourceCandidate,
    prior: Option<PriorFileRecord>,
    assignments: Map<Seq<char>, String>,
    force: bool,
    trust_mtime: bool,
    tier: ResolverTier,
) -> RefreshDecision {
    match candidate.language {
        None => RefreshDecision::Omit {
            reason: classification_reason(candidate.classification),
            impact: path_impact(candidate.path@),
        },
        Some(language) => match prior {
            Some(p) => if !force && p.language == language && p.tier == tier && is_assigned(
                assignments,
                candidate.path@,
                p.package_assignment@,
            ) {
                if trust_mtime && p.size_bytes == candidate.size_bytes && same_mtime(
                    p.mtime,
                    candidate.mtime,
                ) {
                    RefreshDecision::ReuseFacts
                } else {
                    RefreshDecision::NeedHash
                }
            } else {
                RefreshDecision::Extract
            },
            None => RefreshDecision::Extract,
        },
    }
}

/// The path is that of a candidate or of an omission.
pub open spec fn is_current(discovery: SourceDiscovery, path: Seq<char>) -> bool {
    ||| exists|i: int|
        0 <= i < discovery.candidates@.len() && (#[trigger] discovery.candidates@[i]).path@ == path
    ||| exists|i: int|
        0 <= i < discovery.omitted@.len() && (#[trigger] discovery.omitted@[i]).path@ == path
}

/// Some of the records is that of the path.
pub open spec fn names_path(prior: Seq<PriorFileRecord>, path: Seq<char>) -> bool {
    exists|i: int| 0 <= i < prior.len() && (#[trigger] prior[i]).path@ == path
}

/// One removal for each recorded path that is no longer there.
pub open spec fn removals(prior: Seq<PriorFileRecord>, discovery: SourceDiscovery) -> Seq<
    RefreshEntry,
>
    decreases prior.len(),
{
    if prior.len() == 0 {
        Seq::empty()
    } else {
        let before = removals(prior.drop_last(), discovery);
        let path = prior.last().path;
        if is_current(discovery, path@) || names_path(prior.drop_last(), path@) {
            before
        } else {
            before.push(RefreshEntry { path, decision: RefreshDecision::Remove })
        }
    }
}

/// The actions for the candidates, in their order.
pub open spec fn candidate_entries(
    discovery: SourceDiscovery,
    prior: Seq<PriorFileRecord>,
    assignments: Map<Seq<char>, String>,
    force: bool,
    trust_mtime: bool,
    tier: ResolverTier,
) -> Seq<RefreshEntry> {
    discovery.candidates@.map_values(
        |c: SourceCandidate|
            RefreshEntry {
                path: c.path,
                decision: decision_of(
                    c,
                    latest_prior(prior, c.path@),
                    assignments,
                    force,
                    trust_mtime,
                    tier,
                ),
            },
    )
}

/// The actions for the omissions, in their order.
pub open spec fn omission_entries(omitted: Seq<OmittedFile>) -> Seq<RefreshEntry> {
    omitted.map_values(
        |o: OmittedFile|
            RefreshEntry {
                path: o.path,
                decision: RefreshDecision::Omit { reason: o.reason, impact: o.impact },
            },
    )
}

/// All actions, before they are sorted by path.
pub open spec fn planned(
    discovery: SourceDiscovery,
    prior: Seq<PriorFileRecord>,
    assignments: Map<Seq<char>, String>,
    force: bool,
    trust_mtime: bool,
    tier: ResolverTier,
) -> Seq<RefreshEntry> {
    candidate_entries(discovery, prior, assignments, force, trust_mtime, tier) + omission_entries(
        discovery.omitted@,
    ) + removals(prior, discovery)
}

fn same_optional_mtime(a: &Option<MtimeHint>, b: &Option<MtimeHint>) -> (r: bool)
    ensures
        r == same_mtime(*a, *b),
{
    match (a, b) {
        (Some(x), Some(y)) => *x == *y,
        _ => false,
    }
}

fn assigned(assignments: &TextMap<String>, path: &str, identity: &str) -> (r: bool)
    ensures
        r == is_assigned(assignments@, path@, identity@),
{
    match assignments.get(path) {
        Some(found) => same_text(found.as_str(), identity),
        None => false,
    }
}

/// The omission that leaves a file of no enabled language out.
pub fn classification_omission(c: FileClassification) -> (r: OmissionReason)
    ensures
        r == classification_reason(c),
{
    match c {
        FileClassification::FeatureDisabled(language) => OmissionReason::FeatureDisabled {
            language,
        },
        _ => OmissionReason::UnrecognizedExtension,
    }
}

/// Decides from metadata alone.
fn metadata_decision(
    candidate: &SourceCandidate,
    prior: Option<&PriorFileRecord>,
    assignments: &TextMap<String>,
    force: bool,
    trust_mtime: bool,
    tier: ResolverTier,
) -> (r: RefreshDecision)
    ensures
        r == decision_of(
            *candidate,
            match prior {
                Some(p) => Some(*p),
                None => None,
            },
            assignments@,
            force,
            trust_mtime,
            tier,
        ),
{
    let language = match candidate.language {
        Some(language) => language,
        None => {
            let reason = classification_omission(candidate.classification);
            let omission = OmittedFile::new(candidate.path.clone(), reason);
            return RefreshDecision::Omit { reason: omission.reason, impact: omission.impact };
        },
    };
    if force {
        return RefreshDecision::Extract;
    }
    match prior {
        None => RefreshDecision::Extract,
        Some(p) => {
            if p.language != language || p.tier != tier || !assigned(
                assignments,
                candidate.path.as_str(),
                p.package_assignment.as_str(),
            ) {
                return RefreshDecision::Extract;
            }
            if trust_mtime && p.size_bytes == candidate.size_bytes && same_optional_mtime(
                &p.mtime,
                &candidate.mtime,
            ) {
                RefreshDecision::ReuseFacts
            } else {
                RefreshDecision::NeedHash
            }
        },
    }
}

/// The index leads to the last record of a path.
spec fn prior_found(index: Map<Seq<char>, usize>, prior: Seq<PriorFileRecord>, path: Seq<char>) -> bool {
    match latest_prior(prior, path) {
        Some(p) => index.contains_key(path) && index[path] < prior.len()
            && prior[index[path] as int] == p,
        None => !index.contains_key(path),
    }
}

/// An index of the records by path: the position of the last record of each.
spec fn is_prior_index(index: Map<Seq<char>, usize>, prior: Seq<PriorFileRecord>) -> bool {
    forall|path: Seq<char>| #[trigger] prior_found(index, prior, path)
}

fn index_prior(prior: &Vec<PriorFileRecord>) -> (index: TextMap<usize>)
    ensures
        is_prior_index(index@, prior@),
{
    let mut index: TextMap<usize> = TextMap::new();
    let mut i: usize = 0;
    assert(prior@.take(0) =~= Seq::<PriorFileRecord>::empty());
    while i < prior.len()
        invariant
            i <= prior.len(),
            is_prior_index(index@, prior@.take(i as int)),
        decreases prior.len() - i,
    {
        let ghost before = prior@.take(i as int);
        let ghost more = prior@.take(i as int + 1);
        let ghost old_index = index@;
        index.insert(prior[i].path.to_text(), i);
        proof {
            assert(more.drop_last() =~= before);
            assert(more.last() == prior@[i as int]);
            assert forall|path: Seq<char>| #[trigger] prior_found(index@, more, path) by {
                assert(prior_found(old_index, before, path));
                if path != prior@[i as int].path@ {
                    assert(latest_prior(more, path) == latest_prior(before, path));
                }
            }
        }
        i += 1;
    }
    assert(prior@.take(prior@.len() as int) =~= prior@);
    index
}

/// The current paths are those of the first candidates and omissions.
spec fn is_current_set(
    current: Map<Seq<char>, bool>,
    candidates: Seq<SourceCandidate>,
    omitted: Seq<OmittedFile>,
) -> bool {
    forall|path: Seq<char>| #[trigger]
        current.contains_key(path) <==> (has_candidate(candidates, path) || has_omission(
            omitted,
            path,
        ))
}

spec fn has_candidate(candidates: Seq<SourceCandidate>, path: Seq<char>) -> bool {
    exists|i: int| 0 <= i < candidates.len() && (#[trigger] candidates[i]).path@ == path
}

spec fn has_omission(omitted: Seq<OmittedFile>, path: Seq<char>) -> bool {
    exists|i: int| 0 <= i < omitted.len() && (#[trigger] omitted[i]).path@ == path
}

proof fn lemma_has_candidate_push(s: Seq<SourceCandidate>, x: SourceCandidate, path: Seq<char>)
    ensures
        has_candidate(s.push(x), path) <==> has_candidate(s, path) || x.path@ == path,
{
    let t = s.push(x);
    if has_candidate(s, path) {
        let i = choose|i: int| 0 <= i < s.len() && (#[trigger] s[i]).path@ == path;
        assert(t[i].path@ == path);
    }
    if x.path@ == path {
        assert(t[s.len() as int].path@ == path);
    }
    if has_candidate(t, path) {
        let i = choose|i: int| 0 <= i < t.len() && (#[trigger] t[i]).path@ == path;
        if i < s.len() {
            assert(s[i].path@ == path);
        }
    }
}

proof fn lemma_has_omission_push(s: Seq<OmittedFile>, x: OmittedFile, path: Seq<char>)
    ensures
        has_omission(s.push(x), path) <==> has_omission(s, path) || x.path@ == path,
{
    let t = s.push(x);
    if has_omission(s, path) {
        let i = choose|i: int| 0 <= i < s.len() && (#[trigger] s[i]).path@ == path;
        assert(t[i].path@ == path);
    }
    if x.path@ == path {
        assert(t[s.len() as int].path@ == path);
    }
    if has_omission(t, path) {
        let i = choose|i: int| 0 <= i < t.len() && (#[trigger] t[i]).path@ == path;
        if i < s.len() {
            assert(s[i].path@ == path);
        }
    }
}

impl RefreshPlan {
    /// Produces the metadata plan. Default mode requires materialization before reuse.
    pub fn from_metadata(inputs: RefreshInputs<'_>) -> (r: Self)
        ensures
            is_stable_sort(
                planned(
                    *inputs.discovery,
                    inputs.prior@,
                    inputs.package_assignments@,
                    inputs.force,
                    inputs.trust_mtime,
                    inputs.tier,
                ),
                r.entries@,
            ),
    {
        let discovery = inputs.discovery;
        let prior = inputs.prior;
        let index = index_prior(prior);
        let mut entries: Vec<RefreshEntry> = Vec::new();
        let mut current: TextMap<bool> = TextMap::new();
        let ghost first = candidate_entries(
            *discovery,
            prior@,
            inputs.package_assignments@,
            inputs.force,
            inputs.trust_mtime,
            inputs.tier,
        );
        let ghost second = omission_entries(discovery.omitted@);
        let ghost cs = discovery.candidates@;
        let ghost os = discovery.omitted@;
        let mut i: usize = 0;
        assert(cs.take(0) =~= Seq::<SourceCandidate>::empty());
        assert(first.take(0) =~= Seq::<RefreshEntry>::empty());
        while i < discovery.candidates.len()
            invariant
                i <= discovery.candidates.len(),
                prior == inputs.prior,
                discovery == inputs.discovery,
                cs == discovery.candidates@,
                is_prior_index(index@, prior@),
                first == candidate_entries(
                    *discovery,
                    prior@,
                    inputs.package_assignments@,
                    inputs.force,
                    inputs.trust_mtime,
                    inputs.tier,
                ),
                entries@ == first.take(i as int),
                is_current_set(current@, cs.take(i as int), Seq::empty()),
            decreases discovery.candidates.len() - i,
        {
            let candidate = &discovery.candidates[i];
            let ghost path = candidate.path@;
            let found = match index.get(candidate.path.as_str()) {
                Some(at) => {
                    assert(prior_found(index@, prior@, path));
                    Some(&prior[*at])
                },
                None => {
                    assert(prior_found(index@, prior@, path));
                    None
                },
            };
            let decision = metadata_decision(
                candidate,
                found,
                inputs.package_assignments,
                inputs.force,
                inputs.trust_mtime,
                inputs.tier,
            );
            let ghost before = current@;
            current.insert(candidate.path.to_text(), true);
            entries.push(RefreshEntry { path: candidate.path.clone(), decision });
            proof {
                assert(first.take(i as int + 1) =~= first.take(i as int).push(first[i as int]));
                assert(cs.take(i as int + 1) =~= cs.take(i as int).push(cs[i as int]));
                assert forall|p: Seq<char>| #[trigger] current@.contains_key(p) <==> (
                has_candidate(cs.take(i as int + 1), p) || has_omission(Seq::empty(), p)) by {
                    lemma_has_candidate_push(cs.take(i as int), cs[i as int], p);
                    assert(before.contains_key(p) || !before.contains_key(p));
                }
            }
            i += 1;
        }
        assert(cs.take(cs.len() as int) =~= cs);
        assert(first.take(first.len() as int) =~= first);
        let mut k: usize = 0;
        assert(os.take(0) =~= Seq::<OmittedFile>::empty());
        assert(second.take(0) =~= Seq::<RefreshEntry>::empty());
        assert(entries@ =~= first + second.take(0));
        while k < discovery.omitted.len()
            invariant
                k <= discovery.omitted.len(),
                cs == discovery.candidates@,
                os == discovery.omitted@,
                second == omission_entries(os),
                entries@ == first + second.take(k as int),
                is_current_set(current@, cs, os.take(k as int)),
            decreases discovery.omitted.len() - k,
        {
            let omission = &discovery.omitted[k];
            let ghost before = current@;
            current.insert(omission.path.to_text(), true);
            entries.push(
                RefreshEntry {
                    path: omission.path.clone(),
                    decision: RefreshDecision::Omit {
                        reason: omission.reason,
                        impact: omission.impact,
                    },
                },
            );
            proof {
                assert(second.take(k as int + 1) =~= second.take(k as int).push(second[k as int]));
                assert(entries@ =~= first + second.take(k as int + 1));
                assert(os.take(k as int + 1) =~= os.take(k as int).push(os[k as int]));
                assert forall|p: Seq<char>| #[trigger] current@.contains_key(p) <==> (
                has_candidate(cs, p) || has_omission(os.take(k as int + 1), p)) by {
                    lemma_has_omission_push(os.take(k as int), os[k as int], p);
                    assert(before.contains_key(p) || !before.contains_key(p));
                }
            }
            k += 1;
        }
        assert(os.take(os.len() as int) =~= os);
        assert(second.take(second.len() as int) =~= second);
        let mut removed: TextMap<bool> = TextMap::new();
        let mut m: usize = 0;
        let ghost ps = prior@;
        assert(ps.take(0) =~= Seq::<PriorFileRecord>::empty());
        assert(entries@ =~= first + second + removals(ps.take(0), *discovery));
        while m < prior.len()
            invariant
                m <= prior.len(),
                ps == prior@,
                cs == discovery.candidates@,
                os == discovery.omitted@,
                is_current_set(current@, cs, os),
                entries@ == first + second + removals(ps.take(m as int), *discovery),
                forall|p: Seq<char>| #[trigger]
                    removed@.contains_key(p) <==> names_path(ps.take(m as int), p),
            decreases prior.len() - m,
        {
            let record = &prior[m];
            let path = record.path.as_str();
            let ghost done = removals(ps.take(m as int), *discovery);
            let gone = match current.get(path) {
                Some(_) => false,
                None => true,
            };
            let fresh = match removed.get(path) {
                Some(_) => false,
                None => true,
            };
            proof {
                assert(ps.take(m as int + 1).drop_last() =~= ps.take(m as int));
                assert(ps.take(m as int + 1).last() == ps[m as int]);
                assert(current@.contains_key(path@) <==> is_current(*discovery, path@)) by {
                    assert(has_candidate(cs, path@) || !has_candidate(cs, path@));
                    assert(has_omission(os, path@) || !has_omission(os, path@));
                }
                assert(removed@.contains_key(path@) <==> names_path(ps.take(m as int), path@));
            }
            if gone && fresh {
                entries.push(
                    RefreshEntry { path: record.path.clone(), decision: RefreshDecision::Remove },
                );
            }
            let ghost before = removed@;
            removed.insert(record.path.to_text(), true);
            proof {
                assert(entries@ =~= first + second + removals(ps.take(m as int + 1), *discovery));
                assert forall|p: Seq<char>| #[trigger] removed@.contains_key(p) <==> names_path(
                    ps.take(m as int + 1),
                    p,
                ) by {
                    assert(before.contains_key(p) <==> names_path(ps.take(m as int), p));
                    let now = ps.take(m as int + 1);
                    let then = ps.take(m as int);
                    if names_path(then, p) {
                        let i = choose|i: int|
                            0 <= i < then.len() && (#[trigger] then[i]).path@ == p;
                        assert(now[i].path@ == p);
                    }
                    if p == path@ {
                        assert(now[m as int].path@ == p);
                    }
                    if names_path(now, p) {
                        let i = choose|i: int|
                            0 <= i < now.len() && (#[trigger] now[i]).path@ == p;
                        if i < m {
                            assert(then[i].path@ == p);
                        }
                    }
                }
            }
            m += 1;
        }
        assert(ps.take(ps.len() as int) =~= ps);
        RefreshPlan { entries: stable_sort(entries) }
    }
}

/// What an exact hash decides about a file whose metadata left it open.
pub open spec fn hashed_decision(
    path: Seq<char>,
    hashes: Map<Seq<char>, [u8; 32]>,
    prior: Seq<PriorFileRecord>,
    assignments: Map<Seq<char>, String>,
    candidates: Seq<SourceCandidate>,
) -> RefreshDecision {
    match (latest_candidate(candidates, path), latest_prior(prior, path)) {
        (Some(c), Some(p)) => if c.language == Some(p.language) && is_assigned(
            assignments,
            path,
            p.package_assignment@,
        ) && hashes.contains_key(path) && hashes[path]@ == p.content_hash@ {
            RefreshDecision::ReuseFacts
        } else {
            RefreshDecision::Extract
        },
        _ => RefreshDecision::Extract,
    }
}

/// The entry after the hashes are known: only an open action changes.
pub open spec fn finalized(
    e: RefreshEntry,
    hashes: Map<Seq<char>, [u8; 32]>,
    prior: Seq<PriorFileRecord>,
    assignments: Map<Seq<char>, String>,
    candidates: Seq<SourceCandidate>,
) -> RefreshEntry {
    if e.decision == RefreshDecision::NeedHash {
        RefreshEntry {
            path: e.path,
            decision: hashed_decision(e.path@, hashes, prior, assignments, candidates),
        }
    } else {
        e
    }
}

/// The index leads to the last candidate of a path.
spec fn candidate_found(
    index: Map<Seq<char>, usize>,
    candidates: Seq<SourceCandidate>,
    path: Seq<char>,
) -> bool {
    match latest_candidate(candidates, path) {
        Some(c) => index.contains_key(path) && index[path] < candidates.len()
            && candidates[index[path] as int] == c,
        None => !index.contains_key(path),
    }
}

spec fn is_candidate_index(index: Map<Seq<char>, usize>, candidates: Seq<SourceCandidate>) -> bool {
    forall|path: Seq<char>| #[trigger] candidate_found(index, candidates, path)
}

fn index_candidates(candidates: &Vec<SourceCandidate>) -> (index: TextMap<usize>)
    ensures
        is_candidate_index(index@, candidates@),
{
    let mut index: TextMap<usize> = TextMap::new();
    let mut i: usize = 0;
    assert(candidates@.take(0) =~= Seq::<SourceCandidate>::empty());
    while i < candidates.len()
        invariant
            i <= candidates.len(),
            is_candidate_index(index@, candidates@.take(i as int)),
        decreases candidates.len() - i,
    {
        let ghost before = candidates@.take(i as int);
        let ghost more = candidates@.take(i as int + 1);
        let ghost old_index = index@;
        index.insert(candidates[i].path.to_text(), i);
        proof {
            assert(more.drop_last() =~= before);
            assert(more.last() == candidates@[i as int]);
            assert forall|path: Seq<char>| #[trigger] candidate_found(index@, more, path) by {
                assert(candidate_found(old_index, before, path));
                if path != candidates@[i as int].path@ {
                    assert(latest_candidate(more, path) == latest_candidate(before, path));
                }
            }
        }
        i += 1;
    }
    assert(candidates@.take(candidates@.len() as int) =~= candidates@);
    index
}

/// The candidates by path: a position in the list for each path.
pub struct CandidateIndex {
    index: TextMap<usize>,
    size: Ghost<Seq<SourceCandidate>>,
}

impl CandidateIndex {
    /// The candidates that are indexed.
    pub closed spec fn view(self) -> Seq<SourceCandidate> {
        self.size@
    }

    /// The index fits its candidates.
    pub closed spec fn wf(self) -> bool {
        is_candidate_index(self.index@, self.size@)
    }

    /// Indexes candidates by path.
    pub fn new(candidates: &Vec<SourceCandidate>) -> (r: Self)
        ensures
            r.wf(),
            r@ == candidates@,
    {
        CandidateIndex { index: index_candidates(candidates), size: Ghost(candidates@) }
    }

    /// Finds the last candidate of a path.
    pub fn find<'a>(&self, candidates: &'a Vec<SourceCandidate>, path: &str) -> (r: Option<
        &'a SourceCandidate,
    >)
        requires
            self.wf(),
            self@ == candidates@,
        ensures
            match r {
                Some(c) => latest_candidate(candidates@, path@) == Some(*c),
                None => latest_candidate(candidates@, path@) is None,
            },
    {
        match self.index.get(path) {
            Some(at) => {
                assert(candidate_found(self.index@, candidates@, path@));
                Some(&candidates[*at])
            },
            None => {
                assert(candidate_found(self.index@, candidates@, path@));
                None
            },
        }
    }
}

impl RefreshPlan {
    /// Finalizes `NeedHash` actions after bounded materialization produced exact hashes.
    pub fn finalize_hashes(
        &mut self,
        materialized_hashes: &TextMap<[u8; 32]>,
        prior: &Vec<PriorFileRecord>,
        package_assignments: &TextMap<String>,
        candidates: &Vec<SourceCandidate>,
    )
        ensures
            final(self).entries@ == old(self).entries@.map_values(
                |e: RefreshEntry|
                    finalized(
                        e,
                        materialized_hashes@,
                        prior@,
                        package_assignments@,
                        candidates@,
                    ),
            ),
    {
        let index = index_prior(prior);
        let known = CandidateIndex::new(candidates);
        let ghost start = self.entries@;
        let ghost target = start.map_values(
            |e: RefreshEntry|
                finalized(
                    e,
                    materialized_hashes@,
                    prior@,
                    package_assignments@,
                    candidates@,
                ),
        );
        let mut i: usize = 0;
        while i < self.entries.len()
            invariant
                i <= self.entries.len(),
                self.entries@.len() == start.len(),
                known.wf(),
                known@ == candidates@,
                is_prior_index(index@, prior@),
                target == start.map_values(
                    |e: RefreshEntry|
                        finalized(
                            e,
                            materialized_hashes@,
                            prior@,
                            package_assignments@,
                            candidates@,
                        ),
                ),
                forall|j: int| 0 <= j < i ==> #[trigger] self.entries@[j] == target[j],
                forall|j: int| i <= j < start.len() ==> #[trigger] self.entries@[j] == start[j],
            decreases self.entries.len() - i,
        {
            if self.entries[i].decision == RefreshDecision::NeedHash {
                let path = self.entries[i].path.clone();
                let ghost p = path@;
                let record = match index.get(path.as_str()) {
                    Some(at) => {
                        assert(prior_found(index@, prior@, p));
                        Some(&prior[*at])
                    },
                    None => {
                        assert(prior_found(index@, prior@, p));
                        None
                    },
                };
                let candidate = known.find(candidates, path.as_str());
                let decision = match (candidate, record) {
                    (Some(candidate), Some(record)) => {
                        let language_fits = match candidate.language {
                            Some(language) => language == record.language,
                            None => false,
                        };
                        let hash_fits = match materialized_hashes.get(path.as_str()) {
                            Some(hash) => same_bytes(
                                hash.as_slice(),
                                record.content_hash.as_slice(),
                            ),
                            None => false,
                        };
                        if language_fits && assigned(
                            package_assignments,
                            path.as_str(),
                            record.package_assignment.as_str(),
                        ) && hash_fits {
                            RefreshDecision::ReuseFacts
                        } else {
                            RefreshDecision::Extract
                        }
                    },
                    _ => RefreshDecision::Extract,
                };
                self.entries.set(i, RefreshEntry { path, decision });
            }
            i += 1;
        }
        assert(self.entries@ =~= target);
    }
}

/// Once the hashes are in, no action is left open.
pub proof fn finalized_plans_are_decided(
    entries: Seq<RefreshEntry>,
    hashes: Map<Seq<char>, [u8; 32]>,
    prior: Seq<PriorFileRecord>,
    assignments: Map<Seq<char>, String>,
    candidates: Seq<SourceCandidate>,
    i: int,
)
    requires
        0 <= i < entries.len(),
    ensures
        finalized(entries[i], hashes, prior, assignments, candidates).decision
            != RefreshDecision::NeedHash,
{
}

/// The exact hash has the last word: facts whose reuse depends on it are reused
/// only if the hash is that of the record, and never where the content is unknown.
pub proof fn hash_is_authoritative(
    path: Seq<char>,
    hashes: Map<Seq<char>, [u8; 32]>,
    prior: Seq<PriorFileRecord>,
    assignments: Map<Seq<char>, String>,
    candidates: Seq<SourceCandidate>,
)
    ensures
        hashed_decision(path, hashes, prior, assignments, candidates)
            == RefreshDecision::ReuseFacts ==> latest_prior(prior, path) is Some
            && hashes.contains_key(path) && hashes[path]@ == latest_prior(
            prior,
            path,
        )->0.content_hash@,
        !hashes.contains_key(path) ==> hashed_decision(
            path,
            hashes,
            prior,
            assignments,
            candidates,
        ) == RefreshDecision::Extract,
{
}

/// Metadata alone never reuse facts unless modification times are trusted and
/// size, time, language, tier and package all agree; a forced refresh reuses
/// nothing.
pub proof fn reuse_needs_exact_metadata(
    candidate: SourceCandidate,
    prior: Option<PriorFileRecord>,
    assignments: Map<Seq<char>, String>,
    force: bool,
    trust_mtime: bool,
    tier: ResolverTier,
)
    ensures
        ({
            let d = decision_of(candidate, prior, assignments, force, trust_mtime, tier);
            &&& d == RefreshDecision::ReuseFacts ==> !force && trust_mtime && prior is Some
                && candidate.mtime is Some && prior->0.mtime == candidate.mtime
                && prior->0.size_bytes == candidate.size_bytes && candidate.language == Some(
                prior->0.language,
            ) && prior->0.tier == tier && is_assigned(
                assignments,
                candidate.path@,
                prior->0.package_assignment@,
            )
            &&& force ==> d != RefreshDecision::ReuseFacts && d != RefreshDecision::NeedHash
            &&& d != RefreshDecision::Remove
        }),
{
}

proof fn lemma_removals(prior: Seq<PriorFileRecord>, discovery: SourceDiscovery, path: Seq<char>)
    ensures
        ({
            let r = removals(prior, discovery);
            let hits = r.filter(|e: RefreshEntry| e.path@ == path);
            &&& forall|i: int|
                0 <= i < r.len() ==> (#[trigger] r[i]).decision == RefreshDecision::Remove
                    && !is_current(discovery, r[i].path@) && names_path(prior, r[i].path@)
            &&& hits.len() == if names_path(prior, path) && !is_current(discovery, path) {
                1nat
            } else {
                0nat
            }
        }),
    decreases prior.len(),
{
    let r = removals(prior, discovery);
    let p = |e: RefreshEntry| e.path@ == path;
    reveal(Seq::filter);
    if prior.len() > 0 {
        let init = prior.drop_last();
        let before = removals(init, discovery);
        lemma_removals(init, discovery, path);
        let last = prior.last();
        assert(forall|q: Seq<char>| names_path(init, q) ==> names_path(prior, q)) by {
            assert forall|q: Seq<char>| names_path(init, q) implies names_path(prior, q) by {
                let i = choose|i: int| 0 <= i < init.len() && (#[trigger] init[i]).path@ == q;
                assert(prior[i].path@ == q);
            }
        }
        assert(names_path(prior, last.path@)) by {
            assert(prior[prior.len() - 1].path@ == last.path@);
        }
        if names_path(prior, path) && last.path@ != path {
            let i = choose|i: int| 0 <= i < prior.len() && (#[trigger] prior[i]).path@ == path;
            assert(init[i].path@ == path);
        }
        if r != before {
            assert(r.drop_last() =~= before);
            assert forall|i: int| 0 <= i < r.len() implies (#[trigger] r[i]).decision
                == RefreshDecision::Remove && !is_current(discovery, r[i].path@) && names_path(
                prior,
                r[i].path@,
            ) by {
                if i < before.len() {
                    assert(r[i] == before[i]);
                }
            }
        } else {
            if r.len() != before.len() {
                assert(false);
            }
        }
    } else {
        assert(r.filter(p).len() == 0);
    }
}

/// Every recorded path that is gone is removed exactly once, however often it was
/// recorded; a path that is still there is never removed.
pub proof fn removals_are_exact(
    prior: Seq<PriorFileRecord>,
    discovery: SourceDiscovery,
    path: Seq<char>,
)
    ensures
        removals(prior, discovery).filter(|e: RefreshEntry| e.path@ == path).len()
            == if names_path(prior, path) && !is_current(discovery, path) {
            1nat
        } else {
            0nat
        },
{
    lemma_removals(prior, discovery, path);
}

/// Why a cached file cannot be planned with, if it cannot; `before` is the path of
/// the file before it.
pub open spec fn file_fault(before: Option<Seq<char>>, file: CandidateFileRecord) -> Option<
    Seq<char>,
> {
    if before is Some && !text_lt(before->0, file.path@) {
        Some("snapshot file paths are not strictly sorted and unique"@)
    } else if rejection(encode_utf8(file.path@)) is Some {
        Some("snapshot contains an invalid project path"@)
    } else if forall|l: Language| l.tag() != file.language@ {
        Some("snapshot contains an unknown language"@)
    } else if !is_canonical_identity(file.package_assignment@, normal_path(file.path@)) {
        Some("snapshot contains a non-canonical package assignment"@)
    } else {
        None
    }
}

/// The normal form of a path.
pub open spec fn normal_path(path: Seq<char>) -> Seq<char> {
    decode_utf8(crate::project::path::joined(crate::project::path::names(encode_utf8(path))))
}

/// The path of the file before position `i`.
pub open spec fn path_before(files: Seq<CandidateFileRecord>, i: int) -> Option<Seq<char>> {
    if i > 0 {
        Some(files[i - 1].path@)
    } else {
        None
    }
}

/// Every file before position `i` can be planned with.
pub open spec fn files_ok(files: Seq<CandidateFileRecord>, i: int) -> bool {
    forall|j: int| 0 <= j < i ==> file_fault(path_before(files, j), #[trigger] files[j]) is None
}

/// The first file that cannot be planned with decides the failure.
pub open spec fn is_first_fault(files: Seq<CandidateFileRecord>, e: CliError) -> bool {
    exists|i: int|
        0 <= i < files.len() && files_ok(files, i) && file_fault(
            path_before(files, i),
            #[trigger] files[i],
        ) is Some && e.is_cache(file_fault(path_before(files, i), files[i])->0)
}

/// The record of a cached file, with its path in normal form.
pub open spec fn is_prior_of(
    file: CandidateFileRecord,
    record: PriorFileRecord,
    tier: ResolverTier,
) -> bool {
    &&& record.path@ == normal_path(file.path@)
    &&& record.language.tag() == file.language@
    &&& record.content_hash == file.content_hash
    &&& record.size_bytes == file.size_bytes
    &&& record.mtime == file.mtime
    &&& record.package_assignment == file.package_assignment
    &&& record.tier == tier
}

/// The snapshot can be planned with at a tier.
pub open spec fn prior_valid(snapshot: LoadedSnapshot, tier: ResolverTier) -> bool {
    has_tier(snapshot.tier_graphs@, tier.cached()) && files_ok(
        snapshot.files@,
        snapshot.files@.len() as int,
    )
}

/// Why a snapshot cannot be planned with: its tier is missing, or else its first
/// faulty file.
pub open spec fn is_prior_failure(snapshot: LoadedSnapshot, tier: ResolverTier, e: CliError) -> bool {
    if !has_tier(snapshot.tier_graphs@, tier.cached()) {
        e.is_cache("requested resolver tier is absent from snapshot"@)
    } else {
        is_first_fault(snapshot.files@, e)
    }
}

/// The refresh metadata of a snapshot's files, in their order.
pub open spec fn are_priors_of(
    snapshot: LoadedSnapshot,
    records: Seq<PriorFileRecord>,
    tier: ResolverTier,
) -> bool {
    records.len() == snapshot.files@.len() && forall|i: int|
        0 <= i < records.len() ==> is_prior_of(snapshot.files@[i], #[trigger] records[i], tier)
}

/// Reads the refresh metadata of one cached file.
fn read_prior(before: Option<&str>, file: &CandidateFileRecord, tier: ResolverTier) -> (r: Result<
    PriorFileRecord,
    CliError,
>)
    ensures
        ({
            let fault = file_fault(
                match before {
                    Some(b) => Some(b@),
                    None => None,
                },
                *file,
            );
            match r {
                Ok(record) => fault is None && is_prior_of(*file, record, tier),
                Err(e) => fault is Some && e.is_cache(fault->0),
            }
        }),
{
    match before {
        Some(b) => {
            if !text_less(b, file.path.as_str()) {
                return Err(
                    CliError::Cache(
                        "snapshot file paths are not strictly sorted and unique".to_owned(),
                    ),
                );
            }
        },
        None => {},
    }
    let path = match ProjectPath::new(file.path.as_str().as_bytes()) {
        Ok(path) => path,
        Err(_) => {
            return Err(CliError::Cache("snapshot contains an invalid project path".to_owned()));
        },
    };
    proof {
        encode_utf8_decode_utf8(path@);
        assert(path@ == normal_path(file.path@));
    }
    let language = match Language::from_tag(file.language.as_str()) {
        Some(language) => language,
        None => {
            return Err(CliError::Cache("snapshot contains an unknown language".to_owned()));
        },
    };
    assert(language.tag() == file.language@);
    if !SourcePackageAssignment::is_canonical_identity_for_path(
        file.package_assignment.as_str(),
        path.as_str(),
    ) {
        return Err(
            CliError::Cache("snapshot contains a non-canonical package assignment".to_owned()),
        );
    }
    Ok(
        PriorFileRecord {
            path,
            language,
            content_hash: file.content_hash,
            size_bytes: file.size_bytes,
            mtime: file.mtime,
            package_assignment: file.package_assignment.clone(),
            tier,
        },
    )
}

impl PriorFileRecord {
    /// Converts a loaded cache candidate into refresh metadata only after
    /// validating the persistence invariants needed for reuse.
    pub fn from_loaded_snapshot(snapshot: &LoadedSnapshot, requested_tier: ResolverTier) -> (r:
        Result<Vec<Self>, CliError>)
        ensures
            r is Ok <==> prior_valid(*snapshot, requested_tier),
            r matches Ok(records) ==> are_priors_of(*snapshot, records@, requested_tier),
            r matches Err(e) ==> is_prior_failure(*snapshot, requested_tier, e),
    {
        let cache_tier: ResolverCacheTier = ResolverCacheTier::from(requested_tier);
        if !contains_tier(&snapshot.tier_graphs, cache_tier) {
            return Err(
                CliError::Cache("requested resolver tier is absent from snapshot".to_owned()),
            );
        }
        let files = &snapshot.files;
        let mut records: Vec<PriorFileRecord> = Vec::new();
        let mut i: usize = 0;
        while i < files.len()
            invariant
                i <= files.len(),
                files@ == snapshot.files@,
                has_tier(snapshot.tier_graphs@, requested_tier.cached()),
                records@.len() == i,
                files_ok(files@, i as int),
                forall|j: int|
                    0 <= j < i ==> is_prior_of(files@[j], #[trigger] records@[j], requested_tier),
            decreases files.len() - i,
        {
            let before: Option<&str> = if i > 0 {
                Some(files[i - 1].path.as_str())
            } else {
                None
            };
            match read_prior(before, &files[i], requested_tier) {
                Ok(record) => records.push(record),
                Err(e) => {
                    assert(is_first_fault(files@, e));
                    return Err(e);
                },
            }
            i += 1;
        }
        Ok(records)
    }
}

} // verus!
