//! Candidate assembly, stage by stage.
//!
//! One attempt at a refresh runs through these stages: the metadata plan
//! ([`begin_attempt`]), the content of the files that the plan needs
//! ([`Attempt::absorb_sources`]), the facts that can be reused and the files to
//! extract ([`SourcedAttempt::select_work`]), the outcomes of the extractions
//! ([`AttemptState::apply_outcome`]) and the candidate ([`finish`]). Reading files
//! and running workers lie between the stages.

use vstd::prelude::*;
use vstd::string::*;
use vstd::utf8::*;
use crate::cache::fingerprint::{
    all_tags, blake3_digest, blake3_of, compatibility_preimage, language_preimage,
    package_preimage, CompatibilityFingerprint, LanguageFeatureFingerprint, PackageFingerprint,
};
use crate::cache::snapshot::{
    file_paths, CandidateFileRecord, CompatibilityRecord, LoadedSnapshot,
};
use crate::config::ResolverTier;
use crate::deadline::{heeds, is_interruption, may_go_on, Cancellation, Deadline};
use crate::error::CliError;
use crate::graph::{
    duplicate_message, facts_valid, first_duplicate, validate_file_facts, FileFacts,
};
use crate::inventory::types::{
    InventoryFile, MaterializedCandidate, OmissionReason, OmittedFile, SourceCandidate,
    SourceDiscovery,
};
use crate::ordering::{is_stable_sort, reversed};
use crate::package_assignment::apply::{facts_packaged, selected_package};
use crate::package_assignment::records::{record, texts};
use crate::package_assignment::types::{
    ManifestInput, PackageAssignmentSet, PackageDiagnostic, PackageDiagnosticKind,
    SourcePackageAssignment,
};
use crate::refresh::plan::{
    are_priors_of, finalized, is_prior_failure, latest_candidate, planned, prior_valid,
    CandidateIndex, PriorFileRecord, RefreshDecision, RefreshEntry, RefreshInputs, RefreshPlan,
};
use crate::refresh::prepare::finish::{
    assemble, identity_ok, is_assembled, is_first_row_fault, is_row, names_file,
    AssembledCandidate, OmissionSources,
    RowSources,
};
use crate::refresh::prepare::pool::{
    may_result, run_pool_thread, ExtractWorkItem, FactsExtractor, IndexedOutcome, WorkerSlot,
};
use crate::refresh::prepare::recovery::{
    bounded_detail, full_detail, is_longest_fit, ExtractionOutcome, MAX_DETAIL_BYTES,
};
use crate::refresh::prepare::retry::{attempt_failure, AttemptError};
use crate::text::same_text;
use crate::text_map::{strictly_ascending, TextMap};
use crate::worker::{WorkerErrorCode, WorkerFailure};

verus! {

/// What a refresh is asked to do.
pub struct PrepareCandidateInputs<'a> {
    pub force: bool,
    pub trust_mtime: bool,
    pub tier: ResolverTier,
    pub prior: Option<&'a LoadedSnapshot>,
    pub prepared_at_ns: u64,
}

/// A manifest changed while it was being read.
pub open spec fn manifests_drifted(d: Seq<PackageDiagnostic>) -> bool {
    exists|i: int|
        0 <= i < d.len() && (#[trigger] d[i]).kind == PackageDiagnosticKind::ChangedDuringRead
}

fn any_drift(d: &Vec<PackageDiagnostic>) -> (r: bool)
    ensures
        r == manifests_drifted(d@),
{
    let mut i: usize = 0;
    while i < d.len()
        invariant
            i <= d.len(),
            forall|j: int|
                0 <= j < i ==> (#[trigger] d@[j]).kind != PackageDiagnosticKind::ChangedDuringRead,
        decreases d.len() - i,
    {
        if d[i].kind == PackageDiagnosticKind::ChangedDuringRead {
            return true;
        }
        i += 1;
    }
    false
}

/// The last assignment of a path.
pub open spec fn latest_assignment(
    assignments: Seq<SourcePackageAssignment>,
    path: Seq<char>,
) -> Option<SourcePackageAssignment>
    decreases assignments.len(),
{
    if assignments.len() == 0 {
        None
    } else if assignments.last().source_path@ == path {
        Some(assignments.last())
    } else {
        latest_assignment(assignments.drop_last(), path)
    }
}

/// The map holds the identity of the path's assignment, if it has one.
pub open spec fn identity_found(
    m: Map<Seq<char>, String>,
    assignments: Seq<SourcePackageAssignment>,
    path: Seq<char>,
) -> bool {
    match latest_assignment(assignments, path) {
        Some(a) => m.contains_key(path) && m[path]@ == record(a.fields()),
        None => !m.contains_key(path),
    }
}

/// The map holds the canonical identity of every assigned path.
pub open spec fn is_identity_map(
    m: Map<Seq<char>, String>,
    assignments: Seq<SourcePackageAssignment>,
) -> bool {
    forall|path: Seq<char>| #[trigger] identity_found(m, assignments, path)
}

fn identity_map(assignments: &Vec<SourcePackageAssignment>) -> (m: TextMap<String>)
    ensures
        is_identity_map(m@, assignments@),
{
    let mut m: TextMap<String> = TextMap::new();
    let mut i: usize = 0;
    assert(assignments@.take(0) =~= Seq::<SourcePackageAssignment>::empty());
    while i < assignments.len()
        invariant
            i <= assignments.len(),
            is_identity_map(m@, assignments@.take(i as int)),
        decreases assignments.len() - i,
    {
        let ghost before = assignments@.take(i as int);
        let ghost more = assignments@.take(i as int + 1);
        let ghost old_map = m@;
        m.insert(assignments[i].source_path.to_text(), assignments[i].canonical_identity());
        proof {
            assert(more.drop_last() =~= before);
            assert(more.last() == assignments@[i as int]);
            assert forall|path: Seq<char>| #[trigger] identity_found(m@, more, path) by {
                assert(identity_found(old_map, before, path));
                if path != assignments@[i as int].source_path@ {
                    assert(latest_assignment(more, path) == latest_assignment(before, path));
                }
            }
        }
        i += 1;
    }
    assert(assignments@.take(assignments@.len() as int) =~= assignments@);
    m
}

/// The canonical records of the manifests.
pub open spec fn manifest_records(m: Seq<ManifestInput>) -> Seq<Seq<char>> {
    m.map_values(|x: ManifestInput| record(x.fields()))
}

/// The canonical records of the assignments.
pub open spec fn assignment_records(a: Seq<SourcePackageAssignment>) -> Seq<Seq<char>> {
    a.map_values(|x: SourcePackageAssignment| record(x.fields()))
}

/// The compatibility of facts extracted now with this package selection.
pub open spec fn is_compatibility_now(
    c: CompatibilityRecord,
    packages: PackageAssignmentSet,
    prepared_at_ns: u64,
) -> bool {
    &&& c.language_fingerprint.bytes@ == blake3_of(language_preimage(all_tags()))
    &&& c.package_fingerprint.bytes@ == blake3_of(
        package_preimage(
            manifest_records(packages.manifests@),
            assignment_records(packages.assignments@),
        ),
    )
    &&& c.id.bytes@ == blake3_of(
        compatibility_preimage(c.language_fingerprint.bytes@, c.package_fingerprint.bytes@),
    )
    &&& c.created_at_ns == prepared_at_ns
}

/// The compatibilities agree in all their parts.
pub open spec fn same_compatibility(a: CompatibilityRecord, b: CompatibilityRecord) -> bool {
    &&& a.id.bytes@ == b.id.bytes@
    &&& a.language_fingerprint.bytes@ == b.language_fingerprint.bytes@
    &&& a.package_fingerprint.bytes@ == b.package_fingerprint.bytes@
}

/// The snapshot that may be reused: the one asked for, if it is compatible.
pub open spec fn usable_prior(prior: Option<&LoadedSnapshot>, c: CompatibilityRecord) -> Option<
    &LoadedSnapshot,
> {
    match prior {
        Some(p) => if same_compatibility(p.compatibility, c) {
            Some(p)
        } else {
            None
        },
        None => None,
    }
}

/// One attempt at a refresh, with its metadata plan.
pub struct Attempt<'a> {
    pub discovery: SourceDiscovery,
    pub packages: PackageAssignmentSet,
    pub compatibility: CompatibilityRecord,
    pub assignments: TextMap<String>,
    pub prior: Option<&'a LoadedSnapshot>,
    pub prior_records: Vec<PriorFileRecord>,
    pub plan: RefreshPlan,
}

/// What the attempt holds follows from its inputs.
pub open spec fn is_attempt(
    a: Attempt<'_>,
    inputs: PrepareCandidateInputs<'_>,
    discovery: SourceDiscovery,
    packages: PackageAssignmentSet,
) -> bool {
    &&& a.discovery == discovery
    &&& a.packages == packages
    &&& is_compatibility_now(a.compatibility, packages, inputs.prepared_at_ns)
    &&& is_identity_map(a.assignments@, packages.assignments@)
    &&& a.prior == usable_prior(inputs.prior, a.compatibility)
    &&& match a.prior {
        Some(p) => prior_valid(*p, inputs.tier) && are_priors_of(
            *p,
            a.prior_records@,
            inputs.tier,
        ),
        None => a.prior_records@.len() == 0,
    }
    &&& is_stable_sort(
        planned(
            discovery,
            a.prior_records@,
            a.assignments@,
            inputs.force,
            inputs.trust_mtime,
            inputs.tier,
        ),
        a.plan.entries@,
    )
}

/// The attempt fails because the compatible snapshot cannot be planned with.
pub open spec fn is_prior_fault(
    inputs: PrepareCandidateInputs<'_>,
    packages: PackageAssignmentSet,
    e: CliError,
) -> bool {
    exists|c: CompatibilityRecord|
        {
            &&& #[trigger] is_compatibility_now(c, packages, inputs.prepared_at_ns)
            &&& usable_prior(inputs.prior, c) is Some
            &&& !prior_valid(*usable_prior(inputs.prior, c)->0, inputs.tier)
            &&& is_prior_failure(*usable_prior(inputs.prior, c)->0, inputs.tier, e)
        }
}

/// Plans an attempt from what was discovered and from the package selection. A
/// manifest that changed while it was read is drift.
pub fn begin_attempt<'a>(
    inputs: &PrepareCandidateInputs<'a>,
    discovery: SourceDiscovery,
    packages: PackageAssignmentSet,
) -> (r: Result<Attempt<'a>, AttemptError>)
    ensures
        match r {
            Err(AttemptError::Drift) => manifests_drifted(packages.diagnostics@),
            Err(AttemptError::Fatal(e)) => !manifests_drifted(packages.diagnostics@)
                && is_prior_fault(*inputs, packages, e),
            Ok(a) => !manifests_drifted(packages.diagnostics@) && is_attempt(
                a,
                *inputs,
                discovery,
                packages,
            ),
        },
{
    if any_drift(&packages.diagnostics) {
        return Err(AttemptError::Drift);
    }
    let assignments = identity_map(&packages.assignments);
    let language_fingerprint = LanguageFeatureFingerprint::current();
    let manifests = packages.manifest_fingerprint_records();
    let selected = packages.assignment_fingerprint_records();
    assert(texts(manifests@) =~= manifest_records(packages.manifests@));
    assert(texts(selected@) =~= assignment_records(packages.assignments@));
    let package_fingerprint = PackageFingerprint::from_selection(&manifests, &selected);
    let compatibility = CompatibilityRecord {
        id: CompatibilityFingerprint::new(language_fingerprint, package_fingerprint),
        language_fingerprint,
        package_fingerprint,
        created_at_ns: inputs.prepared_at_ns,
    };
    assert(is_compatibility_now(compatibility, packages, inputs.prepared_at_ns));
    let prior: Option<&'a LoadedSnapshot> = match inputs.prior {
        Some(p) => {
            if p.compatibility.id.same(&compatibility.id)
                && p.compatibility.language_fingerprint.same(&language_fingerprint)
                && p.compatibility.package_fingerprint.same(&package_fingerprint) {
                Some(p)
            } else {
                None
            }
        },
        None => None,
    };
    let prior_records = match prior {
        Some(p) => match PriorFileRecord::from_loaded_snapshot(p, inputs.tier) {
            Ok(records) => records,
            Err(e) => {
                assert(is_prior_fault(*inputs, packages, e));
                return Err(AttemptError::Fatal(e));
            },
        },
        None => Vec::new(),
    };
    let plan = RefreshPlan::from_metadata(
        RefreshInputs {
            discovery: &discovery,
            prior: &prior_records,
            package_assignments: &assignments,
            force: inputs.force,
            trust_mtime: inputs.trust_mtime,
            tier: inputs.tier,
        },
    );
    Ok(Attempt { discovery, packages, compatibility, assignments, prior, prior_records, plan })
}

/// The action cannot be carried out without the content of the file.
pub open spec fn needs_source(d: RefreshDecision) -> bool {
    d == RefreshDecision::NeedHash || d == RefreshDecision::Extract
}

/// The candidate whose content the entry needs, if there is one.
pub open spec fn wanted(e: RefreshEntry, candidates: Seq<SourceCandidate>) -> Option<
    SourceCandidate,
> {
    if needs_source(e.decision) {
        latest_candidate(candidates, e.path@)
    } else {
        None
    }
}

/// The candidates whose content a plan needs, in plan order.
pub open spec fn wanted_sources(
    entries: Seq<RefreshEntry>,
    candidates: Seq<SourceCandidate>,
) -> Seq<SourceCandidate>
    decreases entries.len(),
{
    if entries.len() == 0 {
        Seq::empty()
    } else {
        let before = wanted_sources(entries.drop_last(), candidates);
        match wanted(entries.last(), candidates) {
            Some(c) => before.push(c),
            None => before,
        }
    }
}

impl<'a> Attempt<'a> {
    /// The candidates whose content the plan needs, in plan order.
    pub fn sources_to_read(&self) -> (r: Vec<&SourceCandidate>)
        ensures
            r@.len() == wanted_sources(self.plan.entries@, self.discovery.candidates@).len(),
            forall|i: int|
                0 <= i < r@.len() ==> *(#[trigger] r@[i]) == wanted_sources(
                    self.plan.entries@,
                    self.discovery.candidates@,
                )[i],
    {
        let candidates = &self.discovery.candidates;
        let entries = &self.plan.entries;
        let index = CandidateIndex::new(candidates);
        let mut r: Vec<&SourceCandidate> = Vec::new();
        let mut i: usize = 0;
        assert(entries@.take(0) =~= Seq::<RefreshEntry>::empty());
        while i < entries.len()
            invariant
                i <= entries.len(),
                index.wf(),
                index@ == candidates@,
                r@.len() == wanted_sources(entries@.take(i as int), candidates@).len(),
                forall|j: int|
                    0 <= j < r@.len() ==> *(#[trigger] r@[j]) == wanted_sources(
                        entries@.take(i as int),
                        candidates@,
                    )[j],
            decreases entries.len() - i,
        {
            let entry = &entries[i];
            assert(entries@.take(i as int + 1).drop_last() =~= entries@.take(i as int));
            assert(entries@.take(i as int + 1).last() == entries@[i as int]);
            if entry.decision == RefreshDecision::NeedHash || entry.decision
                == RefreshDecision::Extract {
                match index.find(candidates, entry.path.as_str()) {
                    Some(candidate) => r.push(candidate),
                    None => {},
                }
            }
            i += 1;
        }
        assert(entries@.take(entries@.len() as int) =~= entries@);
        r
    }
}

/// A file changed while it was being read.
pub open spec fn reads_drifted(reads: Seq<MaterializedCandidate>) -> bool {
    exists|i: int| 0 <= i < reads.len() && is_drift(#[trigger] reads[i])
}

/// The file changed while it was being read.
pub open spec fn is_drift(read: MaterializedCandidate) -> bool {
    read matches MaterializedCandidate::Omitted(o) && o.reason == OmissionReason::ChangedDuringRead
}

/// The files that were read, by path; the last read of a path counts.
pub open spec fn files_read(reads: Seq<MaterializedCandidate>) -> Map<Seq<char>, InventoryFile>
    decreases reads.len(),
{
    if reads.len() == 0 {
        Map::empty()
    } else {
        let before = files_read(reads.drop_last());
        match reads.last() {
            MaterializedCandidate::File(file) => before.insert(file.path@, file),
            MaterializedCandidate::Omitted(_) => before,
        }
    }
}

/// The reads that gave no file, in their order.
pub open spec fn reads_omitted(reads: Seq<MaterializedCandidate>) -> Seq<OmittedFile>
    decreases reads.len(),
{
    if reads.len() == 0 {
        Seq::empty()
    } else {
        let before = reads_omitted(reads.drop_last());
        match reads.last() {
            MaterializedCandidate::File(_) => before,
            MaterializedCandidate::Omitted(o) => before.push(o),
        }
    }
}

/// Each file has the digest of its bytes.
pub open spec fn are_hashes_of(
    hashes: Map<Seq<char>, [u8; 32]>,
    files: Map<Seq<char>, InventoryFile>,
) -> bool {
    &&& forall|p: Seq<char>| #[trigger] hashes.contains_key(p) <==> files.contains_key(p)
    &&& forall|p: Seq<char>| #[trigger]
        hashes.contains_key(p) ==> hashes[p]@ == blake3_of(files[p].bytes@)
}

/// The first entry of a path.
pub open spec fn first_entry(entries: Seq<RefreshEntry>, path: Seq<char>) -> Option<int>
    decreases entries.len(),
{
    if entries.len() == 0 {
        None
    } else if entries[0].path@ == path {
        Some(0)
    } else {
        match first_entry(entries.drop_first(), path) {
            Some(i) => Some(i + 1),
            None => None,
        }
    }
}

/// The plan once an omission has taken the place of the first action on its path.
pub open spec fn omit_entry(entries: Seq<RefreshEntry>, o: OmittedFile) -> Seq<RefreshEntry> {
    match first_entry(entries, o.path@) {
        Some(i) => entries.update(
            i,
            RefreshEntry {
                path: entries[i].path,
                decision: RefreshDecision::Omit { reason: o.reason, impact: o.impact },
            },
        ),
        None => entries,
    }
}

/// The plan once all omissions have taken the place of the actions on their paths.
pub open spec fn omit_entries(entries: Seq<RefreshEntry>, omissions: Seq<OmittedFile>) -> Seq<
    RefreshEntry,
>
    decreases omissions.len(),
{
    if omissions.len() == 0 {
        entries
    } else {
        omit_entry(omit_entries(entries, omissions.drop_last()), omissions.last())
    }
}

fn find_entry(entries: &Vec<RefreshEntry>, path: &str) -> (r: Option<usize>)
    ensures
        match r {
            Some(i) => first_entry(entries@, path@) == Some(i as int) && i < entries@.len(),
            None => first_entry(entries@, path@) is None,
        },
{
    let mut i: usize = 0;
    assert(entries@.skip(0) =~= entries@);
    while i < entries.len()
        invariant
            i <= entries.len(),
            first_entry(entries@, path@) == match first_entry(entries@.skip(i as int), path@) {
                Some(k) => Some(k + i),
                None => None,
            },
        decreases entries.len() - i,
    {
        assert(entries@.skip(i as int)[0] == entries@[i as int]);
        assert(entries@.skip(i as int).drop_first() =~= entries@.skip(i as int + 1));
        if same_text(entries[i].path.as_str(), path) {
            return Some(i);
        }
        i += 1;
    }
    None
}

/// An attempt whose needed files have been read.
pub struct SourcedAttempt<'a> {
    pub attempt: Attempt<'a>,
    pub files: TextMap<InventoryFile>,
    pub extra_omissions: Vec<OmittedFile>,
}

/// What the attempt holds follows from the plan and from the reads.
pub open spec fn is_sourced(
    before: Attempt<'_>,
    reads: Seq<MaterializedCandidate>,
    s: SourcedAttempt<'_>,
) -> bool {
    &&& s.attempt.discovery == before.discovery
    &&& s.attempt.packages == before.packages
    &&& s.attempt.compatibility == before.compatibility
    &&& s.attempt.assignments == before.assignments
    &&& s.attempt.prior == before.prior
    &&& s.attempt.prior_records == before.prior_records
    &&& s.files@ == files_read(reads)
    &&& s.extra_omissions@ == reads_omitted(reads)
    &&& is_hashed_plan(before, reads, s.attempt.plan.entries@)
}

/// The entries are those of the plan with the hashes of the files applied, and the
/// omissions after them.
pub open spec fn is_hashed_plan(
    before: Attempt<'_>,
    reads: Seq<MaterializedCandidate>,
    entries: Seq<RefreshEntry>,
) -> bool {
    exists|hashes: Map<Seq<char>, [u8; 32]>|
        {
            &&& #[trigger] are_hashes_of(hashes, files_read(reads))
            &&& entries == omit_entries(
                before.plan.entries@.map_values(
                    |e: RefreshEntry|
                        finalized(
                            e,
                            hashes,
                            before.prior_records@,
                            before.assignments@,
                            before.discovery.candidates@,
                        ),
                ),
                reads_omitted(reads),
            )
        }
}

impl<'a> Attempt<'a> {
    /// Takes in the content of the files that the plan needs. A file that changed
    /// while it was read is drift; any other that could not be read is left out.
    pub fn absorb_sources(self, reads: Vec<MaterializedCandidate>) -> (r: Result<
        SourcedAttempt<'a>,
        AttemptError,
    >)
        ensures
            match r {
                Err(AttemptError::Drift) => reads_drifted(reads@),
                Err(AttemptError::Fatal(_)) => false,
                Ok(s) => !reads_drifted(reads@) && is_sourced(self, reads@, s),
            },
    {
        let ghost before = self;
        let ghost all = reads@;
        let mut rest = reversed(reads);
        let mut files: TextMap<InventoryFile> = TextMap::new();
        let mut hashes: TextMap<[u8; 32]> = TextMap::new();
        let mut extra_omissions: Vec<OmittedFile> = Vec::new();
        let ghost mut done: int = 0;
        proof {
            assert(all.take(0) =~= Seq::<MaterializedCandidate>::empty());
            assert(rest@ =~= all.skip(0).reverse());
        }
        while rest.len() > 0
            invariant
                0 <= done <= all.len(),
                all == reads@,
                rest@ == all.skip(done).reverse(),
                rest@.len() == all.len() - done,
                files@ == files_read(all.take(done)),
                are_hashes_of(hashes@, files@),
                extra_omissions@ == reads_omitted(all.take(done)),
                forall|i: int| 0 <= i < done ==> !is_drift(#[trigger] all[i]),
            decreases rest.len(),
        {
            let next = rest.pop();
            match next {
                None => {},
                Some(read) => {
                    proof {
                        assert(read == all[done]);
                        assert(all.take(done + 1).drop_last() =~= all.take(done));
                        assert(all.take(done + 1).last() == read);
                        assert(rest@ =~= all.skip(done + 1).reverse());
                    }
                    match read {
                        MaterializedCandidate::File(file) => {
                            let ghost old_hashes = hashes@;
                            let ghost old_files = files@;
                            let digest = blake3_digest(file.bytes.as_slice());
                            let path = file.path.to_text();
                            hashes.insert(file.path.to_text(), digest);
                            files.insert(path, file);
                            proof {
                                assert forall|p: Seq<char>| #[trigger]
                                    hashes@.contains_key(p) <==> files@.contains_key(p) by {
                                    assert(old_hashes.contains_key(p) <==> old_files.contains_key(
                                        p,
                                    ));
                                }
                                assert forall|p: Seq<char>| #[trigger]
                                    hashes@.contains_key(p) implies hashes@[p]@ == blake3_of(
                                    files@[p].bytes@,
                                ) by {
                                    assert(old_hashes.contains_key(p) || !old_hashes.contains_key(
                                        p,
                                    ));
                                }
                            }
                        },
                        MaterializedCandidate::Omitted(o) => {
                            if o.reason == OmissionReason::ChangedDuringRead {
                                assert(is_drift(all[done]));
                                return Err(AttemptError::Drift);
                            }
                            extra_omissions.push(o);
                        },
                    }
                    proof {
                        done = done + 1;
                    }
                },
            }
        }
        assert(all.take(all.len() as int) =~= all);
        let mut attempt = self;
        attempt.plan.finalize_hashes(
            &hashes,
            &attempt.prior_records,
            &attempt.assignments,
            &attempt.discovery.candidates,
        );
        let ghost decided = attempt.plan.entries@;
        let mut i: usize = 0;
        let ghost os = extra_omissions@;
        assert(os.take(0) =~= Seq::<OmittedFile>::empty());
        while i < extra_omissions.len()
            invariant
                i <= extra_omissions.len(),
                os == extra_omissions@,
                attempt.plan.entries@ == omit_entries(decided, os.take(i as int)),
                attempt.discovery == before.discovery,
                attempt.packages == before.packages,
                attempt.compatibility == before.compatibility,
                attempt.assignments == before.assignments,
                attempt.prior == before.prior,
                attempt.prior_records == before.prior_records,
            decreases extra_omissions.len() - i,
        {
            let o = &extra_omissions[i];
            assert(os.take(i as int + 1).drop_last() =~= os.take(i as int));
            assert(os.take(i as int + 1).last() == os[i as int]);
            match find_entry(&attempt.plan.entries, o.path.as_str()) {
                Some(at) => {
                    let path = attempt.plan.entries[at].path.clone();
                    attempt.plan.entries.set(
                        at,
                        RefreshEntry {
                            path,
                            decision: RefreshDecision::Omit { reason: o.reason, impact: o.impact },
                        },
                    );
                },
                None => {},
            }
            i += 1;
        }
        proof {
            assert(os.take(os.len() as int) =~= os);
            assert(are_hashes_of(hashes@, files_read(all)));
        }
        Ok(SourcedAttempt { attempt, files, extra_omissions })
    }
}

/// The last file of a path in a snapshot.
pub open spec fn latest_file(files: Seq<CandidateFileRecord>, path: Seq<char>) -> Option<
    CandidateFileRecord,
>
    decreases files.len(),
{
    if files.len() == 0 {
        None
    } else if files.last().path@ == path {
        Some(files.last())
    } else {
        latest_file(files.drop_last(), path)
    }
}

/// The last file of a path in the snapshot that may be reused.
pub open spec fn prior_file(prior: Option<&LoadedSnapshot>, path: Seq<char>) -> Option<
    CandidateFileRecord,
> {
    match prior {
        Some(p) => latest_file(p.files@, path),
        None => None,
    }
}

fn find_prior_file<'a>(prior: Option<&'a LoadedSnapshot>, path: &str) -> (r: Option<
    &'a CandidateFileRecord,
>)
    ensures
        match r {
            Some(f) => prior_file(prior, path@) == Some(*f),
            None => prior_file(prior, path@) is None,
        },
{
    match prior {
        None => None,
        Some(p) => {
            let files = &p.files;
            let mut end = files.len();
            assert(files@.take(files@.len() as int) =~= files@);
            while end > 0
                invariant
                    end <= files.len(),
                    files@ == p.files@,
                    prior == Some(p),
                    latest_file(files@, path@) == latest_file(files@.take(end as int), path@),
                decreases end,
            {
                assert(files@.take(end as int).last() == files@[end - 1]);
                assert(files@.take(end as int).drop_last() =~= files@.take(end - 1));
                if same_text(files[end - 1].path.as_str(), path) {
                    return Some(&files[end - 1]);
                }
                end -= 1;
            }
            None
        },
    }
}

/// Why cached facts cannot stand for a current source, if they cannot.
pub open spec fn reuse_fault(
    prior: CandidateFileRecord,
    candidate: Option<SourceCandidate>,
    assignments: Map<Seq<char>, String>,
    path: Seq<char>,
) -> Option<Seq<char>> {
    match candidate {
        None => Some("reused facts lack current metadata"@),
        Some(c) => match c.language {
            None => Some("reused facts lack current language"@),
            Some(language) => if prior.path@ == c.path@ && prior.language@ == language.tag()
                && assignments.contains_key(path) && assignments[path]@
                == prior.package_assignment@ && prior.facts.file@ == prior.path@
                && prior.facts.lang@ == prior.language@ {
                None
            } else {
                Some("reused facts identity does not match current source"@)
            },
        },
    }
}

/// Checks that cached facts can stand for a current source.
fn validate_reused(
    prior: &CandidateFileRecord,
    candidate: Option<&SourceCandidate>,
    assignments: &TextMap<String>,
    path: &str,
) -> (r: Result<(), CliError>)
    ensures
        ({
            let fault = reuse_fault(
                *prior,
                match candidate {
                    Some(c) => Some(*c),
                    None => None,
                },
                assignments@,
                path@,
            );
            match r {
                Ok(()) => fault is None,
                Err(e) => fault is Some && e.is_cache(fault->0),
            }
        }),
{
    let candidate = match candidate {
        Some(c) => c,
        None => {
            return Err(CliError::Cache("reused facts lack current metadata".to_owned()));
        },
    };
    let language = match candidate.language {
        Some(language) => language,
        None => {
            return Err(CliError::Cache("reused facts lack current language".to_owned()));
        },
    };
    let assigned = match assignments.get(path) {
        Some(identity) => same_text(identity.as_str(), prior.package_assignment.as_str()),
        None => false,
    };
    if !same_text(prior.path.as_str(), candidate.path.as_str()) || !same_text(
        prior.language.as_str(),
        language.as_str(),
    ) || !assigned || !same_text(prior.facts.file.as_str(), prior.path.as_str()) || !same_text(
        prior.facts.lang.as_str(),
        prior.language.as_str(),
    ) {
        return Err(
            CliError::Cache("reused facts identity does not match current source".to_owned()),
        );
    }
    Ok(())
}

/// How many entries are to be extracted.
pub open spec fn extract_count(entries: Seq<RefreshEntry>) -> nat
    decreases entries.len(),
{
    if entries.len() == 0 {
        0
    } else {
        extract_count(entries.drop_last()) + if entries.last().decision
            == RefreshDecision::Extract {
            1nat
        } else {
            0nat
        }
    }
}

/// Why the work of an entry cannot be selected, if it cannot.
pub open spec fn work_fault(s: SourcedAttempt<'_>, i: int) -> Option<CliFault> {
    let entries = s.attempt.plan.entries@;
    let path = entries[i].path@;
    match entries[i].decision {
        RefreshDecision::ReuseFacts => match prior_file(s.attempt.prior, path) {
            None => Some(CliFault::Cache("refresh plan selected missing prior facts"@)),
            Some(f) => match reuse_fault(
                f,
                latest_candidate(s.attempt.discovery.candidates@, path),
                s.attempt.assignments@,
                path,
            ) {
                Some(message) => Some(CliFault::Cache(message)),
                None => None,
            },
        },
        RefreshDecision::Extract => if !s.files@.contains_key(path) {
            Some(CliFault::Index("extract action lacks materialized source"@))
        } else if extract_count(entries.take(i + 1)) + 1 > u64::MAX {
            Some(CliFault::Index("worker request id exhausted"@))
        } else {
            None
        },
        _ => None,
    }
}

/// A cache failure or an index failure, by its message.
pub enum CliFault {
    Cache(Seq<char>),
    Index(Seq<char>),
}

/// The failure is this fault.
pub open spec fn is_fault(e: CliError, fault: CliFault) -> bool {
    match fault {
        CliFault::Cache(message) => e.is_cache(message),
        CliFault::Index(message) => e.is_index(message),
    }
}

/// The work of every entry before position `i` can be selected.
pub open spec fn work_ok(s: SourcedAttempt<'_>, i: int) -> bool {
    forall|j: int| 0 <= j < i ==> (#[trigger] work_fault(s, j)) is None
}

/// The first entry whose work cannot be selected decides the failure.
pub open spec fn is_first_work_fault(s: SourcedAttempt<'_>, e: CliError) -> bool {
    exists|i: int|
        0 <= i < s.attempt.plan.entries@.len() && work_ok(s, i) && (#[trigger] work_fault(
            s,
            i,
        )) is Some && is_fault(e, work_fault(s, i)->0)
}

/// An entry of the path reuses facts.
pub open spec fn reuses(entries: Seq<RefreshEntry>, path: Seq<char>) -> bool {
    exists|i: int|
        0 <= i < entries.len() && (#[trigger] entries[i]).decision == RefreshDecision::ReuseFacts
            && entries[i].path@ == path
}

/// The facts are those of the reused files, and of no other.
pub open spec fn are_reused_facts(
    facts: Map<Seq<char>, FileFacts>,
    entries: Seq<RefreshEntry>,
    prior: Option<&LoadedSnapshot>,
) -> bool {
    forall|path: Seq<char>|
        {
            &&& #[trigger] facts.contains_key(path) <==> reuses(entries, path)
            &&& facts.contains_key(path) ==> prior_file(prior, path) is Some
                && facts[path]@ == prior_file(prior, path)->0.facts@
        }
}

/// One file to extract: its position in the plan and the number of its request.
#[derive(Debug, Clone, Copy, PartialEq, Eq, Structural)]
pub struct PlannedExtraction {
    pub index: usize,
    pub request_id: u64,
}

/// The files to extract, numbered in plan order from one.
pub open spec fn planned_extractions(entries: Seq<RefreshEntry>) -> Seq<PlannedExtraction>
    decreases entries.len(),
{
    if entries.len() == 0 {
        Seq::empty()
    } else {
        let before = planned_extractions(entries.drop_last());
        if entries.last().decision == RefreshDecision::Extract {
            before.push(
                PlannedExtraction {
                    index: (entries.len() - 1) as usize,
                    request_id: extract_count(entries) as u64,
                },
            )
        } else {
            before
        }
    }
}

/// The facts that an attempt reuses and the files it has to extract.
pub struct SelectedWork {
    pub facts: TextMap<FileFacts>,
    pub work: Vec<PlannedExtraction>,
}

impl<'a> SourcedAttempt<'a> {
    /// Applies the decisions to reuse facts and lists the files to extract. Requests
    /// are numbered here, in plan order, so that the outcome is independent of the
    /// order in which the extractions run.
    pub fn select_work(&self) -> (r: Result<SelectedWork, CliError>)
        ensures
            r is Ok <==> work_ok(*self, self.attempt.plan.entries@.len() as int),
            r matches Ok(w) ==> are_reused_facts(
                w.facts@,
                self.attempt.plan.entries@,
                self.attempt.prior,
            ) && w.work@ == planned_extractions(self.attempt.plan.entries@),
            r matches Err(e) ==> is_first_work_fault(*self, e),
    {
        let entries = &self.attempt.plan.entries;
        let candidates = &self.attempt.discovery.candidates;
        let index = CandidateIndex::new(candidates);
        let mut facts: TextMap<FileFacts> = TextMap::new();
        let mut work: Vec<PlannedExtraction> = Vec::new();
        let mut request_id: u64 = 1;
        let mut i: usize = 0;
        proof {
            assert(entries@.take(0) =~= Seq::<RefreshEntry>::empty());
        }
        while i < entries.len()
            invariant
                i <= entries.len(),
                entries@ == self.attempt.plan.entries@,
                index.wf(),
                index@ == candidates@,
                candidates@ == self.attempt.discovery.candidates@,
                work_ok(*self, i as int),
                are_reused_facts(facts@, entries@.take(i as int), self.attempt.prior),
                work@ == planned_extractions(entries@.take(i as int)),
                request_id == extract_count(entries@.take(i as int)) + 1,
            decreases entries.len() - i,
        {
            let entry = &entries[i];
            let ghost then = entries@.take(i as int);
            let ghost now = entries@.take(i as int + 1);
            let ghost path = entry.path@;
            proof {
                assert(now.drop_last() =~= then);
                assert(now.last() == entries@[i as int]);
                assert forall|p: Seq<char>| reuses(now, p) <==> reuses(then, p) || (entry.decision
                    == RefreshDecision::ReuseFacts && p == path) by {
                    if reuses(then, p) {
                        let k = choose|k: int|
                            0 <= k < then.len() && (#[trigger] then[k]).decision
                                == RefreshDecision::ReuseFacts && then[k].path@ == p;
                        assert(now[k].decision == RefreshDecision::ReuseFacts);
                    }
                    if entry.decision == RefreshDecision::ReuseFacts && p == path {
                        assert(now[i as int].decision == RefreshDecision::ReuseFacts);
                    }
                    if reuses(now, p) {
                        let k = choose|k: int|
                            0 <= k < now.len() && (#[trigger] now[k]).decision
                                == RefreshDecision::ReuseFacts && now[k].path@ == p;
                        if k < i {
                            assert(then[k].decision == RefreshDecision::ReuseFacts);
                        }
                    }
                }
            }
            let ghost old_facts = facts@;
            match entry.decision {
                RefreshDecision::ReuseFacts => {
                    let prior = match find_prior_file(self.attempt.prior, entry.path.as_str()) {
                        Some(prior) => prior,
                        None => {
                            let e = CliError::Cache(
                                "refresh plan selected missing prior facts".to_owned(),
                            );
                            assert(work_fault(*self, i as int) is Some);
                            assert(is_first_work_fault(*self, e));
                            return Err(e);
                        },
                    };
                    let candidate = index.find(candidates, entry.path.as_str());
                    match validate_reused(
                        prior,
                        candidate,
                        &self.attempt.assignments,
                        entry.path.as_str(),
                    ) {
                        Ok(()) => {},
                        Err(e) => {
                            assert(work_fault(*self, i as int) is Some);
                            assert(is_first_work_fault(*self, e));
                            return Err(e);
                        },
                    }
                    facts.insert(entry.path.to_text(), prior.facts.copied());
                },
                RefreshDecision::Extract => {
                    match self.files.get(entry.path.as_str()) {
                        Some(_) => {},
                        None => {
                            let e = CliError::Index(
                                "extract action lacks materialized source".to_owned(),
                            );
                            assert(work_fault(*self, i as int) is Some);
                            assert(is_first_work_fault(*self, e));
                            return Err(e);
                        },
                    }
                    work.push(PlannedExtraction { index: i, request_id });
                    match request_id.checked_add(1) {
                        Some(next) => {
                            request_id = next;
                        },
                        None => {
                            let e = CliError::Index("worker request id exhausted".to_owned());
                            assert(work_fault(*self, i as int) is Some);
                            assert(is_first_work_fault(*self, e));
                            return Err(e);
                        },
                    }
                },
                _ => {},
            }
            proof {
                assert(work_fault(*self, i as int) is None);
                assert forall|p: Seq<char>|
                    {
                        &&& #[trigger] facts@.contains_key(p) <==> reuses(now, p)
                        &&& facts@.contains_key(p) ==> prior_file(self.attempt.prior, p) is Some
                            && facts@[p]@ == prior_file(self.attempt.prior, p)->0.facts@
                    } by {
                    assert(old_facts.contains_key(p) <==> reuses(then, p));
                    assert(reuses(now, p) <==> reuses(then, p) || (entry.decision
                        == RefreshDecision::ReuseFacts && p == path));
                }
            }
            i += 1;
        }
        assert(entries@.take(entries@.len() as int) =~= entries@);
        Ok(SelectedWork { facts, work })
    }
}

/// What one attempt has gathered so far.
pub struct AttemptState {
    pub plan: RefreshPlan,
    pub facts: TextMap<FileFacts>,
    pub changed: TextMap<bool>,
    pub extra_omissions: Vec<OmittedFile>,
    pub omission_details: TextMap<String>,
}

/// The facts with the package of their file applied.
pub open spec fn is_enriched(
    packages: PackageAssignmentSet,
    before: FileFacts,
    after: FileFacts,
) -> bool {
    match selected_package(packages.assignments@, before.file@) {
        None => after == before,
        Some(p) => facts_packaged(before, after, p@),
    }
}

/// The file at a position of the plan is left out because its extraction failed.
pub open spec fn is_extraction_omitted(
    before: AttemptState,
    after: AttemptState,
    index: int,
    detail: Seq<char>,
) -> bool {
    let path = before.plan.entries@[index].path;
    let omission = OmittedFile::of(path, OmissionReason::ExtractionError);
    &&& after.plan.entries@ == before.plan.entries@.update(
        index,
        RefreshEntry {
            path,
            decision: RefreshDecision::Omit { reason: omission.reason, impact: omission.impact },
        },
    )
    &&& after.extra_omissions@ == before.extra_omissions@.push(omission)
    &&& is_text_inserted(before.omission_details@, after.omission_details@, path@, detail)
    &&& after.facts == before.facts
    &&& after.changed == before.changed
}

/// The map with one text set.
pub open spec fn is_text_inserted(
    before: Map<Seq<char>, String>,
    after: Map<Seq<char>, String>,
    key: Seq<char>,
    text: Seq<char>,
) -> bool {
    exists|s: String| s@ == text && after == #[trigger] before.insert(key, s)
}

/// The facts of the file at a position of the plan are kept.
pub open spec fn is_fact_kept(
    before: AttemptState,
    after: AttemptState,
    index: int,
    facts: FileFacts,
) -> bool {
    let path = before.plan.entries@[index].path@;
    &&& after.plan == before.plan
    &&& after.extra_omissions == before.extra_omissions
    &&& after.omission_details == before.omission_details
    &&& after.facts@ == before.facts@.insert(path, facts)
    &&& after.changed@ == before.changed@.insert(path, true)
}

/// The detail of facts that fail the check behind the package application.
pub open spec fn is_validation_detail(facts: FileFacts, detail: Seq<char>) -> bool {
    exists|i: int|
        #![trigger facts.symbols@[i]]
        first_duplicate(facts.symbols@, i) && is_longest_fit(
            full_detail(
                "post-enrichment-validation"@,
                duplicate_message(facts.symbols@[i].id@),
            ),
            detail,
            MAX_DETAIL_BYTES as nat,
        )
}

/// The facts of a file are kept if they are valid, and left out if they are not.
pub open spec fn is_facts_outcome(
    packages: PackageAssignmentSet,
    before: AttemptState,
    after: AttemptState,
    index: int,
    facts: FileFacts,
) -> bool {
    exists|enriched: FileFacts|
        {
            &&& #[trigger] is_enriched(packages, facts, enriched)
            &&& facts_valid(enriched.symbols@) ==> is_fact_kept(before, after, index, enriched)
            &&& !facts_valid(enriched.symbols@) ==> exists|detail: Seq<char>|
                is_validation_detail(enriched, detail) && #[trigger] is_extraction_omitted(
                    before,
                    after,
                    index,
                    detail,
                )
        }
}

/// The detail of a worker that reported a failed extraction without saying why.
pub open spec fn plain_extraction_detail() -> Seq<char> {
    "stage=worker-extraction error=worker returned extraction failure"@
}

/// A failed extraction of one file, which does not stop the refresh.
pub open spec fn is_file_failure(e: CliError) -> bool {
    e == CliError::Worker(WorkerFailure::Remote(WorkerErrorCode::Extraction))
}

/// What the outcome of one extraction changes.
pub open spec fn is_outcome_applied(
    packages: PackageAssignmentSet,
    before: AttemptState,
    after: AttemptState,
    index: int,
    outcome: Result<ExtractionOutcome, CliError>,
) -> bool {
    match outcome {
        Ok(ExtractionOutcome::Facts(facts)) => is_facts_outcome(
            packages,
            before,
            after,
            index,
            facts,
        ),
        Ok(ExtractionOutcome::Omitted { detail }) => is_extraction_omitted(
            before,
            after,
            index,
            detail@,
        ),
        Err(e) => if is_file_failure(e) {
            is_extraction_omitted(before, after, index, plain_extraction_detail())
        } else {
            after == before
        },
    }
}

impl AttemptState {
    /// Leaves out the file at a position of the plan.
    fn omit_extraction(&mut self, index: usize, detail: String)
        requires
            index < old(self).plan.entries@.len(),
        ensures
            is_extraction_omitted(*old(self), *final(self), index as int, detail@),
    {
        let ghost before = *self;
        let path = self.plan.entries[index].path.clone();
        let omission = OmittedFile::new(path.clone(), OmissionReason::ExtractionError);
        let ghost details = self.omission_details@;
        self.omission_details.insert(path.to_text(), detail);
        proof {
            assert(self.omission_details@ == details.insert(path@, detail));
        }
        self.plan.entries.set(
            index,
            RefreshEntry {
                path,
                decision: RefreshDecision::Omit {
                    reason: omission.reason,
                    impact: omission.impact,
                },
            },
        );
        self.extra_omissions.push(omission);
    }

    /// Applies the outcome of one extraction: valid facts are kept, a failure of the
    /// file alone leaves the file out, any other failure is fatal.
    pub fn apply_outcome(
        &mut self,
        packages: &PackageAssignmentSet,
        index: usize,
        outcome: Result<ExtractionOutcome, CliError>,
    ) -> (r: Result<(), AttemptError>)
        requires
            index < old(self).plan.entries@.len(),
        ensures
            is_outcome_applied(*packages, *old(self), *final(self), index as int, outcome),
            match outcome {
                Err(e) => if is_file_failure(e) {
                    r is Ok
                } else {
                    r == Err::<(), AttemptError>(AttemptError::Fatal(e))
                },
                Ok(_) => r is Ok,
            },
    {
        let ghost before = *self;
        match outcome {
            Ok(ExtractionOutcome::Facts(facts)) => {
                let ghost raw = facts;
                let mut value = facts;
                packages.enrich_file_facts(&mut value);
                assert(is_enriched(*packages, raw, value));
                match validate_file_facts(&value) {
                    Err(message) => {
                        let detail = bounded_detail("post-enrichment-validation", message.as_str());
                        let ghost text = detail@;
                        self.omit_extraction(index, detail);
                        proof {
                            assert(is_validation_detail(value, text));
                            assert(is_extraction_omitted(before, *self, index as int, text));
                        }
                        Ok(())
                    },
                    Ok(()) => {
                        let path = self.plan.entries[index].path.clone();
                        self.changed.insert(path.to_text(), true);
                        self.facts.insert(path.to_text(), value);
                        proof {
                            assert(is_fact_kept(before, *self, index as int, value));
                        }
                        Ok(())
                    },
                }
            },
            Ok(ExtractionOutcome::Omitted { detail }) => {
                self.omit_extraction(index, detail);
                Ok(())
            },
            Err(e) => match e {
                CliError::Worker(WorkerFailure::Remote(WorkerErrorCode::Extraction)) => {
                    self.omit_extraction(
                        index,
                        "stage=worker-extraction error=worker returned extraction failure".to_owned(),
                    );
                    Ok(())
                },
                e => Err(AttemptError::Fatal(e)),
            },
        }
    }
}

proof fn lemma_extractions(entries: Seq<RefreshEntry>, k: int)
    requires
        entries.len() <= usize::MAX,
        0 <= k < planned_extractions(entries).len(),
    ensures
        planned_extractions(entries)[k].index < entries.len(),
        entries[planned_extractions(entries)[k].index as int].decision == RefreshDecision::Extract,
    decreases entries.len(),
{
    if entries.len() > 0 {
        let init = entries.drop_last();
        if k < planned_extractions(init).len() {
            lemma_extractions(init, k);
            let i = planned_extractions(init)[k].index as int;
            assert(entries[i] == init[i]);
        }
    }
}

/// A candidate that has its facts and waits for its graph.
pub struct ExtractedAttempt {
    pub assembled: AssembledCandidate,
    pub plan: RefreshPlan,
    pub compatibility: CompatibilityRecord,
    pub candidates: Vec<SourceCandidate>,
}

/// An attempt has gathered only what it reuses.
pub open spec fn is_first_state(
    s: SourcedAttempt<'_>,
    reused: TextMap<FileFacts>,
    state: AttemptState,
) -> bool {
    &&& state.plan == s.attempt.plan
    &&& state.facts == reused
    &&& state.changed.keys() == Seq::<Seq<char>>::empty()
    &&& state.changed@ == Map::<Seq<char>, bool>::empty()
    &&& state.extra_omissions == s.extra_omissions
    &&& state.omission_details@ == Map::<Seq<char>, String>::empty()
}

/// The outcome stops the refresh.
pub open spec fn is_fatal_outcome(outcome: Result<ExtractionOutcome, CliError>) -> bool {
    outcome matches Err(e) && !is_file_failure(e)
}

/// One more outcome leads from one state to the next.
pub open spec fn is_applied(
    packages: PackageAssignmentSet,
    before: AttemptState,
    outcome: IndexedOutcome,
    after: AttemptState,
) -> bool {
    !is_fatal_outcome(outcome.outcome) && is_outcome_applied(
        packages,
        before,
        after,
        outcome.index as int,
        outcome.outcome,
    )
}

/// The first `n` outcomes, applied one after the other, lead from one state to the
/// other.
pub open spec fn are_applied(
    packages: PackageAssignmentSet,
    first: AttemptState,
    outcomes: Seq<IndexedOutcome>,
    n: nat,
    last: AttemptState,
) -> bool
    decreases n,
{
    if n == 0 {
        last == first
    } else {
        exists|before: AttemptState| #[trigger]
            is_applied(packages, before, outcomes[n - 1], last) && are_applied(
                packages,
                first,
                outcomes,
                (n - 1) as nat,
                before,
            )
    }
}

/// The failure is that of the first outcome that stops the refresh.
pub open spec fn is_first_fatal(outcomes: Seq<IndexedOutcome>, e: CliError) -> bool {
    exists|k: int|
        0 <= k < outcomes.len() && (#[trigger] outcomes[k]).outcome == Err::<
            ExtractionOutcome,
            CliError,
        >(e) && !is_file_failure(e) && forall|j: int|
            0 <= j < k ==> !is_fatal_outcome((#[trigger] outcomes[j]).outcome)
}

/// What the rows of the candidate are made of, once the outcomes are applied.
pub open spec fn rows_after<'a>(s: &'a SourcedAttempt<'a>, state: &'a AttemptState) -> RowSources<'a> {
    RowSources {
        facts: &state.facts,
        files: &s.files,
        prior: s.attempt.prior,
        candidates: &s.attempt.discovery.candidates,
        assignments: &s.attempt.assignments,
    }
}

/// The candidate is assembled from the state.
pub open spec fn is_assembled_from(
    x: ExtractedAttempt,
    inputs: PrepareCandidateInputs<'_>,
    s: SourcedAttempt<'_>,
    state: AttemptState,
) -> bool {
    &&& is_assembled(
        x.assembled,
        rows_after(&s, &state),
        state.changed,
        OmissionSources {
            discovered: s.attempt.discovery.omitted,
            extra: state.extra_omissions,
            details: state.omission_details,
        },
        s.attempt.compatibility,
        inputs.prior,
        inputs.tier,
    )
    &&& x.plan == state.plan
    &&& x.compatibility == s.attempt.compatibility
    &&& x.candidates == s.attempt.discovery.candidates
}

/// The state is reached from what is reused by applying all outcomes.
pub open spec fn is_reached(
    s: SourcedAttempt<'_>,
    reused: TextMap<FileFacts>,
    outcomes: Seq<IndexedOutcome>,
    state: AttemptState,
) -> bool {
    exists|first: AttemptState| #[trigger]
        is_first_state(s, reused, first) && are_applied(
            s.attempt.packages,
            first,
            outcomes,
            outcomes.len(),
            state,
        )
}

/// The candidate follows from what is reused and from the outcomes.
pub open spec fn is_completed(
    x: ExtractedAttempt,
    inputs: PrepareCandidateInputs<'_>,
    s: SourcedAttempt<'_>,
    reused: TextMap<FileFacts>,
    outcomes: Seq<IndexedOutcome>,
) -> bool {
    exists|state: AttemptState| #[trigger]
        is_reached(s, reused, outcomes, state) && is_assembled_from(x, inputs, s, state)
}

/// The candidate cannot be assembled from what the outcomes lead to.
pub open spec fn is_assembly_fault(
    s: SourcedAttempt<'_>,
    reused: TextMap<FileFacts>,
    outcomes: Seq<IndexedOutcome>,
    e: CliError,
) -> bool {
    exists|state: AttemptState| #[trigger]
        is_reached(s, reused, outcomes, state) && is_first_row_fault(rows_after(&s, &state), e)
}

/// Applies the outcomes of all extractions in plan order and assembles the candidate.
/// Whatever the extractions gave, the candidate follows from them: valid facts are
/// kept, a failure of one file leaves that file out, and any other failure ends the
/// attempt.
pub fn complete_attempt<'a, C: Cancellation + ?Sized>(
    inputs: &PrepareCandidateInputs<'a>,
    sourced: SourcedAttempt<'a>,
    reused: TextMap<FileFacts>,
    outcomes: Vec<IndexedOutcome>,
    deadline: &Deadline,
    cancellation: &C,
) -> (r: Result<ExtractedAttempt, AttemptError>)
    requires
        forall|j: int|
            0 <= j < outcomes@.len() ==> (#[trigger] outcomes@[j]).index
                < sourced.attempt.plan.entries@.len(),
    ensures
        match r {
            Ok(x) => is_completed(x, *inputs, sourced, reused, outcomes@),
            Err(AttemptError::Drift) => false,
            Err(AttemptError::Fatal(e)) => {
                ||| is_interruption(e, *deadline, cancellation)
                ||| is_first_fatal(outcomes@, e)
                ||| is_assembly_fault(sourced, reused, outcomes@, e)
            },
        },
        heeds(*deadline, cancellation, attempt_failure(r)),
{
    let ghost given = sourced;
    let ghost all = outcomes@;
    let ghost entries = sourced.attempt.plan.entries@;
    let count = outcomes.len();
    let mut rest = reversed(outcomes);
    let SourcedAttempt { attempt, files, extra_omissions } = sourced;
    let Attempt { discovery, packages, compatibility, assignments, prior, prior_records, plan } =
        attempt;
    let mut state = AttemptState {
        plan,
        facts: reused,
        changed: TextMap::new(),
        extra_omissions,
        omission_details: TextMap::new(),
    };
    let ghost first = state;
    let mut i: usize = 0;
    assert(is_first_state(given, reused, first));
    while i < count
        invariant
            i <= count,
            all == outcomes@,
            given == sourced,
            count == all.len(),
            packages == given.attempt.packages,
            entries == given.attempt.plan.entries@,
            is_first_state(given, reused, first),
            state.plan.entries@.len() == entries.len(),
            rest@ == all.skip(i as int).reverse(),
            forall|j: int| 0 <= j < all.len() ==> (#[trigger] all[j]).index < entries.len(),
            forall|j: int| 0 <= j < i ==> !is_fatal_outcome((#[trigger] all[j]).outcome),
            are_applied(packages, first, all, i as nat, state),
            i > 0 ==> may_go_on(*deadline, cancellation),
        decreases count - i,
    {
        match deadline.check(cancellation) {
            Ok(()) => {},
            Err(e) => {
                return Err(AttemptError::Fatal(e));
            },
        }
        let next = match rest.pop() {
            Some(next) => next,
            None => {
                assert(false);
                return Err(AttemptError::Fatal(CliError::Cancelled));
            },
        };
        let ghost before = state;
        proof {
            assert(next == all[i as int]);
            assert(rest@ =~= all.skip(i + 1).reverse());
        }
        let ghost taken = next;
        match state.apply_outcome(&packages, next.index, next.outcome) {
            Ok(()) => {},
            Err(e) => {
                let ghost why = e;
                proof {
                    match why {
                        AttemptError::Fatal(failure) => {
                            assert(all[i as int].outcome == Err::<ExtractionOutcome, CliError>(
                                failure,
                            ));
                            assert(is_first_fatal(all, failure));
                        },
                        AttemptError::Drift => {},
                    }
                }
                return Err(e);
            },
        }
        proof {
            assert(is_applied(packages, before, all[i as int], state));
            assert((((i + 1) as nat) - 1) as nat == i as nat);
            assert(are_applied(packages, first, all, (i + 1) as nat, state));
        }
        i += 1;
    }
    let ghost reached = state;
    assert(is_reached(given, reused, all, reached));
    let rows = RowSources {
        facts: &state.facts,
        files: &files,
        prior,
        candidates: &discovery.candidates,
        assignments: &assignments,
    };
    assert(rows == rows_after(&given, &reached));
    let omitted = OmissionSources {
        discovered: discovery.omitted,
        extra: state.extra_omissions,
        details: state.omission_details,
    };
    let assembled = match assemble(
        &rows,
        &state.changed,
        omitted,
        &compatibility,
        inputs.prior,
        inputs.tier,
        deadline,
        cancellation,
    ) {
        Ok(assembled) => assembled,
        Err(e) => {
            proof {
                if !is_interruption(e, *deadline, cancellation) {
                    assert(is_assembly_fault(given, reused, all, e));
                }
            }
            return Err(AttemptError::Fatal(e));
        },
    };
    let x = ExtractedAttempt {
        assembled,
        plan: state.plan,
        compatibility,
        candidates: discovery.candidates,
    };
    assert(is_assembled_from(x, *inputs, given, reached));
    Ok(x)
}

/// The file of a planned extraction as the work item that is given out.
pub open spec fn work_item<'a>(
    s: SourcedAttempt<'a>,
    planned: PlannedExtraction,
) -> ExtractWorkItem<'a> {
    ExtractWorkItem {
        index: planned.index,
        file: &s.files@[s.attempt.plan.entries@[planned.index as int].path@],
        request_id: planned.request_id,
    }
}

/// The outcomes answer the files that are to be extracted, one for each, in plan
/// order, and each is what the extractor may give for its file.
pub open spec fn are_outcomes_of<E: FactsExtractor, C: Cancellation + ?Sized>(
    extractor: &E,
    deadline: &Deadline,
    cancellation: &C,
    s: SourcedAttempt<'_>,
    outcomes: Seq<IndexedOutcome>,
) -> bool {
    let planned = planned_extractions(s.attempt.plan.entries@);
    &&& outcomes.len() == planned.len()
    &&& forall|i: int|
        0 <= i < outcomes.len() ==> may_result(
            extractor,
            (WorkerSlot { index: 0 }),
            deadline,
            cancellation,
            work_item(s, planned[i]),
            #[trigger] outcomes[i],
        )
}

/// The candidate follows from the facts that are reused and from some outcome of each
/// extraction.
pub open spec fn is_extracted<E: FactsExtractor, C: Cancellation + ?Sized>(
    extractor: &E,
    deadline: &Deadline,
    cancellation: &C,
    x: ExtractedAttempt,
    inputs: PrepareCandidateInputs<'_>,
    s: SourcedAttempt<'_>,
) -> bool {
    exists|reused: TextMap<FileFacts>, outcomes: Seq<IndexedOutcome>| #[trigger]
        is_completed(x, inputs, s, reused, outcomes) && are_reused_facts(
            reused@,
            s.attempt.plan.entries@,
            s.attempt.prior,
        ) && are_outcomes_of(extractor, deadline, cancellation, s, outcomes)
}

/// Some outcome of the extractions ends the attempt, or what they lead to cannot be
/// assembled.
pub open spec fn is_extraction_failure<E: FactsExtractor, C: Cancellation + ?Sized>(
    extractor: &E,
    deadline: &Deadline,
    cancellation: &C,
    s: SourcedAttempt<'_>,
    e: CliError,
) -> bool {
    exists|reused: TextMap<FileFacts>, outcomes: Seq<IndexedOutcome>| #[trigger]
        fails_with(s, reused, outcomes, e) && are_reused_facts(
            reused@,
            s.attempt.plan.entries@,
            s.attempt.prior,
        ) && are_outcomes_of(extractor, deadline, cancellation, s, outcomes)
}

/// The outcomes end the attempt with the failure.
pub open spec fn fails_with(
    s: SourcedAttempt<'_>,
    reused: TextMap<FileFacts>,
    outcomes: Seq<IndexedOutcome>,
    e: CliError,
) -> bool {
    is_first_fatal(outcomes, e) || is_assembly_fault(s, reused, outcomes, e)
}

/// Whatever the extractions give: the identity of a candidate is that of its rows and
/// omissions, its rows are sorted by path, and it is complete if and only if nothing
/// that could be a source was left out.
pub proof fn extracted_candidates_are_consistent<E: FactsExtractor, C: Cancellation + ?Sized>(
    extractor: &E,
    deadline: &Deadline,
    cancellation: &C,
    x: ExtractedAttempt,
    inputs: PrepareCandidateInputs<'_>,
    s: SourcedAttempt<'_>,
)
    requires
        is_extracted(extractor, deadline, cancellation, x, inputs, s),
    ensures
        identity_ok(x.assembled, s.attempt.compatibility),
        strictly_ascending(file_paths(x.assembled.rows@)),
        x.assembled.tier == inputs.tier.cached(),
{
}

/// Extracts the files that an attempt needs, one after the other, and assembles its
/// candidate.
pub fn prepare_refresh_candidate_with<'a, E: FactsExtractor, C: Cancellation + ?Sized>(
    extractor: &E,
    inputs: &PrepareCandidateInputs<'a>,
    sourced: SourcedAttempt<'a>,
    deadline: &Deadline,
    cancellation: &C,
) -> (r: Result<ExtractedAttempt, AttemptError>)
    ensures
        match r {
            Ok(x) => work_ok(sourced, sourced.attempt.plan.entries@.len() as int) && is_extracted(
                extractor,
                deadline,
                cancellation,
                x,
                *inputs,
                sourced,
            ),
            Err(AttemptError::Drift) => false,
            Err(AttemptError::Fatal(e)) => {
                ||| is_interruption(e, *deadline, cancellation)
                ||| is_first_work_fault(sourced, e)
                ||| is_extraction_failure(extractor, deadline, cancellation, sourced, e)
            },
        },
        !work_ok(sourced, sourced.attempt.plan.entries@.len() as int) ==> (r matches Err(
            AttemptError::Fatal(e),
        ) && (is_interruption(e, *deadline, cancellation) || is_first_work_fault(sourced, e))),
        heeds(*deadline, cancellation, attempt_failure(r)),
{
    match deadline.check(cancellation) {
        Ok(()) => {},
        Err(e) => {
            return Err(AttemptError::Fatal(e));
        },
    }
    let selected = match sourced.select_work() {
        Ok(selected) => selected,
        Err(e) => {
            return Err(AttemptError::Fatal(e));
        },
    };
    let entry_count = sourced.attempt.plan.entries.len();
    let ghost entries = sourced.attempt.plan.entries@;
    let mut items: Vec<ExtractWorkItem<'_>> = Vec::new();
    let mut i: usize = 0;
    while i < selected.work.len()
        invariant
            i <= selected.work.len(),
            entries == sourced.attempt.plan.entries@,
            entry_count == entries.len(),
            selected.work@ == planned_extractions(entries),
            work_ok(sourced, entries.len() as int),
            items@.len() == i,
            forall|j: int|
                0 <= j < i ==> (#[trigger] items@[j]).index < entries.len() && items@[j]
                    == work_item(sourced, selected.work@[j]),
        decreases selected.work.len() - i,
    {
        let planned = selected.work[i];
        proof {
            lemma_extractions(entries, i as int);
            assert(work_fault(sourced, planned.index as int) is None);
        }
        let path = sourced.attempt.plan.entries[planned.index].path.as_str();
        match sourced.files.get(path) {
            Some(file) => items.push(
                ExtractWorkItem { index: planned.index, file, request_id: planned.request_id },
            ),
            None => {
                assert(false);
            },
        }
        i += 1;
    }
    let outcomes = run_pool_thread(
        extractor,
        &items,
        deadline,
        cancellation,
        WorkerSlot { index: 0 },
    );
    assert(forall|j: int| 0 <= j < outcomes@.len() ==> (#[trigger] outcomes@[j]).index
        < entries.len()) by {
        assert forall|j: int| 0 <= j < outcomes@.len() implies (#[trigger] outcomes@[j]).index
            < entries.len() by {
            assert(items@[j].index < entries.len());
        }
    }
    let ghost reused = selected.facts;
    let ghost given = outcomes@;
    proof {
        assert forall|j: int| 0 <= j < given.len() implies may_result(
            extractor,
            (WorkerSlot { index: 0 }),
            deadline,
            cancellation,
            work_item(sourced, planned_extractions(entries)[j]),
            #[trigger] given[j],
        ) by {
            assert(items@[j] == work_item(sourced, selected.work@[j]));
        }
        assert(are_outcomes_of(extractor, deadline, cancellation, sourced, given));
    }
    let r = complete_attempt(inputs, sourced, selected.facts, outcomes, deadline, cancellation);
    let ghost res = r;
    proof {
        match res {
            Ok(x) => {
                assert(is_completed(x, *inputs, sourced, reused, given));
                assert(is_extracted(extractor, deadline, cancellation, x, *inputs, sourced));
            },
            Err(AttemptError::Fatal(e)) => {
                if !is_interruption(e, *deadline, cancellation) {
                    assert(fails_with(sourced, reused, given, e));
                    assert(is_extraction_failure(extractor, deadline, cancellation, sourced, e));
                }
            },
            Err(AttemptError::Drift) => {},
        }
    }
    r
}

/// The action extracts a file or leaves it out; it takes nothing from a snapshot.
pub open spec fn is_fresh(e: RefreshEntry) -> bool {
    e.decision == RefreshDecision::Extract || e.decision is Omit
}

/// Every action is fresh.
pub open spec fn all_fresh(entries: Seq<RefreshEntry>) -> bool {
    forall|i: int| 0 <= i < entries.len() ==> is_fresh(#[trigger] entries[i])
}

/// The action that extracts a candidate.
pub open spec fn extraction_of(c: SourceCandidate) -> RefreshEntry {
    RefreshEntry { path: c.path, decision: RefreshDecision::Extract }
}

/// Every candidate of a language is extracted.
pub open spec fn all_extracted(
    candidates: Seq<SourceCandidate>,
    entries: Seq<RefreshEntry>,
) -> bool {
    forall|i: int|
        0 <= i < candidates.len() && (#[trigger] candidates[i]).language is Some
            ==> entries.contains(extraction_of(candidates[i]))
}

proof fn lemma_plans_without_prior(a: Attempt<'_>, inputs: PrepareCandidateInputs<'_>)
    requires
        a.prior_records@.len() == 0,
        is_stable_sort(
            planned(
                a.discovery,
                a.prior_records@,
                a.assignments@,
                inputs.force,
                inputs.trust_mtime,
                inputs.tier,
            ),
            a.plan.entries@,
        ),
    ensures
        all_fresh(a.plan.entries@),
        all_extracted(a.discovery.candidates@, a.plan.entries@),
{
    let all = planned(
        a.discovery,
        a.prior_records@,
        a.assignments@,
        inputs.force,
        inputs.trust_mtime,
        inputs.tier,
    );
    let entries = a.plan.entries@;
    all.to_multiset_ensures();
    entries.to_multiset_ensures();
    assert forall|i: int| 0 <= i < entries.len() implies is_fresh(#[trigger] entries[i]) by {
        assert(entries.contains(entries[i]));
        assert(entries.to_multiset().count(entries[i]) > 0);
        assert(all.contains(entries[i]));
        let k = choose|k: int| 0 <= k < all.len() && all[k] == entries[i];
        assert(is_fresh(all[k]));
    }
    let candidates = a.discovery.candidates@;
    assert forall|i: int|
        0 <= i < candidates.len() && (
        #[trigger] candidates[i]).language is Some implies entries.contains(
        extraction_of(candidates[i]),
    ) by {
        assert(all[i] == extraction_of(candidates[i]));
        assert(all.contains(all[i]));
        assert(all.to_multiset().count(all[i]) > 0);
        assert(entries.to_multiset().count(all[i]) > 0);
    }
}

proof fn lemma_first_entry_bounded(entries: Seq<RefreshEntry>, path: Seq<char>)
    ensures
        first_entry(entries, path) matches Some(i) ==> 0 <= i < entries.len(),
    decreases entries.len(),
{
    if entries.len() > 0 {
        lemma_first_entry_bounded(entries.drop_first(), path);
    }
}

proof fn lemma_omissions_are_fresh(entries: Seq<RefreshEntry>, omissions: Seq<OmittedFile>)
    requires
        all_fresh(entries),
    ensures
        all_fresh(omit_entries(entries, omissions)),
    decreases omissions.len(),
{
    if omissions.len() > 0 {
        lemma_omissions_are_fresh(entries, omissions.drop_last());
        let before = omit_entries(entries, omissions.drop_last());
        let after = omit_entry(before, omissions.last());
        lemma_first_entry_bounded(before, omissions.last().path@);
        assert forall|i: int| 0 <= i < after.len() implies is_fresh(#[trigger] after[i]) by {
            assert(is_fresh(before[i]));
        }
    }
}

proof fn lemma_applied_are_fresh(
    packages: PackageAssignmentSet,
    first: AttemptState,
    outcomes: Seq<IndexedOutcome>,
    n: nat,
    last: AttemptState,
)
    requires
        all_fresh(first.plan.entries@),
        forall|p: Seq<char>|
            #[trigger] first.facts@.contains_key(p) <==> first.changed@.contains_key(p),
        are_applied(packages, first, outcomes, n, last),
        n <= outcomes.len(),
        forall|j: int|
            0 <= j < n ==> (#[trigger] outcomes[j]).index < first.plan.entries@.len(),
    ensures
        last.plan.entries@.len() == first.plan.entries@.len(),
        all_fresh(last.plan.entries@),
        forall|p: Seq<char>|
            #[trigger] last.facts@.contains_key(p) <==> last.changed@.contains_key(p),
    decreases n,
{
    if n > 0 {
        let before = choose|before: AttemptState| #[trigger]
            is_applied(packages, before, outcomes[n - 1], last) && are_applied(
                packages,
                first,
                outcomes,
                (n - 1) as nat,
                before,
            );
        lemma_applied_are_fresh(packages, first, outcomes, (n - 1) as nat, before);
        let then = before.plan.entries@;
        let now = last.plan.entries@;
        assert(outcomes[n - 1].index < then.len());
        assert forall|i: int| 0 <= i < now.len() implies is_fresh(#[trigger] now[i]) by {
            assert(is_fresh(then[i]));
        }
    }
}

/// The snapshot holds a file of this path.
pub open spec fn held_by(prior: Option<&LoadedSnapshot>, path: Seq<char>) -> bool {
    prior is Some && names_file(prior->0.files@, path)
}

/// A snapshot that is not compatible is never reused, whatever is trusted: every candidate
/// of a language is to be extracted, every file of the plan is extracted or left out,
/// every file that is kept counts as changed, and the snapshot's files that are not kept,
/// and no others, count as deleted. So none does where the sources are unchanged and all
/// of them are kept.
pub proof fn incompatible_priors_are_never_reused<E: FactsExtractor, C: Cancellation + ?Sized>(
    extractor: &E,
    deadline: &Deadline,
    cancellation: &C,
    inputs: PrepareCandidateInputs<'_>,
    discovery: SourceDiscovery,
    packages: PackageAssignmentSet,
    a: Attempt<'_>,
    reads: Seq<MaterializedCandidate>,
    s: SourcedAttempt<'_>,
    x: ExtractedAttempt,
)
    requires
        is_attempt(a, inputs, discovery, packages),
        inputs.prior matches Some(p) ==> !same_compatibility(p.compatibility, a.compatibility),
        is_sourced(a, reads, s),
        is_extracted(extractor, deadline, cancellation, x, inputs, s),
    ensures
        all_extracted(discovery.candidates@, a.plan.entries@),
        all_fresh(s.attempt.plan.entries@),
        all_fresh(x.plan.entries@),
        forall|p: Seq<char>| #[trigger]
            texts(x.assembled.changed_paths@).contains(p) <==> file_paths(
                x.assembled.rows@,
            ).contains(p),
        forall|p: Seq<char>| #[trigger]
            texts(x.assembled.deleted_paths@).contains(p) <==> held_by(inputs.prior, p)
                && !file_paths(x.assembled.rows@).contains(p),
        (forall|p: Seq<char>| #[trigger]
            held_by(inputs.prior, p) ==> file_paths(x.assembled.rows@).contains(p))
            ==> x.assembled.deleted_paths@.len() == 0,
        x.assembled.prior_scope is None,
{
    lemma_plans_without_prior(a, inputs);
    let hashes = choose|hashes: Map<Seq<char>, [u8; 32]>|
        {
            &&& #[trigger] are_hashes_of(hashes, files_read(reads))
            &&& s.attempt.plan.entries@ == omit_entries(
                a.plan.entries@.map_values(
                    |e: RefreshEntry|
                        finalized(
                            e,
                            hashes,
                            a.prior_records@,
                            a.assignments@,
                            a.discovery.candidates@,
                        ),
                ),
                reads_omitted(reads),
            )
        };
    let decided = a.plan.entries@.map_values(
        |e: RefreshEntry|
            finalized(e, hashes, a.prior_records@, a.assignments@, a.discovery.candidates@),
    );
    assert forall|i: int| 0 <= i < decided.len() implies is_fresh(#[trigger] decided[i]) by {
        assert(is_fresh(a.plan.entries@[i]));
    }
    lemma_omissions_are_fresh(decided, reads_omitted(reads));
    let (reused, outcomes) = choose|reused: TextMap<FileFacts>, outcomes: Seq<IndexedOutcome>|
     #[trigger]
        is_completed(x, inputs, s, reused, outcomes) && are_reused_facts(
            reused@,
            s.attempt.plan.entries@,
            s.attempt.prior,
        ) && are_outcomes_of(extractor, deadline, cancellation, s, outcomes);
    let state = choose|state: AttemptState| #[trigger]
        is_reached(s, reused, outcomes, state) && is_assembled_from(x, inputs, s, state);
    let first = choose|first: AttemptState| #[trigger]
        is_first_state(s, reused, first) && are_applied(
            s.attempt.packages,
            first,
            outcomes,
            outcomes.len(),
            state,
        );
    assert forall|p: Seq<char>| #[trigger]
        first.facts@.contains_key(p) <==> first.changed@.contains_key(p) by {
        assert(reused@.contains_key(p) <==> reuses(s.attempt.plan.entries@, p));
    }
    assert forall|j: int| 0 <= j < outcomes.len() implies (#[trigger] outcomes[j]).index
        < first.plan.entries@.len() by {
        let extractions = planned_extractions(s.attempt.plan.entries@);
        assert(s.attempt.plan.entries.len() <= usize::MAX);
        lemma_extractions(s.attempt.plan.entries@, j);
        assert(may_result(
            extractor,
            (WorkerSlot { index: 0 }),
            deadline,
            cancellation,
            work_item(s, extractions[j]),
            outcomes[j],
        ));
    }
    lemma_applied_are_fresh(s.attempt.packages, first, outcomes, outcomes.len(), state);
    let rows = x.assembled.rows@;
    assert(file_paths(rows) =~= state.facts.keys()) by {
        assert forall|i: int| 0 <= i < rows.len() implies file_paths(rows)[i]
            == state.facts.keys()[i] by {
            assert(is_row(rows_after(&s, &state), state.facts.keys()[i], rows[i]));
        }
    }
    assert forall|p: Seq<char>| #[trigger]
        texts(x.assembled.changed_paths@).contains(p) <==> file_paths(rows).contains(p) by {
        assert(state.facts@.contains_key(p) <==> state.changed@.contains_key(p));
        assert(state.facts@.contains_key(p) <==> state.facts.keys().contains(p));
        assert(state.changed@.contains_key(p) <==> state.changed.keys().contains(p));
    }
    let deleted = texts(x.assembled.deleted_paths@);
    assert forall|p: Seq<char>| #[trigger]
        deleted.contains(p) <==> held_by(inputs.prior, p) && !file_paths(rows).contains(p) by {
        assert(state.facts@.contains_key(p) <==> state.facts.keys().contains(p));
    }
    if deleted.len() > 0 {
        assert(deleted.contains(deleted[0]));
    }
}

} // verus!
