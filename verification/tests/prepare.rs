//! Candidate preparation over projects that live in memory.

use std::cell::Cell;
use std::sync::atomic::{AtomicUsize, Ordering};
use std::sync::Arc;
use std::time::Duration;

use code2graph::cache::fingerprint::{CandidateId, CompatibilityFingerprint, PackageFingerprint};
use code2graph::cache::load::{
    decode_file_row, load_candidate, load_graph, select_active, ActiveRow, CandidateFileRow,
    CandidateRows, CandidateSnapshotRow, LoadedGraphRow,
};
use code2graph::cache::publish::{
    plan_publication, prepare_publication, PublishStep, StoredCandidate,
};
use code2graph::cache::rows::CandidatePayloads;
use code2graph::cache::snapshot::{CandidateSnapshot, LoadedSnapshot};
use code2graph::cache::types::{CacheCompleteness, ResolverCacheTier};
use code2graph::config::{
    ConfigRead, QueryBindingRule, RawQueryBindingRule, ResolverTier, ResourceLimits,
};
use code2graph::deadline::{Cancellation, Deadline, NeverCancelled};
use code2graph::error::CliError;
use code2graph::execution::snapshots::loaded_from_candidate;
use code2graph::graph::{
    ByteSpan, CodeGraph, Descriptor, FileFacts, FileSubgraph, Language, Package, Symbol, SymbolId,
    SymbolKind, Visibility,
};
use code2graph::inventory::read::{materialize_candidate, Fingerprint};
use code2graph::inventory::types::{InventoryFile, MtimeHint, StableIdentity};
use code2graph::inventory::walk::{
    discover_sources_checked, EntryKind, EntryMetadata, WalkEvent,
};
use code2graph::package_assignment::types::{PackageAssignmentSet, SourcePackageAssignment};
use code2graph::project::path::ProjectPath;
use code2graph::refresh::plan::{RefreshDecision, MAX_REFRESH_ATTEMPTS};
use code2graph::refresh::prepare::budgets::apply_metadata_budgets;
use code2graph::refresh::prepare::finish::{
    finish, PreparedRefreshCandidate, ResolvedCandidate,
};
use code2graph::refresh::prepare::pipeline::{
    begin_attempt, prepare_refresh_candidate_with, PrepareCandidateInputs,
};
use code2graph::refresh::prepare::pool::{ExtractSession, FactsExtractor, WorkerSlot};
use code2graph::refresh::prepare::recovery::{
    extract_with_recovery, ExtractionOutcome, RecoverableWorker,
};
use code2graph::refresh::prepare::retry::{prepare_refresh_candidate, retry_drift, AttemptError};
use code2graph::text_map::TextMap;
use code2graph::worker::{RequestId, WorkerAttemptFailure, WorkerErrorCode, WorkerFailure};

/// The functions of a source as facts.
fn extract_path(path: &str, text: &str) -> FileFacts {
    let mut symbols = Vec::new();
    for (offset, _) in text.match_indices("fn ") {
        let rest = &text[offset + 3..];
        let name: String =
            rest.chars().take_while(|c| c.is_alphanumeric() || *c == '_').collect();
        symbols.push(Symbol {
            id: SymbolId::global("rust", vec![Descriptor::Term(name.clone())]),
            name,
            kind: SymbolKind::Function,
            visibility: Visibility::Private,
            entry_points: Vec::new(),
            file: path.into(),
            line: 1,
            span: ByteSpan { start: offset, end: text.len() },
            signature: text.lines().next().unwrap_or("").into(),
        });
    }
    FileFacts {
        file: path.into(),
        lang: "rust".into(),
        symbols,
        references: Vec::new(),
        scopes: Vec::new(),
        bindings: Vec::new(),
        ffi_exports: Vec::new(),
    }
}

#[derive(Clone, Copy)]
enum ExtractBehavior {
    Normal,
    InvalidFacts,
    RemoteExtractionError,
    InfrastructureError,
}

struct FakeExtractor {
    calls: Arc<AtomicUsize>,
    behavior: ExtractBehavior,
}

impl FakeExtractor {
    fn normal() -> Self {
        Self::with_behavior(ExtractBehavior::Normal)
    }

    fn with_behavior(behavior: ExtractBehavior) -> Self {
        Self { calls: Arc::new(AtomicUsize::new(0)), behavior }
    }
}

struct FakeSession {
    calls: Arc<AtomicUsize>,
    behavior: ExtractBehavior,
}

impl FactsExtractor for FakeExtractor {
    type Session = FakeSession;
    fn session(&self, _slot: WorkerSlot) -> Result<FakeSession, CliError> {
        Ok(FakeSession { calls: Arc::clone(&self.calls), behavior: self.behavior })
    }
}

impl ExtractSession for FakeSession {
    fn extract<C: Cancellation + ?Sized>(
        &mut self,
        file: &InventoryFile,
        _request_id: RequestId,
        _deadline: &Deadline,
        _cancellation: &C,
    ) -> Result<FileFacts, CliError> {
        self.calls.fetch_add(1, Ordering::Relaxed);
        match self.behavior {
            ExtractBehavior::Normal => Ok(extract_path(file.path.as_str(), &file.text)),
            ExtractBehavior::InvalidFacts => {
                let mut facts = extract_path(file.path.as_str(), &file.text);
                let copy = facts.symbols[0].clone();
                facts.symbols.push(copy);
                Ok(facts)
            }
            ExtractBehavior::RemoteExtractionError => {
                Err(CliError::Worker(WorkerFailure::Remote(WorkerErrorCode::Extraction)))
            }
            ExtractBehavior::InfrastructureError => {
                Err(CliError::Worker(WorkerFailure::Protocol))
            }
        }
    }
}

/// A deterministic worker for driving the crash-recovery policy.
#[derive(Clone)]
enum CrashKind {
    /// The worker dies for this exact path and extracts every other file normally.
    PoisonPath(String),
    /// The worker returns malformed protocol data for this exact path.
    MalformedPath(String),
    /// The worker dies on its first attempt, then succeeds after a respawn.
    DieOnceThenRecover,
}

struct FakeRecoverableWorker {
    behavior: CrashKind,
    respawned: bool,
    respawns: Arc<AtomicUsize>,
}

impl RecoverableWorker for FakeRecoverableWorker {
    fn attempt(
        &mut self,
        file: &InventoryFile,
        _request_id: RequestId,
    ) -> Result<FileFacts, WorkerAttemptFailure> {
        let failure = match &self.behavior {
            CrashKind::PoisonPath(path) if file.path.as_str() == path => {
                Some(WorkerFailure::Transport)
            }
            CrashKind::MalformedPath(path) if file.path.as_str() == path => {
                Some(WorkerFailure::Protocol)
            }
            CrashKind::DieOnceThenRecover if !self.respawned => Some(WorkerFailure::Transport),
            _ => None,
        };
        if let Some(failure) = failure {
            return Err(WorkerAttemptFailure::Failure(failure));
        }
        Ok(extract_path(file.path.as_str(), &file.text))
    }

    fn respawn(&mut self) -> Result<(), CliError> {
        self.respawned = true;
        self.respawns.fetch_add(1, Ordering::Relaxed);
        Ok(())
    }
}

struct CrashExtractor {
    behavior: CrashKind,
    respawns: Arc<AtomicUsize>,
}

struct CrashSession {
    worker: FakeRecoverableWorker,
}

impl FactsExtractor for CrashExtractor {
    type Session = CrashSession;
    fn session(&self, _slot: WorkerSlot) -> Result<CrashSession, CliError> {
        Ok(CrashSession {
            worker: FakeRecoverableWorker {
                behavior: self.behavior.clone(),
                respawned: false,
                respawns: Arc::clone(&self.respawns),
            },
        })
    }
}

impl ExtractSession for CrashSession {
    fn extract<C: Cancellation + ?Sized>(
        &mut self,
        file: &InventoryFile,
        request_id: RequestId,
        deadline: &Deadline,
        cancellation: &C,
    ) -> Result<FileFacts, CliError> {
        match self.extract_outcome(file, request_id, deadline, cancellation)? {
            ExtractionOutcome::Facts(facts) => Ok(facts),
            ExtractionOutcome::Omitted { .. } => Err(CliError::Worker(WorkerFailure::Transport)),
        }
    }

    fn extract_outcome<C: Cancellation + ?Sized>(
        &mut self,
        file: &InventoryFile,
        request_id: RequestId,
        deadline: &Deadline,
        cancellation: &C,
    ) -> Result<ExtractionOutcome, CliError> {
        extract_with_recovery(&mut self.worker, file, request_id, deadline, cancellation)
    }
}

type Project = Vec<(String, String)>;

fn project(files: &[(&str, &str)]) -> Project {
    files.iter().map(|(path, text)| ((*path).to_owned(), (*text).to_owned())).collect()
}

#[derive(Clone, Copy)]
struct PrepareTestOptions<'a> {
    prior: Option<&'a LoadedSnapshot>,
    tier: ResolverTier,
    force: bool,
    trust_mtime: bool,
}

impl<'a> Default for PrepareTestOptions<'a> {
    fn default() -> Self {
        Self { prior: None, tier: ResolverTier::Name, force: false, trust_mtime: false }
    }
}

const MTIME: MtimeHint = MtimeHint { seconds_since_unix_epoch: 7, nanoseconds: 3 };

fn identity(index: usize) -> StableIdentity {
    StableIdentity { device: Some(1), inode: Some(index as u64) }
}

fn events(project: &Project) -> Vec<WalkEvent> {
    project
        .iter()
        .enumerate()
        .map(|(index, (path, text))| WalkEvent::Entry {
            depth: 1,
            relative: Some(path.clone().into_bytes()),
            absolute_path: format!("/project/{path}").into_bytes(),
            metadata: Ok(EntryMetadata {
                kind: EntryKind::File,
                size_bytes: text.len() as u64,
                mtime: Some(MTIME),
                identity: identity(index),
            }),
        })
        .collect()
}

fn languages() -> Vec<Language> {
    vec![
        Language::Rust,
        Language::Python,
        Language::TypeScript,
        Language::JavaScript,
        Language::Go,
        Language::Sql,
    ]
}

fn quoted_value(text: &str, key: &str) -> String {
    let start = text.find(key).map_or(0, |at| at + key.len() + 2);
    text[start..].split('\'').next().unwrap_or("").to_owned()
}

fn package(project: &Project) -> Option<Package> {
    let (_, manifest) = project.iter().find(|(path, _)| path == "Cargo.toml")?;
    Some(Package {
        manager: "cargo".into(),
        name: quoted_value(manifest, "name"),
        version: quoted_value(manifest, "version"),
    })
}

fn attempt<E: FactsExtractor, C: Cancellation>(
    extractor: &E,
    project: &Project,
    limits: &ResourceLimits,
    options: PrepareTestOptions<'_>,
    deadline: &Deadline,
    cancellation: &C,
    number: u8,
) -> Result<PreparedRefreshCandidate, AttemptError> {
    let mut discovery = discover_sources_checked(
        events(project),
        false,
        &languages(),
        deadline,
        cancellation,
    )?;
    apply_metadata_budgets(&mut discovery, limits);
    let found = package(project);
    let packages = PackageAssignmentSet {
        manifests: Vec::new(),
        assignments: discovery
            .candidates
            .iter()
            .filter(|candidate| candidate.language.is_some())
            .map(|candidate| SourcePackageAssignment {
                source_path: candidate.path.clone(),
                manifest_path: found.as_ref().map(|_| "Cargo.toml".to_owned()),
                package: found.clone(),
            })
            .collect(),
        diagnostics: Vec::new(),
    };
    let inputs = PrepareCandidateInputs {
        force: options.force,
        trust_mtime: options.trust_mtime,
        tier: options.tier,
        prior: options.prior,
        prepared_at_ns: 42,
    };
    let begun = begin_attempt(&inputs, discovery, packages)?;
    let mut reads = Vec::new();
    for candidate in begun.sources_to_read() {
        let (_, text) =
            project.iter().find(|(path, _)| path == candidate.path.as_str()).expect("source");
        let fingerprint = Fingerprint {
            length: candidate.size_bytes,
            mtime: candidate.mtime,
            identity: candidate.identity,
        };
        reads.push(materialize_candidate(
            candidate,
            limits,
            Ok((text.clone().into_bytes(), fingerprint)),
        ));
    }
    let sourced = begun.absorb_sources(reads)?;
    let extracted =
        prepare_refresh_candidate_with(extractor, &inputs, sourced, deadline, cancellation)?;
    let mut file_subgraphs = TextMap::new();
    for row in &extracted.assembled.rows {
        let subgraph = (options.tier == ResolverTier::Scope)
            .then_some(FileSubgraph { owner: row.path.clone(), encoded: b"[]".to_vec() });
        file_subgraphs.insert(row.path.clone(), subgraph);
    }
    let resolved = ResolvedCandidate {
        graph: CodeGraph { symbols: Vec::new(), edges: Vec::new() },
        file_subgraphs,
    };
    finish(
        extracted.assembled,
        extracted.plan,
        extracted.compatibility,
        resolved,
        &extracted.candidates,
        42,
        number,
    )
    .map_err(AttemptError::Fatal)
}

fn prepare<E: FactsExtractor, C: Cancellation>(
    extractor: &E,
    project: &Project,
    limits: &ResourceLimits,
    options: PrepareTestOptions<'_>,
    deadline: &Deadline,
    cancellation: &C,
) -> Result<PreparedRefreshCandidate, CliError> {
    retry_drift(deadline, cancellation, |number| {
        attempt(extractor, project, limits, options, deadline, cancellation, number)
    })
}

fn prepare_default<E: FactsExtractor>(
    extractor: &E,
    project: &Project,
    limits: &ResourceLimits,
    options: PrepareTestOptions<'_>,
) -> Result<PreparedRefreshCandidate, CliError> {
    prepare(extractor, project, limits, options, &Deadline::new(None), &NeverCancelled)
}

fn loaded(snapshot: CandidateSnapshot) -> LoadedSnapshot {
    loaded_from_candidate(snapshot)
}

#[test]
fn tests_fresh_candidate_has_canonical_identity_metadata_and_no_source_body() {
    let project = project(&[
        ("Cargo.toml", "[package]\nname='fixture'\nversion='0.1.0'\n"),
        ("src/lib.rs", "pub fn answer() -> u8 { 42 }\n"),
    ]);
    let extractor = FakeExtractor::normal();
    let prepared = prepare_default(
        &extractor,
        &project,
        &ResourceLimits::default(),
        PrepareTestOptions::default(),
    )
    .expect("prepare");
    assert_eq!(extractor.calls.load(Ordering::Relaxed), 1);
    assert_eq!(prepared.snapshot.created_at_ns, 42);
    assert_eq!(prepared.snapshot.compatibility.created_at_ns, 42);
    assert_eq!(prepared.snapshot.inventory_file_count, 1);
    assert_eq!(
        prepared.snapshot.inventory_total_bytes,
        "pub fn answer() -> u8 { 42 }\n".len() as u64
    );
    let file = &prepared.snapshot.files[0];
    assert_eq!(file.path, "src/lib.rs");
    assert_eq!(file.language, "rust");
    assert_eq!(file.facts.file, file.path);
    assert_eq!(file.facts.lang, file.language);
    assert!(file.package_assignment.contains("fixture"));
    assert_eq!(
        prepared.snapshot.candidate_id,
        CandidateId::new(
            prepared.snapshot.compatibility.id,
            prepared.snapshot.input_digest,
            prepared.snapshot.completeness,
            &prepared.snapshot.omissions,
        )
    );
}

#[test]
fn tests_default_hash_and_trusted_mtime_reuse_while_force_extracts() {
    let project = project(&[("a.rs", "fn a() {}\n")]);
    let limits = ResourceLimits::default();
    let first_extractor = FakeExtractor::normal();
    let first =
        prepare_default(&first_extractor, &project, &limits, PrepareTestOptions::default())
            .expect("first");

    let prior = loaded(first.snapshot.clone());
    let default_extractor = FakeExtractor::normal();
    let default = prepare_default(
        &default_extractor,
        &project,
        &limits,
        PrepareTestOptions { prior: Some(&prior), ..Default::default() },
    )
    .expect("hash reuse");
    assert_eq!(default_extractor.calls.load(Ordering::Relaxed), 0);
    assert!(matches!(default.plan.entries[0].decision, RefreshDecision::ReuseFacts));

    let trust_extractor = FakeExtractor::normal();
    prepare_default(
        &trust_extractor,
        &project,
        &limits,
        PrepareTestOptions { prior: Some(&prior), trust_mtime: true, ..Default::default() },
    )
    .expect("mtime reuse");
    assert_eq!(trust_extractor.calls.load(Ordering::Relaxed), 0);

    let force_extractor = FakeExtractor::normal();
    prepare_default(
        &force_extractor,
        &project,
        &limits,
        PrepareTestOptions {
            prior: Some(&prior),
            force: true,
            trust_mtime: true,
            ..Default::default()
        },
    )
    .expect("forced extraction");
    assert_eq!(force_extractor.calls.load(Ordering::Relaxed), 1);
}

#[test]
fn tests_incompatible_prior_is_never_reused_even_with_trusted_metadata() {
    let project = project(&[("a.rs", "fn a() {}\n")]);
    let limits = ResourceLimits::default();
    let initial = prepare_default(
        &FakeExtractor::normal(),
        &project,
        &limits,
        PrepareTestOptions::default(),
    )
    .expect("initial");
    let mut prior = loaded(initial.snapshot);
    prior.compatibility.package_fingerprint =
        PackageFingerprint::from_normalized(&vec!["foreign".to_owned()]);
    prior.compatibility.id = CompatibilityFingerprint::new(
        prior.compatibility.language_fingerprint,
        prior.compatibility.package_fingerprint,
    );
    let extractor = FakeExtractor::normal();
    let prepared = prepare_default(
        &extractor,
        &project,
        &limits,
        PrepareTestOptions { prior: Some(&prior), trust_mtime: true, ..Default::default() },
    )
    .expect("incompatible refresh");
    assert_eq!(extractor.calls.load(Ordering::Relaxed), 1);
    assert_eq!(prepared.changed_paths, ["a.rs"]);
    assert!(prepared.deleted_paths.is_empty());
}

#[test]
fn tests_changed_and_deleted_paths_are_exact_and_scope_matches_fresh_resolution() {
    let before = project(&[
        ("caller.rs", "fn caller() { helper(); }\n"),
        ("helper.rs", "fn helper() {}\n"),
    ]);
    let limits = ResourceLimits::default();
    let scope = PrepareTestOptions { tier: ResolverTier::Scope, ..Default::default() };
    let initial =
        prepare_default(&FakeExtractor::normal(), &before, &limits, scope).expect("initial");
    let after = project(&[("caller.rs", "fn caller() { replacement(); }\n")]);
    let prior = loaded(initial.snapshot);
    let updated = prepare_default(
        &FakeExtractor::normal(),
        &after,
        &limits,
        PrepareTestOptions {
            prior: Some(&prior),
            tier: ResolverTier::Scope,
            ..Default::default()
        },
    )
    .expect("updated");
    assert_eq!(updated.changed_paths, ["caller.rs"]);
    assert_eq!(updated.deleted_paths, ["helper.rs"]);
    assert!(updated.snapshot.files.iter().all(|file| file.subgraph.is_some()));
}

#[test]
fn tests_budgets_and_extraction_failures_produce_truthful_partial_candidates() {
    let project = project(&[("a.rs", "fn a() {}"), ("b.rs", "fn b() {}")]);
    let limits = ResourceLimits { max_files: 1, ..ResourceLimits::default() };
    let budgeted = prepare_default(
        &FakeExtractor::normal(),
        &project,
        &limits,
        PrepareTestOptions::default(),
    )
    .expect("budgeted");
    assert_eq!(budgeted.snapshot.completeness, CacheCompleteness::Partial);
    assert_eq!(budgeted.snapshot.files.len(), 1);
    assert_eq!(budgeted.snapshot.omissions.len(), 1);
    assert_eq!(budgeted.snapshot.omissions[0].reason, "file-count-limit");

    let failure = FakeExtractor::with_behavior(ExtractBehavior::RemoteExtractionError);
    let omitted = prepare_default(
        &failure,
        &project,
        &ResourceLimits::default(),
        PrepareTestOptions::default(),
    )
    .expect("remote extraction omission");
    assert!(omitted.snapshot.files.is_empty());
    assert_eq!(omitted.snapshot.completeness, CacheCompleteness::Partial);
    assert!(omitted.snapshot.omissions.iter().all(|o| o.reason == "extraction-error"));

    let invalid = FakeExtractor::with_behavior(ExtractBehavior::InvalidFacts);
    let omitted = prepare_default(
        &invalid,
        &project,
        &ResourceLimits::default(),
        PrepareTestOptions::default(),
    )
    .expect("invalid facts omission");
    assert!(omitted.snapshot.files.is_empty());
    assert_eq!(omitted.snapshot.completeness, CacheCompleteness::Partial);
    assert!(omitted.snapshot.omissions.iter().all(|o| o.reason == "extraction-error"));

    let infrastructure = FakeExtractor::with_behavior(ExtractBehavior::InfrastructureError);
    assert!(matches!(
        prepare_default(
            &infrastructure,
            &project,
            &ResourceLimits::default(),
            PrepareTestOptions::default(),
        ),
        Err(CliError::Worker(WorkerFailure::Protocol))
    ));
}

#[test]
fn rejected_extracted_facts_report_the_validation_rule() {
    let project = project(&[("a.rs", "fn a() {}")]);
    let invalid = FakeExtractor::with_behavior(ExtractBehavior::InvalidFacts);
    let prepared = prepare_default(
        &invalid,
        &project,
        &ResourceLimits::default(),
        PrepareTestOptions::default(),
    )
    .expect("invalid extracted facts become a partial candidate");

    assert_eq!(prepared.snapshot.omissions.len(), 1);
    let omission = &prepared.snapshot.omissions[0];
    assert_eq!(omission.reason, "extraction-error");
    assert!(
        omission.detail.contains("duplicates structural identity"),
        "validation detail must identify the rejected invariant: {}",
        omission.detail
    );
    assert_ne!(omission.detail, "isolated extraction failed");
}

#[test]
fn worker_extraction_failures_are_distinct_from_fact_validation_failures() {
    let project = project(&[("a.rs", "fn a() {}")]);
    let failure = FakeExtractor::with_behavior(ExtractBehavior::RemoteExtractionError);
    let prepared = prepare_default(
        &failure,
        &project,
        &ResourceLimits::default(),
        PrepareTestOptions::default(),
    )
    .expect("worker extraction failure becomes a partial candidate");

    assert_eq!(prepared.snapshot.omissions.len(), 1);
    let omission = &prepared.snapshot.omissions[0];
    assert_eq!(omission.reason, "extraction-error");
    assert!(
        omission.detail.contains("worker"),
        "detail must identify the worker extraction stage: {}",
        omission.detail
    );
    assert!(!omission.detail.contains("validation"));
}

fn drift_retries_then_gives_up() {
    let calls = Cell::new(0_u8);
    let result = retry_drift(&Deadline::new(None), &NeverCancelled, |attempt| {
        calls.set(calls.get() + 1);
        if attempt < 2 {
            Err(AttemptError::Drift)
        } else {
            Ok(attempt)
        }
    })
    .expect("second whole attempt succeeds");
    assert_eq!(result, 2);
    assert_eq!(calls.get(), 2);

    let calls = Cell::new(0_u8);
    let exhausted: Result<(), CliError> =
        retry_drift(&Deadline::new(None), &NeverCancelled, |_| {
            calls.set(calls.get() + 1);
            Err(AttemptError::Drift)
        });
    assert!(matches!(exhausted, Err(CliError::Index(_))));
    assert_eq!(calls.get(), MAX_REFRESH_ATTEMPTS);
}

#[test]
fn prepare_drift_retries_the_whole_attempt_and_exhaustion_is_fatal() {
    drift_retries_then_gives_up();
}

#[test]
fn tests_drift_retries_the_whole_attempt_and_exhaustion_is_fatal() {
    drift_retries_then_gives_up();
}

struct Cancelled;

impl Cancellation for Cancelled {
    fn is_cancelled(&self) -> bool {
        true
    }
}

#[test]
fn tests_deadline_and_cancellation_abort_before_extraction() {
    let project = project(&[("a.rs", "fn a() {}")]);
    let extractor = FakeExtractor::normal();
    assert!(matches!(
        prepare(
            &extractor,
            &project,
            &ResourceLimits::default(),
            PrepareTestOptions::default(),
            &Deadline::new(Some(Duration::ZERO)),
            &NeverCancelled,
        ),
        Err(CliError::Timeout)
    ));
    assert!(matches!(
        prepare(
            &extractor,
            &project,
            &ResourceLimits::default(),
            PrepareTestOptions::default(),
            &Deadline::new(None),
            &Cancelled,
        ),
        Err(CliError::Cancelled)
    ));
    assert_eq!(extractor.calls.load(Ordering::Relaxed), 0);
}

fn inventory_file(name: &str) -> InventoryFile {
    let bytes = b"fn helper() {}".to_vec();
    InventoryFile {
        path: ProjectPath::new(name.as_bytes()).unwrap(),
        language: Language::Rust,
        text: String::from_utf8(bytes.clone()).unwrap(),
        blake3: blake3::hash(&bytes).to_hex().to_string(),
        bytes,
        mtime: None,
    }
}

fn crashing(behavior: CrashKind, respawned: bool) -> (FakeRecoverableWorker, Arc<AtomicUsize>) {
    let respawns = Arc::new(AtomicUsize::new(0));
    (FakeRecoverableWorker { behavior, respawned, respawns: Arc::clone(&respawns) }, respawns)
}

#[test]
fn recovery_returns_facts_omits_poison_and_stays_fatal_on_deadline() {
    // A healthy worker extracts without any respawn.
    let (mut healthy, respawns) = crashing(CrashKind::DieOnceThenRecover, true);
    assert!(extract_with_recovery(
        &mut healthy,
        &inventory_file("a.rs"),
        1,
        &Deadline::new(None),
        &NeverCancelled,
    )
    .is_ok());
    assert_eq!(respawns.load(Ordering::Relaxed), 0);

    // A transient crash recovers after exactly one respawn.
    let (mut transient, respawns) = crashing(CrashKind::DieOnceThenRecover, false);
    assert!(extract_with_recovery(
        &mut transient,
        &inventory_file("a.rs"),
        1,
        &Deadline::new(None),
        &NeverCancelled,
    )
    .is_ok());
    assert_eq!(respawns.load(Ordering::Relaxed), 1);

    // A file that crashes a second, fresh worker is left out, and a fresh worker is
    // spawned for the next file.
    let (mut poison, respawns) = crashing(CrashKind::PoisonPath("a.rs".into()), false);
    assert!(matches!(
        extract_with_recovery(
            &mut poison,
            &inventory_file("a.rs"),
            1,
            &Deadline::new(None),
            &NeverCancelled,
        ),
        Ok(ExtractionOutcome::Omitted { detail }) if detail.contains("worker repeatedly crashed")
    ));
    assert_eq!(respawns.load(Ordering::Relaxed), 2);

    // An already-expired deadline is fatal, never a recoverable crash.
    let (mut expired, respawns) = crashing(CrashKind::PoisonPath("a.rs".into()), false);
    assert!(matches!(
        extract_with_recovery(
            &mut expired,
            &inventory_file("a.rs"),
            1,
            &Deadline::new(Some(Duration::ZERO)),
            &NeverCancelled,
        ),
        Err(CliError::Timeout)
    ));
    assert_eq!(respawns.load(Ordering::Relaxed), 0);
}

#[test]
fn malformed_pooled_worker_failure_is_fatal_without_crash_omission() {
    let project = project(&[("bad.rs", "fn bad() {}\n"), ("good.rs", "fn good() {}\n")]);
    let respawns = Arc::new(AtomicUsize::new(0));
    let extractor = CrashExtractor {
        behavior: CrashKind::MalformedPath("bad.rs".into()),
        respawns: Arc::clone(&respawns),
    };
    assert!(matches!(
        prepare_default(
            &extractor,
            &project,
            &ResourceLimits::default(),
            PrepareTestOptions::default(),
        ),
        Err(CliError::Worker(WorkerFailure::Protocol))
    ));
    assert_eq!(respawns.load(Ordering::Relaxed), 0);
}

#[test]
fn a_poison_file_omits_itself_while_other_files_still_extract() {
    let project = project(&[
        ("good_one.rs", "fn good_one() {}\n"),
        ("poison.rs", "fn poison() {}\n"),
        ("good_two.rs", "fn good_two() {}\n"),
    ]);
    let extractor = CrashExtractor {
        behavior: CrashKind::PoisonPath("poison.rs".into()),
        respawns: Arc::new(AtomicUsize::new(0)),
    };
    let prepared = prepare_default(
        &extractor,
        &project,
        &ResourceLimits::default(),
        PrepareTestOptions::default(),
    )
    .expect("a single poison file must not abort the whole run");
    let files: Vec<_> = prepared.snapshot.files.iter().map(|file| file.path.as_str()).collect();
    assert_eq!(files, ["good_one.rs", "good_two.rs"]);
    assert_eq!(prepared.snapshot.completeness, CacheCompleteness::Partial);
    let omission = prepared
        .snapshot
        .omissions
        .iter()
        .find(|omission| omission.path == "poison.rs")
        .expect("poison file omission");
    assert_eq!(omission.reason, "extraction-error");
    assert!(
        omission.detail.contains("crash"),
        "a repeatable worker crash must remain distinguishable: {}",
        omission.detail
    );
}

#[test]
fn a_transient_crash_recovers_and_the_file_is_kept() {
    let project = project(&[("a.rs", "fn a() {}\n")]);
    let respawns = Arc::new(AtomicUsize::new(0));
    let extractor = CrashExtractor {
        behavior: CrashKind::DieOnceThenRecover,
        respawns: Arc::clone(&respawns),
    };
    let prepared = prepare_default(
        &extractor,
        &project,
        &ResourceLimits::default(),
        PrepareTestOptions::default(),
    )
    .expect("a transient crash must recover on retry");
    assert_eq!(prepared.snapshot.completeness, CacheCompleteness::Complete);
    assert_eq!(prepared.snapshot.files.len(), 1);
    assert_eq!(prepared.snapshot.files[0].path, "a.rs");
    assert_eq!(respawns.load(Ordering::Relaxed), 1);
}

#[test]
fn production_entry_point_loads_project_config_with_no_source_to_extract() {
    let project = project(&[(
        "code2graph.toml",
        "[[query_binding]]\nlang = \"rust\"\nconstruct = \"mydb::sql\"\nsql_arg = 0\n",
    )]);
    let seen = Cell::new(0_usize);
    let prepared = prepare_refresh_candidate(
        ConfigRead::Tables(vec![RawQueryBindingRule {
            lang: "rust".into(),
            construct: "mydb::sql".into(),
            sql_arg: 0,
        }]),
        "code2graph.toml",
        &Deadline::new(None),
        &NeverCancelled,
        |rules: &Vec<QueryBindingRule>, number: u8| {
            seen.set(rules.len());
            attempt(
                &FakeExtractor::normal(),
                &project,
                &ResourceLimits::default(),
                PrepareTestOptions::default(),
                &Deadline::new(None),
                &NeverCancelled,
                number,
            )
        },
    )
    .expect("a valid project config must not block preparation");
    assert!(prepared.snapshot.files.is_empty());
    assert_eq!(seen.get(), 1);
}

#[test]
fn production_entry_point_propagates_a_malformed_project_config() {
    let project = project(&[("code2graph.toml", "not = [valid"), ("a.rs", "fn a() {}\n")]);
    let calls = Cell::new(0_usize);
    assert!(matches!(
        prepare_refresh_candidate(
            ConfigRead::Malformed { why: "invalid array".into() },
            "code2graph.toml",
            &Deadline::new(None),
            &NeverCancelled,
            |_rules: &Vec<QueryBindingRule>, number: u8| {
                calls.set(calls.get() + 1);
                attempt(
                    &FakeExtractor::normal(),
                    &project,
                    &ResourceLimits::default(),
                    PrepareTestOptions::default(),
                    &Deadline::new(None),
                    &NeverCancelled,
                    number,
                )
            },
        ),
        Err(CliError::Fatal(_))
    ));
    assert_eq!(calls.get(), 0);
}

/// Publishes a candidate of one file and one graph into an empty cache and loads what the
/// slot of the tier then shows.
fn publish_and_load(
    snapshot: &CandidateSnapshot,
    tier: ResolverCacheTier,
    source: &str,
) -> LoadedSnapshot {
    let deadline = Deadline::new(None);
    let payloads =
        CandidatePayloads { facts: vec![b"{}".to_vec()], graphs: vec![b"{}".to_vec()] };
    let prepared =
        prepare_publication(true, snapshot, &payloads, &deadline).expect("prepare publication");
    let empty = StoredCandidate {
        compatibility: None,
        candidate: None,
        omissions: Vec::new(),
        files: Vec::new(),
        graphs: Vec::new(),
    };
    let steps = plan_publication(&prepared, &empty, &deadline).expect("publish");
    let created_at = prepared.created_at;
    assert_eq!(
        steps,
        [
            PublishStep::InsertCompatibility,
            PublishStep::InsertCandidate,
            PublishStep::InsertFile { index: 0 },
            PublishStep::InsertGraph { index: 0, created_at },
            PublishStep::Activate { index: 0 },
        ]
    );
    let active = ActiveRow {
        candidate_id: prepared.candidate_id.to_vec(),
        tier: prepared.graphs[0].tier.as_sql().to_owned(),
        completeness: prepared.completeness,
        compatibility_id: prepared.compatibility_id.to_vec(),
    };
    let id = select_active(
        Some(active),
        tier,
        snapshot.completeness,
        Some(snapshot.compatibility.id),
    )
    .expect("load")
    .expect("active");
    let file = &prepared.files[0];
    let row = CandidateFileRow {
        path: file.path.clone(),
        language: file.language.clone(),
        content_hash: file.content_hash.to_vec(),
        size_bytes: file.size_bytes,
        mtime_seconds: file.mtime_seconds,
        mtime_nanoseconds: file.mtime_nanoseconds,
        package_assignment: file.package_assignment.clone(),
        file_facts: file.facts.clone(),
        file_subgraph: file.subgraph.clone(),
    };
    let rows = CandidateRows {
        header: Some(CandidateSnapshotRow {
            compatibility_id: prepared.compatibility_id.to_vec(),
            language_fingerprint: prepared.language_fingerprint.to_vec(),
            package_fingerprint: prepared.package_fingerprint.to_vec(),
            input_digest: prepared.input_digest.to_vec(),
            completeness: prepared.completeness,
            created_at_ns: prepared.created_at,
            compatibility_created_at_ns: prepared.compatibility_created_at,
            inventory_file_count: prepared.inventory_file_count,
            inventory_total_bytes: prepared.inventory_total_bytes,
        }),
        omissions: prepared.omissions.clone(),
        files: vec![decode_file_row(
            row,
            |_: &serde_json::Value| Some(extract_path(&file.path, source)),
            |value: &serde_json::Value| {
                let encoded = serde_json::to_vec(value).ok()?;
                Some(FileSubgraph { owner: file.path.clone(), encoded })
            },
        )],
        graphs: vec![LoadedGraphRow {
            tier: prepared.graphs[0].tier.as_sql().to_owned(),
            graph: load_graph(Some(prepared.graphs[0].blob.clone()), |_: &serde_json::Value| {
                Some(CodeGraph { symbols: Vec::new(), edges: Vec::new() })
            }),
            created_at_ns: prepared.created_at,
        }],
    };
    load_candidate(id, rows, Some(tier), &deadline).expect("load")
}

fn prepared_scope_round_trip() {
    let source = "fn a() {}\n";
    let prepared = prepare_default(
        &FakeExtractor::normal(),
        &project(&[("a.rs", source)]),
        &ResourceLimits::default(),
        PrepareTestOptions { tier: ResolverTier::Scope, ..Default::default() },
    )
    .expect("prepare");
    let snapshot = &prepared.snapshot;
    let loaded = publish_and_load(snapshot, ResolverCacheTier::Scope, source);
    assert_eq!(loaded.candidate_id, snapshot.candidate_id);
    assert_eq!(loaded.inventory_file_count, snapshot.inventory_file_count);
    assert_eq!(loaded.inventory_total_bytes, snapshot.inventory_total_bytes);
    assert_eq!(loaded.files[0].package_assignment, snapshot.files[0].package_assignment);
    assert!(loaded.files[0].subgraph.is_some());
    assert_eq!(loaded.files, snapshot.files);
    assert_eq!(loaded.tier_graphs, snapshot.tier_graphs);
}

#[test]
fn prepare_prepared_scope_candidate_publishes_and_loads_roundtrip() {
    prepared_scope_round_trip();
}

#[test]
fn tests_prepared_scope_candidate_publishes_and_loads_roundtrip() {
    prepared_scope_round_trip();
}
