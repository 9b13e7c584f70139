//! Publication, loading and the schema of the cache, over tables that live in memory.

use serde_json::Value;

use code2graph::cache::codec::{decode_file_facts, restore_subgraph};
use code2graph::cache::fingerprint::{
    CandidateId, CompatibilityFingerprint, LanguageFeatureFingerprint, PackageFingerprint,
    ProjectInputDigest,
};
use code2graph::cache::load::{
    decode_file_row, hydrate_scope_subgraphs, load_candidate, load_graph, select_active,
    ActiveRow, CandidateFileRow, CandidateRows, CandidateSnapshotRow, LoadedGraphRow,
};
use code2graph::cache::location::ProjectKey;
use code2graph::cache::publish::{
    plan_publication, prepare_publication, ExistingCandidateRow, ExistingCompatibilityRow,
    ExistingGraphRow, PublishStep, StoredCandidate,
};
use code2graph::cache::rows::{CandidatePayloads, PreparedCandidate};
use code2graph::cache::schema::{
    busy_timeout, check_settings, derived_tables, ensure_pristine_v0, lock_wait, map_io_error,
    map_sqlite_error, map_validation_error, open_read_only_step, open_writable_step,
    schema_indexes, schema_tables, schema_version, validate_v1, DatabaseFault, MetaRow,
    ObservedSchema, OpenStep, APPLICATION_ID, APPLICATION_IDENTITY, LOCK_WAIT_CAP_NS, SCHEMA_VERSION,
};
use code2graph::cache::snapshot::{
    CandidateFileRecord, CandidateSnapshot, CompatibilityRecord, LoadedSnapshot,
};
use code2graph::cache::transaction::{next_stage, TransactionNext, TransactionStage};
use code2graph::cache::types::{
    CacheCompleteness, CacheError, CacheOmission, ResolverCacheTier,
};
use code2graph::deadline::Deadline;
use code2graph::error::CliError;
use code2graph::execution::cache_policy::{
    is_recoverable_cache_error, load_or_invalidate, CacheLoadFailure, LoadRecovery,
};
use code2graph::graph::{CodeGraph, FileFacts, FileSubgraph};
use code2graph::inventory::types::{MtimeHint, StableIoErrorKind};

fn empty_facts(path: &str) -> FileFacts {
    FileFacts {
        file: path.into(),
        lang: "rust".into(),
        symbols: Vec::new(),
        references: Vec::new(),
        scopes: Vec::new(),
        bindings: Vec::new(),
        ffi_exports: Vec::new(),
    }
}

fn empty_graph() -> CodeGraph {
    CodeGraph { symbols: Vec::new(), edges: Vec::new() }
}

fn named(candidate: &mut CandidateSnapshot) {
    candidate.candidate_id = CandidateId::new(
        candidate.compatibility.id,
        candidate.input_digest,
        candidate.completeness,
        &candidate.omissions,
    );
}

fn candidate(completeness: CacheCompleteness, tier: ResolverCacheTier) -> CandidateSnapshot {
    let file = CandidateFileRecord {
        path: "src/a.rs".into(),
        language: "rust".into(),
        content_hash: [3; 32],
        size_bytes: 0,
        mtime: Some(MtimeHint { seconds_since_unix_epoch: 0, nanoseconds: 4 }),
        package_assignment: "10:assignment8:src/a.rs4:none".into(),
        facts: empty_facts("src/a.rs"),
        subgraph: None,
    };
    let input_digest = ProjectInputDigest::from_inputs(&vec![(
        "src/a.rs".to_owned(),
        "rust".to_owned(),
        [3; 32],
    )]);
    let omissions = Vec::new();
    let language_fingerprint = LanguageFeatureFingerprint::current();
    let package_fingerprint = PackageFingerprint::from_normalized(&vec!["test".to_owned()]);
    let compatibility_id = CompatibilityFingerprint::new(language_fingerprint, package_fingerprint);
    CandidateSnapshot {
        candidate_id: CandidateId::new(compatibility_id, input_digest, completeness, &omissions),
        compatibility: CompatibilityRecord {
            id: compatibility_id,
            language_fingerprint,
            package_fingerprint,
            created_at_ns: 1,
        },
        input_digest,
        completeness,
        omissions,
        created_at_ns: 2,
        inventory_file_count: 1,
        inventory_total_bytes: 0,
        files: vec![file],
        tier_graphs: vec![(tier, empty_graph())],
    }
}

fn payloads(candidate: &CandidateSnapshot) -> CandidatePayloads {
    CandidatePayloads {
        facts: candidate
            .files
            .iter()
            .map(|file| {
                let path = Value::String(file.facts.file.clone());
                format!("{{\"file\":{path},\"lang\":\"rust\"}}").into_bytes()
            })
            .collect(),
        graphs: candidate
            .tier_graphs
            .iter()
            .map(|_| b"{\"symbols\":[],\"edges\":[]}".to_vec())
            .collect(),
    }
}

fn read_facts(value: &Value) -> Option<FileFacts> {
    Some(empty_facts(value.get("file")?.as_str()?))
}

fn read_graph(value: &Value) -> Option<CodeGraph> {
    value.get("symbols")?.as_array()?;
    Some(empty_graph())
}

fn read_subgraph(value: &Value) -> Option<FileSubgraph> {
    Some(FileSubgraph {
        owner: value.get("owner")?.as_str()?.to_owned(),
        encoded: serde_json::to_vec(value).ok()?,
    })
}

#[derive(Clone, Debug, PartialEq)]
struct CandidateEntry {
    id: [u8; 32],
    row: ExistingCandidateRow,
    language_fingerprint: [u8; 32],
    package_fingerprint: [u8; 32],
    compatibility_created_at: i64,
}

/// The tables of the cache.
#[derive(Clone, Debug, PartialEq, Default)]
struct Tables {
    compatibility: Vec<([u8; 32], ExistingCompatibilityRow, i64)>,
    candidates: Vec<CandidateEntry>,
    omissions: Vec<([u8; 32], CacheOmission)>,
    files: Vec<([u8; 32], CandidateFileRow)>,
    graphs: Vec<([u8; 32], ResolverCacheTier, Vec<u8>, i64)>,
    active: Vec<(ResolverCacheTier, i64, [u8; 32])>,
}

impl Tables {
    fn stored(&self, prepared: &PreparedCandidate) -> StoredCandidate {
        let id = prepared.candidate_id;
        StoredCandidate {
            compatibility: self
                .compatibility
                .iter()
                .find(|row| row.0 == prepared.compatibility_id)
                .map(|row| row.1.clone()),
            candidate: self.candidates.iter().find(|row| row.id == id).map(|row| row.row.clone()),
            omissions: self
                .omissions
                .iter()
                .filter(|row| row.0 == id)
                .map(|row| row.1.clone())
                .collect(),
            files: self
                .files
                .iter()
                .filter(|row| row.0 == id)
                .map(|row| row.1.clone())
                .collect(),
            graphs: self
                .graphs
                .iter()
                .filter(|row| row.0 == id)
                .map(|row| ExistingGraphRow { tier: row.1, blob: row.2.clone() })
                .collect(),
        }
    }

    fn apply(&mut self, prepared: &PreparedCandidate, step: PublishStep) {
        let id = prepared.candidate_id;
        match step {
            PublishStep::InsertCompatibility => self.compatibility.push((
                prepared.compatibility_id,
                ExistingCompatibilityRow {
                    language_fingerprint: prepared.language_fingerprint.to_vec(),
                    package_fingerprint: prepared.package_fingerprint.to_vec(),
                },
                prepared.compatibility_created_at,
            )),
            PublishStep::InsertCandidate => self.candidates.push(CandidateEntry {
                id,
                row: ExistingCandidateRow {
                    compatibility_id: prepared.compatibility_id.to_vec(),
                    input_digest: prepared.input_digest.to_vec(),
                    completeness: prepared.completeness,
                    inventory_file_count: prepared.inventory_file_count,
                    inventory_total_bytes: prepared.inventory_total_bytes,
                    created_at_ns: prepared.created_at,
                },
                language_fingerprint: prepared.language_fingerprint,
                package_fingerprint: prepared.package_fingerprint,
                compatibility_created_at: prepared.compatibility_created_at,
            }),
            PublishStep::InsertOmission { index } => {
                self.omissions.push((id, prepared.omissions[index].clone()));
            }
            PublishStep::InsertFile { index } => {
                let file = &prepared.files[index];
                self.files.push((
                    id,
                    CandidateFileRow {
                        path: file.path.clone(),
                        language: file.language.clone(),
                        content_hash: file.content_hash.to_vec(),
                        size_bytes: file.size_bytes,
                        mtime_seconds: file.mtime_seconds,
                        mtime_nanoseconds: file.mtime_nanoseconds,
                        package_assignment: file.package_assignment.clone(),
                        file_facts: file.facts.clone(),
                        file_subgraph: file.subgraph.clone(),
                    },
                ));
            }
            PublishStep::FillSubgraph { index } => {
                let file = &prepared.files[index];
                for row in &mut self.files {
                    if row.0 == id && row.1.path == file.path {
                        row.1.file_subgraph = file.subgraph.clone();
                    }
                }
            }
            PublishStep::InsertGraph { index, created_at } => {
                let graph = &prepared.graphs[index];
                self.graphs.push((id, graph.tier, graph.blob.clone(), created_at));
            }
            PublishStep::Activate { index } => {
                let tier = prepared.graphs[index].tier;
                self.active
                    .retain(|row| row.0 != tier || row.1 != prepared.completeness);
                self.active.push((tier, prepared.completeness, id));
            }
        }
    }

    fn publish_steps(
        &self,
        candidate: &CandidateSnapshot,
        deadline: &Deadline,
    ) -> Result<(PreparedCandidate, Vec<PublishStep>), CacheError> {
        let prepared = prepare_publication(true, candidate, &payloads(candidate), deadline)?;
        let steps = plan_publication(&prepared, &self.stored(&prepared), deadline)?;
        Ok((prepared, steps))
    }

    fn publish(&mut self, candidate: &CandidateSnapshot) -> Result<(), CacheError> {
        let (prepared, steps) = self.publish_steps(candidate, &Deadline::new(None))?;
        for step in steps {
            self.apply(&prepared, step);
        }
        Ok(())
    }

    fn load(
        &self,
        id: [u8; 32],
        tier: Option<ResolverCacheTier>,
    ) -> Result<LoadedSnapshot, CacheError> {
        let rows = CandidateRows {
            header: self.candidates.iter().find(|entry| entry.id == id).map(|entry| {
                CandidateSnapshotRow {
                    compatibility_id: entry.row.compatibility_id.clone(),
                    language_fingerprint: entry.language_fingerprint.to_vec(),
                    package_fingerprint: entry.package_fingerprint.to_vec(),
                    input_digest: entry.row.input_digest.clone(),
                    completeness: entry.row.completeness,
                    created_at_ns: entry.row.created_at_ns,
                    compatibility_created_at_ns: entry.compatibility_created_at,
                    inventory_file_count: entry.row.inventory_file_count,
                    inventory_total_bytes: entry.row.inventory_total_bytes,
                }
            }),
            omissions: self
                .omissions
                .iter()
                .filter(|row| row.0 == id)
                .map(|row| row.1.clone())
                .collect(),
            files: self
                .files
                .iter()
                .filter(|row| row.0 == id)
                .map(|row| decode_file_row(row.1.clone(), read_facts, read_subgraph))
                .collect(),
            graphs: self
                .graphs
                .iter()
                .filter(|row| row.0 == id)
                .map(|row| LoadedGraphRow {
                    tier: row.1.as_sql().to_owned(),
                    graph: load_graph(Some(row.2.clone()), read_graph),
                    created_at_ns: row.3,
                })
                .collect(),
        };
        let candidate_id = code2graph::cache::rows::fingerprint_from_blob(&id)?;
        load_candidate(candidate_id, rows, tier, &Deadline::new(None))
    }

    fn load_active(
        &self,
        tier: ResolverCacheTier,
        completeness: CacheCompleteness,
        expected: Option<CompatibilityFingerprint>,
    ) -> Result<Option<LoadedSnapshot>, CacheError> {
        let active = self
            .active
            .iter()
            .find(|row| row.0 == tier && row.1 == completeness.as_sql())
            .and_then(|row| {
                let entry = self.candidates.iter().find(|entry| entry.id == row.2)?;
                Some(ActiveRow {
                    candidate_id: row.2.to_vec(),
                    tier: row.0.as_sql().to_owned(),
                    completeness: entry.row.completeness,
                    compatibility_id: entry.row.compatibility_id.clone(),
                })
            });
        let Some(row) = active.clone() else {
            return select_active(None, tier, completeness, expected).map(|_| None);
        };
        match select_active(active, tier, completeness, expected)? {
            None => Ok(None),
            Some(_) => {
                let mut id = [0_u8; 32];
                id.copy_from_slice(&row.candidate_id);
                self.load(id, None).map(Some)
            }
        }
    }
}

#[test]
fn candidate_publication_keeps_complete_and_partial_slots_independent() {
    let mut store = Tables::default();
    let complete = candidate(CacheCompleteness::Complete, ResolverCacheTier::Name);
    let partial = candidate(CacheCompleteness::Partial, ResolverCacheTier::Name);
    store.publish(&complete).expect("publish complete");
    store.publish(&partial).expect("publish partial");
    let load = |store: &Tables, completeness: CacheCompleteness, id: CompatibilityFingerprint| {
        store.load_active(ResolverCacheTier::Name, completeness, Some(id)).expect("load")
    };
    let loaded_complete =
        load(&store, CacheCompleteness::Complete, complete.compatibility.id).expect("active");
    assert_eq!(loaded_complete.candidate_id, complete.candidate_id);
    assert_eq!(
        load(&store, CacheCompleteness::Partial, partial.compatibility.id)
            .expect("active")
            .candidate_id,
        partial.candidate_id
    );
    assert_eq!(
        loaded_complete.compatibility.language_fingerprint,
        complete.compatibility.language_fingerprint
    );
    assert_eq!(
        loaded_complete.compatibility.package_fingerprint,
        complete.compatibility.package_fingerprint
    );
    let incompatible = CompatibilityFingerprint::new(
        LanguageFeatureFingerprint::current(),
        PackageFingerprint::from_normalized(&vec!["different-package".to_owned()]),
    );
    assert!(load(&store, CacheCompleteness::Complete, incompatible).is_none());
    let before = store.clone();
    let (_, steps) =
        store.publish_steps(&complete, &Deadline::new(None)).expect("idempotent publish");
    assert_eq!(steps, [PublishStep::Activate { index: 0 }]);
    store.publish(&complete).expect("idempotent publish");
    assert_eq!(store.candidates, before.candidates);
    assert_eq!(store.graphs, before.graphs);
}

#[test]
fn latest_active_loads_full_snapshot_without_compatibility_or_mutation() {
    let mut store = Tables::default();
    let mut complete = candidate(CacheCompleteness::Complete, ResolverCacheTier::Name);
    complete.tier_graphs.push((ResolverCacheTier::Dense, empty_graph()));
    let partial = candidate(CacheCompleteness::Partial, ResolverCacheTier::Dense);
    store.publish(&complete).expect("publish complete");
    store.publish(&partial).expect("publish partial");
    let latest = |tier: ResolverCacheTier, completeness: CacheCompleteness| {
        store.load_active(tier, completeness, None).expect("load")
    };
    let loaded =
        latest(ResolverCacheTier::Name, CacheCompleteness::Complete).expect("active");
    assert_eq!(loaded.candidate_id, complete.candidate_id);
    assert_eq!(loaded.tier_graphs.len(), 2);
    assert_eq!(
        latest(ResolverCacheTier::Dense, CacheCompleteness::Partial)
            .expect("active")
            .candidate_id,
        partial.candidate_id
    );
    assert!(latest(ResolverCacheTier::Scope, CacheCompleteness::Complete).is_none());
    let before = store.clone();
    let again = before
        .load_active(ResolverCacheTier::Name, CacheCompleteness::Complete, None)
        .expect("load")
        .expect("active");
    assert_eq!(again.candidate_id, loaded.candidate_id);
    assert_eq!(again.files, loaded.files);
    assert_eq!(again.tier_graphs, loaded.tier_graphs);
    assert_eq!(before, store);
}

#[test]
fn a_lock_is_waited_for_as_long_as_the_deadline_allows() {
    assert_eq!(lock_wait(&Deadline::new(None)), Ok(LOCK_WAIT_CAP_NS));
    let long = Deadline::new(Some(std::time::Duration::MAX));
    assert_eq!(lock_wait(&long), Ok(LOCK_WAIT_CAP_NS));
    let none = Deadline::new(Some(std::time::Duration::ZERO));
    assert_eq!(lock_wait(&none), Err(CacheError::Timeout));
}

#[test]
fn derived_tables_are_all_but_the_identity_of_the_cache() {
    let derived = derived_tables();
    for table in schema_tables() {
        assert_eq!(derived.contains(&table.name), table.name != "meta", "{}", table.name);
    }
    assert_eq!(derived.first(), Some(&"active_snapshots"));
    assert_eq!(derived.last(), Some(&"compatibility"));
}

#[test]
fn latest_active_rejects_a_corrupt_active_row() {
    let mut store = Tables::default();
    let snapshot = candidate(CacheCompleteness::Complete, ResolverCacheTier::Name);
    store.publish(&snapshot).expect("publish");
    store.candidates[0].row.completeness = 99;
    assert!(matches!(
        store.load_active(ResolverCacheTier::Name, CacheCompleteness::Complete, None),
        Err(CacheError::Corrupt)
    ));
}

#[test]
fn signed_mtime_round_trips_before_the_unix_epoch() {
    let mut store = Tables::default();
    let mut snapshot = candidate(CacheCompleteness::Complete, ResolverCacheTier::Name);
    snapshot.files[0].mtime =
        Some(MtimeHint { seconds_since_unix_epoch: -2, nanoseconds: 999_999_999 });
    store.publish(&snapshot).expect("publish");
    let loaded = store
        .load_active(
            ResolverCacheTier::Name,
            CacheCompleteness::Complete,
            Some(snapshot.compatibility.id),
        )
        .expect("load")
        .expect("active");
    assert_eq!(loaded.files[0].mtime, snapshot.files[0].mtime);

    let mut invalid = candidate(CacheCompleteness::Partial, ResolverCacheTier::Name);
    invalid.files[0].mtime =
        Some(MtimeHint { seconds_since_unix_epoch: -1, nanoseconds: 1_000_000_000 });
    assert!(matches!(store.publish(&invalid), Err(CacheError::InvalidCandidate)));
}

#[test]
fn rejects_inconsistent_candidates_and_conflicting_republication() {
    let mut store = Tables::default();
    let mut unsorted = candidate(CacheCompleteness::Partial, ResolverCacheTier::Name);
    unsorted.omissions = vec![
        CacheOmission { path: "z".into(), reason: "x".into(), detail: "detail".into() },
        CacheOmission { path: "a".into(), reason: "x".into(), detail: "detail".into() },
    ];
    named(&mut unsorted);
    assert!(matches!(store.publish(&unsorted), Err(CacheError::InvalidCandidate)));

    let mut overflow = candidate(CacheCompleteness::Complete, ResolverCacheTier::Name);
    overflow.created_at_ns = u64::MAX;
    assert!(matches!(store.publish(&overflow), Err(CacheError::InvalidCandidate)));

    let original = candidate(CacheCompleteness::Complete, ResolverCacheTier::Name);
    store.publish(&original).expect("publish");
    let mut republished = original.clone();
    republished.created_at_ns += 1;
    republished.compatibility.created_at_ns += 1;
    store.publish(&republished).expect("timestamps are store-owned and do not conflict");
    assert_eq!(
        store
            .load_active(
                ResolverCacheTier::Name,
                CacheCompleteness::Complete,
                Some(original.compatibility.id),
            )
            .expect("load")
            .expect("active")
            .created_at_ns,
        original.created_at_ns
    );

    // Another graph under a published identity is a conflict.
    store.graphs[0].2 = b"other".to_vec();
    assert!(matches!(store.publish(&original), Err(CacheError::CandidateConflict)));
    assert!(matches!(
        prepare_publication(false, &original, &payloads(&original), &Deadline::new(None)),
        Err(CacheError::ReadOnly)
    ));
}

fn with_subgraph(mut snapshot: CandidateSnapshot) -> CandidateSnapshot {
    snapshot.files[0].subgraph = Some(FileSubgraph {
        owner: "src/a.rs".into(),
        encoded: b"{\"owner\":\"src/a.rs\"}".to_vec(),
    });
    snapshot
}

#[test]
fn scope_publication_requires_and_restores_every_owned_subgraph() {
    let mut store = Tables::default();
    let snapshot = candidate(CacheCompleteness::Complete, ResolverCacheTier::Scope);
    assert!(matches!(store.publish(&snapshot), Err(CacheError::InvalidCandidate)));
    // A Name snapshot may be published first; a later Scope publication for the identical
    // candidate augments its per-file subgraphs.
    let name = candidate(CacheCompleteness::Complete, ResolverCacheTier::Name);
    store.publish(&name).expect("publish name");
    let snapshot = with_subgraph(snapshot);
    store.publish(&snapshot).expect("augment with scope");
    let loaded = store
        .load_active(ResolverCacheTier::Scope, CacheCompleteness::Complete, None)
        .expect("load")
        .expect("active");
    let restored = hydrate_scope_subgraphs(&loaded, &Deadline::new(None)).expect("hydrate");
    assert_eq!(restored.len(), 1);
    let subgraph = restore_subgraph(&restored[0].blob, &restored[0].path, read_subgraph);
    assert_eq!(subgraph.ok(), snapshot.files[0].subgraph);

    let mut bare = loaded.clone();
    bare.tier_graphs.retain(|graph| graph.0 != ResolverCacheTier::Scope);
    assert!(matches!(
        hydrate_scope_subgraphs(&bare, &Deadline::new(None)),
        Err(CacheError::SnapshotMissing)
    ));
}

#[test]
fn malformed_and_missing_graph_blobs_are_typed() {
    assert!(matches!(load_graph(None, read_graph), Err(CacheError::SnapshotMissing)));
    assert!(matches!(
        load_graph(Some(b"not-json".to_vec()), read_graph),
        Err(CacheError::Malformed)
    ));
}

#[test]
fn zero_deadline_precedes_candidate_validation_and_publication() {
    let store = Tables::default();
    let mut invalid = candidate(CacheCompleteness::Complete, ResolverCacheTier::Name);
    invalid.inventory_file_count = 99;
    assert!(matches!(
        store.publish_steps(&invalid, &Deadline::new(Some(std::time::Duration::ZERO))),
        Err(CacheError::Timeout)
    ));
    assert!(matches!(
        store.publish_steps(&invalid, &Deadline::new(None)),
        Err(CacheError::InvalidCandidate)
    ));
}

#[test]
fn a_loaded_file_that_breaks_its_own_record_is_refused() {
    let mut store = Tables::default();
    let snapshot = candidate(CacheCompleteness::Complete, ResolverCacheTier::Name);
    store.publish(&snapshot).expect("publish");
    let mut wrong_facts = store.clone();
    wrong_facts.files[0].1.file_facts = code2graph::cache::codec::encode_file_facts(
        b"{\"file\":\"wrong.rs\",\"lang\":\"rust\"}",
    )
    .expect("encode");
    assert!(decode_file_facts(&wrong_facts.files[0].1.file_facts, read_facts).is_ok());
    let refused =
        wrong_facts.load_active(ResolverCacheTier::Name, CacheCompleteness::Complete, None);
    let Err(error) = refused else { panic!("facts of another file must not load") };
    assert!(is_recoverable_cache_error(&error));

    let mut wrong_hash = store.clone();
    wrong_hash.files[0].1.content_hash = vec![3; 31];
    assert!(matches!(
        wrong_hash.load_active(ResolverCacheTier::Name, CacheCompleteness::Complete, None),
        Err(CacheError::Corrupt)
    ));
}

fn observed(root: &[u8]) -> ObservedSchema {
    ObservedSchema {
        application_id: Ok(APPLICATION_ID),
        tables: schema_tables().iter().map(|table| Ok(Some(table.sql.to_owned()))).collect(),
        indexes: schema_indexes().iter().map(|index| Ok(Some(index.sql.to_owned()))).collect(),
        meta: Ok(Some(MetaRow {
            application_identity: APPLICATION_IDENTITY.to_owned(),
            canonical_root: root.to_vec(),
            project_key: ProjectKey::from_canonical_root(root).as_bytes().to_vec(),
        })),
    }
}

#[test]
fn creates_and_reopens_exact_v1_identity() {
    let key = ProjectKey::from_canonical_root(b"/project").as_bytes();
    assert_eq!(validate_v1(&observed(b"/project"), b"/project", &key), Ok(()));
    assert_eq!(open_writable_step(0), Ok(OpenStep::Initialize));
    assert_eq!(open_writable_step(SCHEMA_VERSION), Ok(OpenStep::Validate));
    assert_eq!(open_read_only_step(true, SCHEMA_VERSION), Ok(()));
    assert_eq!(schema_version(SCHEMA_VERSION), Ok(1));
}

#[test]
fn future_schema_does_not_mutate_database() {
    assert_eq!(open_writable_step(SCHEMA_VERSION + 1), Err(CacheError::UnsupportedSchema));
    assert_eq!(
        open_read_only_step(true, SCHEMA_VERSION + 1),
        Err(CacheError::UnsupportedSchema)
    );
}

#[test]
fn frozen_missing_cache_creates_nothing() {
    assert_eq!(open_read_only_step(false, 0), Err(CacheError::Missing));
}

#[test]
fn unrelated_v0_database_is_rejected_without_wal_or_schema_mutation() {
    assert_eq!(ensure_pristine_v0(0, 0), Ok(()));
    assert_eq!(ensure_pristine_v0(0, 1), Err(CacheError::Incompatible));
    assert_eq!(ensure_pristine_v0(7, 0), Err(CacheError::Incompatible));
}

#[test]
fn rejects_wrong_root_and_project_key() {
    let key = ProjectKey::from_canonical_root(b"/project").as_bytes();
    let other = ProjectKey::from_canonical_root(b"/other").as_bytes();
    assert_eq!(
        validate_v1(&observed(b"/project"), b"/other", &key),
        Err(CacheError::RootMismatch)
    );
    assert_eq!(
        validate_v1(&observed(b"/project"), b"/project", &other),
        Err(CacheError::RootMismatch)
    );
}

#[test]
fn rejects_malformed_shape_and_application_id() {
    let key = ProjectKey::from_canonical_root(b"/project").as_bytes();
    let mut tampered = observed(b"/project");
    tampered.application_id = Ok(7);
    assert_eq!(
        validate_v1(&tampered, b"/project", &key),
        Err(CacheError::Incompatible)
    );
    let last = schema_tables().len() - 1;
    let mut tampered = observed(b"/project");
    tampered.tables[last] = Ok(Some("CREATE TABLE active_snapshots (snapshot_id INTEGER)".into()));
    assert_eq!(
        validate_v1(&tampered, b"/project", &key),
        Err(CacheError::Incompatible)
    );
}

#[test]
fn rejects_malformed_index_and_foreign_key_contracts() {
    let key = ProjectKey::from_canonical_root(b"/project").as_bytes();
    let tables = schema_tables();
    let indexes = schema_indexes();
    let active = tables
        .iter()
        .position(|table| table.name == "active_snapshots")
        .expect("table of active snapshots");
    let path_index = indexes
        .iter()
        .position(|index| index.name == "candidate_files_path_idx")
        .expect("index of paths");
    let mut tampered = observed(b"/project");
    tampered.indexes[path_index] = Ok(Some(
        "CREATE INDEX candidate_files_path_idx ON candidate_files (path, candidate_id)".into(),
    ));
    assert_eq!(
        validate_v1(&tampered, b"/project", &key),
        Err(CacheError::Incompatible)
    );
    for malformed in [
        "CREATE TABLE active_snapshots (resolver_tier TEXT PRIMARY KEY CHECK (resolver_tier IN ('name', 'scope', 'dense')), snapshot_id INTEGER NOT NULL REFERENCES graph_snapshots(snapshot_id))",
        "CREATE TABLE active_snapshots (resolver_tier TEXT PRIMARY KEY CHECK (resolver_tier IN ('name ', 'scope', 'dense')), snapshot_id INTEGER NOT NULL REFERENCES graph_snapshots(snapshot_id) ON DELETE CASCADE)",
    ] {
        let mut tampered = observed(b"/project");
        tampered.tables[active] = Ok(Some(malformed.to_owned()));
        assert_eq!(
            validate_v1(&tampered, b"/project", &key),
            Err(CacheError::Incompatible),
            "{malformed}"
        );
    }
}

#[test]
fn writable_configures_wal_and_foreign_keys() {
    assert_eq!(check_settings(1, "wal", 1), Ok(()));
    assert!(check_settings(0, "wal", 1).is_err());
    assert!(check_settings(1, "delete", 1).is_err());
    assert!(check_settings(1, "wal", 2).is_err());
}

#[test]
fn competing_initialization_reports_bounded_lock_contention() {
    assert_eq!(map_sqlite_error(DatabaseFault::Busy, false), CacheError::LockContention);
    assert_eq!(map_sqlite_error(DatabaseFault::Locked, false), CacheError::LockContention);
    assert_eq!(map_sqlite_error(DatabaseFault::Busy, true), CacheError::Timeout);
    assert_eq!(busy_timeout(None), Ok(LOCK_WAIT_CAP_NS));
    assert_eq!(busy_timeout(Some(5)), Ok(5));
    assert_eq!(busy_timeout(Some(0)), Err(CacheError::Timeout));
}

#[test]
fn corrupt_database_has_typed_error_without_sql_text() {
    let error = map_sqlite_error(DatabaseFault::NotADatabase, false);
    assert_eq!(error, CacheError::Corrupt);
    assert_eq!(error.as_str(), "cache database is corrupt");
    assert_eq!(map_sqlite_error(DatabaseFault::DamagedFile, false), CacheError::Corrupt);
    assert_eq!(map_validation_error(DatabaseFault::Other), CacheError::Incompatible);
}

#[test]
fn readonly_directory_is_a_typed_error() {
    assert_eq!(map_io_error(StableIoErrorKind::PermissionDenied), CacheError::ReadOnly);
    assert_eq!(map_io_error(StableIoErrorKind::NotFound), CacheError::Access);
}

#[test]
fn stores_non_utf8_root_as_native_bytes() {
    let root = b"/canonical/project-\xff";
    let key = ProjectKey::from_canonical_root(root).as_bytes();
    assert_eq!(validate_v1(&observed(root), root, &key), Ok(()));
    let observed = observed(root);
    assert_eq!(observed.meta.unwrap().unwrap().canonical_root, root);
}

#[test]
fn the_schema_is_accepted_by_the_database_it_is_written_for() {
    let connection = rusqlite::Connection::open_in_memory().expect("database");
    let mut seen = observed(b"/project");
    for (place, table) in schema_tables().iter().enumerate() {
        connection.execute_batch(table.sql).expect(table.name);
        seen.tables[place] = Ok(stored_sql(&connection, table.name));
    }
    for (place, index) in schema_indexes().iter().enumerate() {
        connection.execute_batch(index.sql).expect(index.name);
        seen.indexes[place] = Ok(stored_sql(&connection, index.name));
    }
    let key = ProjectKey::from_canonical_root(b"/project").as_bytes();
    assert_eq!(validate_v1(&seen, b"/project", &key), Ok(()));
}

fn stored_sql(connection: &rusqlite::Connection, name: &str) -> Option<String> {
    connection
        .query_row("SELECT sql FROM sqlite_master WHERE name = ?1", [name], |row| row.get(0))
        .ok()
}

#[test]
fn refresh_prior_retains_invalid_facts_detail_after_invalidation() {
    let failure = CacheLoadFailure::InvalidFacts { detail: "facts of another file".into() };
    assert!(matches!(
        load_or_invalidate(failure, true),
        LoadRecovery::Invalidate { diagnostic: Some(detail) } if detail == "facts of another file"
    ));
    let failure = CacheLoadFailure::InvalidFacts { detail: "facts of another file".into() };
    assert!(matches!(
        load_or_invalidate(failure, false),
        LoadRecovery::Fail(CliError::Cache(_))
    ));
}

#[test]
fn only_derivable_damage_is_dropped_and_a_lock_is_reported() {
    assert!(matches!(
        load_or_invalidate(CacheLoadFailure::Cache(CacheError::Malformed), true),
        LoadRecovery::Invalidate { diagnostic: None }
    ));
    assert!(matches!(
        load_or_invalidate(CacheLoadFailure::Cache(CacheError::LockContention), true),
        LoadRecovery::Fail(CliError::Cache(_))
    ));
    assert!(matches!(
        load_or_invalidate(CacheLoadFailure::Cache(CacheError::Timeout), true),
        LoadRecovery::Fail(CliError::Timeout)
    ));
}

#[test]
fn failed_graph_write_rolls_back_candidate_and_active_publication() {
    let mut store = Tables::default();
    let snapshot = candidate(CacheCompleteness::Complete, ResolverCacheTier::Name);
    let (prepared, steps) =
        store.publish_steps(&snapshot, &Deadline::new(None)).expect("publication");
    let mut working = store.clone();
    let mut written = Ok(());
    for step in steps {
        if matches!(step, PublishStep::InsertGraph { .. }) {
            written = Err(CacheError::Access);
            break;
        }
        working.apply(&prepared, step);
    }
    assert_eq!(working.candidates.len(), 1);
    let next = next_stage(TransactionStage::Operate, written.err());
    assert_eq!(
        next,
        TransactionNext::Do(TransactionStage::RollBack { failure: CacheError::Access })
    );
    // What was written is dropped: neither the candidate nor a slot shows it.
    drop(working);
    assert!(store.candidates.is_empty());
    assert!(store.active.is_empty());
    store.publish(&snapshot).expect("retry");
}
