//! The lifecycle of a command, its plan and what it prints.

use std::time::Duration;

use code2graph::cache::fingerprint::{
    CandidateId, CompatibilityFingerprint, LanguageFeatureFingerprint, PackageFingerprint,
    ProjectInputDigest,
};
use code2graph::cache::load::CandidateSnapshotRow;
use code2graph::cache::location::{CacheLocation, ProjectKey};
use code2graph::cache::snapshot::{CandidateSnapshot, CompatibilityRecord, LoadedSnapshot};
use code2graph::cache::types::{CacheCompleteness, CacheError, ResolverCacheTier};
use code2graph::config::{GlobalOptions, ResolverTier, ResourceLimits};
use code2graph::deadline::{Cancellation, NeverCancelled};
use code2graph::error::CliError;
use code2graph::execution::cache_policy::open_frozen_failure;
use code2graph::execution::context::{checked_unix_time, Clock, SystemClock};
use code2graph::execution::dispatch::{
    execute, loads_snapshots, purpose_of, requests_json, CommandPlan,
};
use code2graph::execution::lifecycle::{
    begin_lifecycle, load_query_graph, next_step, LifecycleEvent, LifecycleNext,
    LifecycleOptions, LifecycleStep, Purpose,
};
use code2graph::execution::output::render_human;
use code2graph::execution::snapshots::{
    active_metadata, cache_location, deadline_before_selection, enforce_partial,
    graph_from_snapshot, loaded_from_candidate, loaded_from_metadata, project_output,
    refresh_cache_disposition, status_envelope,
};
use code2graph::execution::types::CommandOutput;
use code2graph::graph::{CodeGraph, RefRole};
use code2graph::project::native::Platform;
use code2graph::project::select::{ProjectSelection, SelectionProvenance};
use code2graph::refresh::plan::RefreshPlan;
use code2graph::refresh::prepare::finish::PreparedRefreshCandidate;
use code2graph::request::{CliRequest, CommandRequest, Selector};
use code2graph::result::{
    CacheCompletenessOutput, CacheDisposition, Freshness, OutputStatus,
};

/// What a project and its cache hold, as far as the lifecycle asks.
#[derive(Clone)]
struct World {
    complete: bool,
    partial: bool,
    current: bool,
    clock: Result<(), CliError>,
    refresh: Result<CacheCompleteness, CliError>,
    disposition: CacheDisposition,
}

impl World {
    fn empty() -> Self {
        World {
            complete: false,
            partial: false,
            current: false,
            clock: Ok(()),
            refresh: Ok(CacheCompleteness::Complete),
            disposition: CacheDisposition::Miss,
        }
    }

    fn holds(&self, slot: CacheCompleteness) -> bool {
        match slot {
            CacheCompleteness::Complete => self.complete,
            CacheCompleteness::Partial => self.partial,
        }
    }

    fn answer(&mut self, step: LifecycleStep) -> LifecycleEvent {
        match step {
            LifecycleStep::SelectProject
            | LifecycleStep::OpenFrozen
            | LifecycleStep::OpenWritable => LifecycleEvent::Done,
            LifecycleStep::ReadClock => match self.clock.clone() {
                Ok(()) => LifecycleEvent::Done,
                Err(error) => LifecycleEvent::Failed(error),
            },
            LifecycleStep::FindFrozen { slot }
            | LifecycleStep::FindActive { slot }
            | LifecycleStep::LoadPrior { slot }
            | LifecycleStep::FindPublished { slot, .. }
            | LifecycleStep::FindStale { slot } => LifecycleEvent::Found(self.holds(slot)),
            LifecycleStep::CheckSources => LifecycleEvent::Found(self.current),
            LifecycleStep::Prepare => match self.refresh.clone() {
                Ok(completeness) => {
                    LifecycleEvent::Made { completeness, cache: CacheDisposition::Disabled }
                }
                Err(error) => LifecycleEvent::Failed(error),
            },
            LifecycleStep::Refresh => match self.refresh.clone() {
                Ok(completeness) => {
                    match completeness {
                        CacheCompleteness::Complete => self.complete = true,
                        CacheCompleteness::Partial => self.partial = true,
                    }
                    self.current = true;
                    LifecycleEvent::Made { completeness, cache: self.disposition }
                }
                Err(error) => LifecycleEvent::Failed(error),
            },
        }
    }
}

fn options() -> LifecycleOptions {
    LifecycleOptions { no_cache: false, frozen: false, allow_partial: false, allow_stale: false }
}

fn run(
    world: &mut World,
    purpose: Purpose,
    options: LifecycleOptions,
) -> (Result<(Freshness, CacheDisposition), CliError>, Vec<LifecycleStep>) {
    let mut state = begin_lifecycle();
    let mut steps = Vec::new();
    loop {
        steps.push(state.step);
        let event = world.answer(state.step);
        match next_step(purpose, options, state, event) {
            LifecycleNext::Do(next) => state = next,
            LifecycleNext::Ready { freshness, cache } => return (Ok((freshness, cache)), steps),
            LifecycleNext::Fail(error) => return (Err(error), steps),
        }
    }
}

fn touches_cache(steps: &[LifecycleStep]) -> bool {
    steps.iter().any(|step| {
        !matches!(
            step,
            LifecycleStep::SelectProject | LifecycleStep::ReadClock | LifecycleStep::Prepare
        )
    })
}

#[test]
fn no_cache_status_never_creates_its_cache_base() {
    let (outcome, steps) = run(
        &mut World::empty(),
        Purpose::Status,
        LifecycleOptions { no_cache: true, ..options() },
    );
    assert_eq!(outcome, Ok((Freshness::Fresh, CacheDisposition::Disabled)));
    assert!(!touches_cache(&steps));
}

struct Cancelled;

impl Cancellation for Cancelled {
    fn is_cancelled(&self) -> bool {
        true
    }
}

#[test]
fn cancellation_stops_before_project_selection() {
    assert!(matches!(
        deadline_before_selection(&ResourceLimits::default(), &Cancelled),
        Err(CliError::Cancelled)
    ));
    assert!(deadline_before_selection(&ResourceLimits::default(), &NeverCancelled).is_ok());
}

#[test]
fn frozen_cached_status_and_symbols_never_load_a_whole_graph() {
    let mut world = World { complete: true, ..World::empty() };
    for purpose in [Purpose::Status, Purpose::Query] {
        let (outcome, steps) =
            run(&mut world, purpose, LifecycleOptions { frozen: true, ..options() });
        assert_eq!(outcome, Ok((Freshness::Frozen, CacheDisposition::Hit)));
        assert!(!steps.iter().any(|step| matches!(step, LifecycleStep::LoadPrior { .. })));
    }
}

#[test]
fn normal_cached_status_and_query_never_load_a_whole_graph() {
    let mut world = World { complete: true, current: true, ..World::empty() };
    for purpose in [Purpose::Status, Purpose::Query] {
        let (outcome, steps) = run(&mut world, purpose, options());
        assert_eq!(outcome, Ok((Freshness::Fresh, CacheDisposition::Hit)));
        assert!(!steps.iter().any(|step| {
            matches!(step, LifecycleStep::LoadPrior { .. } | LifecycleStep::Refresh)
        }));
    }
}

#[test]
fn normal_cache_reports_miss_then_hit_and_loads_the_requested_tier() {
    let mut world = World::empty();
    let (first, steps) = run(&mut world, Purpose::Index, options());
    assert_eq!(first, Ok((Freshness::Fresh, CacheDisposition::Miss)));
    assert_eq!(steps.iter().filter(|step| matches!(step, LifecycleStep::ReadClock)).count(), 1);
    world.disposition = CacheDisposition::Hit;
    let (second, _) = run(&mut world, Purpose::Index, options());
    assert_eq!(second, Ok((Freshness::Fresh, CacheDisposition::Hit)));
    let (query, _) = run(&mut world, Purpose::Graph, options());
    assert_eq!(query, Ok((Freshness::Fresh, CacheDisposition::Hit)));
    let loaded = graph_from_snapshot(
        selection(),
        loaded_from_candidate(candidate("a", CacheCompleteness::Complete)),
        ResolverTier::Scope,
        Freshness::Fresh,
        CacheDisposition::Hit,
    )
    .expect("query graph");
    assert_eq!(loaded.project.tier, ResolverTier::Scope);
    assert_eq!(loaded.project.cache, CacheDisposition::Hit);
}

#[test]
fn incompatible_prior_is_reported_as_a_cache_miss() {
    let prior = loaded_from_candidate(candidate("a", CacheCompleteness::Complete));
    let same = prepared(candidate("a", CacheCompleteness::Complete));
    let changed = prepared(candidate("b", CacheCompleteness::Complete));
    assert_eq!(refresh_cache_disposition(Some(&prior), &same), CacheDisposition::Hit);
    assert_eq!(refresh_cache_disposition(Some(&prior), &changed), CacheDisposition::Miss);
    assert_eq!(refresh_cache_disposition(None, &same), CacheDisposition::Miss);
}

#[test]
fn no_cache_index_status_and_graph_never_resolve_a_cache_location() {
    for purpose in [Purpose::Index, Purpose::Status, Purpose::Graph, Purpose::Query] {
        let (outcome, steps) = run(
            &mut World::empty(),
            purpose,
            LifecycleOptions { no_cache: true, ..options() },
        );
        assert_eq!(outcome, Ok((Freshness::Fresh, CacheDisposition::Disabled)));
        assert!(!touches_cache(&steps));
    }
}

#[test]
fn frozen_status_and_graph_use_only_the_cached_snapshot() {
    let mut world = World { complete: true, ..World::empty() };
    for purpose in [Purpose::Status, Purpose::Graph] {
        let (outcome, steps) =
            run(&mut world, purpose, LifecycleOptions { frozen: true, ..options() });
        assert_eq!(outcome, Ok((Freshness::Frozen, CacheDisposition::Hit)));
        assert!(!steps.contains(&LifecycleStep::ReadClock));
        assert!(!steps.contains(&LifecycleStep::CheckSources));
    }
    let snapshot = loaded_from_candidate(candidate("a", CacheCompleteness::Complete));
    let status = status_envelope(
        ResolverTier::Scope,
        &ResourceLimits::default(),
        &selection(),
        &snapshot,
        Freshness::Frozen,
        CacheDisposition::Hit,
    );
    assert_eq!(status.status, OutputStatus::Success);
    assert_eq!(status.results.project.freshness, Freshness::Frozen);
    assert_eq!(status.results.inventory.admitted_files, 0);
}

#[test]
fn complete_is_preferred_over_partial_and_partial_requires_allowance() {
    let mut world = World { complete: true, partial: true, ..World::empty() };
    let frozen = LifecycleOptions { frozen: true, allow_partial: true, ..options() };
    let (outcome, steps) = run(&mut world, Purpose::Status, frozen);
    assert!(outcome.is_ok());
    assert_eq!(
        steps.last(),
        Some(&LifecycleStep::FindFrozen { slot: CacheCompleteness::Complete })
    );
    let partial = prepared(candidate("a", CacheCompleteness::Partial));
    assert_eq!(enforce_partial(&partial, true), Ok(()));
    assert_eq!(enforce_partial(&partial, false), Err(CliError::PartialNotAllowed));
}

#[test]
fn partial_only_snapshot_is_hidden_without_allow_partial() {
    let mut world = World { partial: true, ..World::empty() };
    let frozen = LifecycleOptions { frozen: true, ..options() };
    let (outcome, _) = run(&mut world, Purpose::Status, frozen);
    assert_eq!(outcome, Err(CliError::FrozenSnapshotMissing));
    let allowed = LifecycleOptions { allow_partial: true, ..frozen };
    let (outcome, _) = run(&mut world, Purpose::Status, allowed);
    assert_eq!(outcome, Ok((Freshness::Frozen, CacheDisposition::Hit)));
    let snapshot = loaded_from_candidate(candidate("a", CacheCompleteness::Partial));
    let status = status_envelope(
        ResolverTier::Scope,
        &ResourceLimits::default(),
        &selection(),
        &snapshot,
        Freshness::Frozen,
        CacheDisposition::Hit,
    );
    assert_eq!(status.status, OutputStatus::Partial);
    assert_eq!(
        status.project.map(|project| project.completeness),
        Some(CacheCompletenessOutput::Partial)
    );
}

#[test]
fn stale_fallback_occurs_only_when_explicitly_allowed() {
    let mut world = World {
        complete: true,
        refresh: Err(CliError::PartialNotAllowed),
        ..World::empty()
    };
    for purpose in [Purpose::Status, Purpose::Graph] {
        let (outcome, _) = run(&mut world, purpose, options());
        assert_eq!(outcome, Err(CliError::PartialNotAllowed));
        let stale = LifecycleOptions { allow_stale: true, ..options() };
        let (outcome, _) = run(&mut world, purpose, stale);
        assert_eq!(outcome, Ok((Freshness::Stale, CacheDisposition::Hit)));
    }
    world.complete = false;
    let stale = LifecycleOptions { allow_stale: true, ..options() };
    let (outcome, _) = run(&mut world, Purpose::Status, stale);
    assert_eq!(outcome, Err(CliError::PartialNotAllowed));
}

#[test]
fn tier_selection_never_substitutes_an_available_different_graph() {
    let snapshot: LoadedSnapshot =
        loaded_from_candidate(candidate("a", CacheCompleteness::Complete));
    assert!(graph_from_snapshot(
        selection(),
        snapshot,
        ResolverTier::Name,
        Freshness::Fresh,
        CacheDisposition::Hit,
    )
    .is_err());
}

#[test]
fn clock_failure_precedes_cache_location_side_effects() {
    let unavailable = CliError::Fatal("clock unavailable".into());
    for purpose in [Purpose::Status, Purpose::Graph, Purpose::Index] {
        let mut world = World { clock: Err(unavailable.clone()), ..World::empty() };
        let (outcome, steps) = run(&mut world, purpose, options());
        assert_eq!(outcome, Err(unavailable.clone()));
        assert!(!touches_cache(&steps));
    }
}

fn selection() -> ProjectSelection {
    ProjectSelection {
        canonical_root: b"/project".to_vec(),
        canonical_source: None,
        provenance: SelectionProvenance::CurrentDirectory,
    }
}

fn candidate(package: &str, completeness: CacheCompleteness) -> CandidateSnapshot {
    let language_fingerprint = LanguageFeatureFingerprint::current();
    let package_fingerprint = PackageFingerprint::from_normalized(&vec![package.to_owned()]);
    let id = CompatibilityFingerprint::new(language_fingerprint, package_fingerprint);
    let input_digest = ProjectInputDigest::from_inputs(&Vec::new());
    CandidateSnapshot {
        candidate_id: CandidateId::new(id, input_digest, completeness, &Vec::new()),
        compatibility: CompatibilityRecord {
            id,
            language_fingerprint,
            package_fingerprint,
            created_at_ns: 1,
        },
        input_digest,
        completeness,
        omissions: Vec::new(),
        created_at_ns: 2,
        inventory_file_count: 0,
        inventory_total_bytes: 0,
        files: Vec::new(),
        tier_graphs: vec![(
            ResolverCacheTier::Scope,
            CodeGraph { symbols: Vec::new(), edges: Vec::new() },
        )],
    }
}

fn prepared(snapshot: CandidateSnapshot) -> PreparedRefreshCandidate {
    PreparedRefreshCandidate {
        snapshot,
        plan: RefreshPlan { entries: Vec::new() },
        changed_paths: Vec::new(),
        deleted_paths: Vec::new(),
        ignored_omissions: Vec::new(),
        attempts: 1,
    }
}

fn request(command: CommandRequest) -> CliRequest {
    CliRequest { global: GlobalOptions::default(), command }
}

#[test]
fn callers_plan_a_search_for_incoming_calls() {
    let request = request(CommandRequest::Callers {
        selector: Selector { text: "run".into() },
        file: None,
        kind: None,
        require_unique: true,
        role: None,
    });
    let plan = execute(&request);
    assert_eq!(purpose_of(&plan), Purpose::Query);
    let CommandPlan::Callers(selector, relation) = plan else { panic!("callers") };
    assert!(selector.require_unique);
    assert_eq!(selector.selector.text, "run");
    assert_eq!(relation.role, Some(RefRole::Call));
    assert_eq!(request.command.name(), "callers");
}

#[test]
fn a_machine_readable_answer_is_asked_for_by_flag() {
    let args = |words: &[&str]| words.iter().map(|word| word.as_bytes().to_vec()).collect();
    assert!(requests_json(&args(&["code2graph", "--json", "status"])));
    assert!(!requests_json(&args(&["code2graph", "status"])));
}

#[test]
fn clocks_outside_the_range_are_fatal() {
    assert_eq!(checked_unix_time(Ok(7)), Ok(7));
    assert!(matches!(checked_unix_time(Ok(u128::MAX)), Err(CliError::Fatal(_))));
    assert!(matches!(checked_unix_time(Err("before".into())), Err(CliError::Fatal(_))));
    // A moment in the year 2020, in nanoseconds.
    assert!(SystemClock.unix_time_ns().unwrap() > 1_577_836_800_000_000_000);
}

#[test]
fn a_missing_frozen_cache_is_a_missing_snapshot() {
    assert_eq!(open_frozen_failure(CacheError::Missing), CliError::FrozenSnapshotMissing);
    assert!(matches!(open_frozen_failure(CacheError::Corrupt), CliError::Cache(_)));
    assert_eq!(open_frozen_failure(CacheError::Timeout), CliError::Timeout);
}

#[test]
fn status_shows_the_timeout_in_whole_milliseconds() {
    let snapshot = loaded_from_candidate(candidate("a", CacheCompleteness::Complete));
    let shown = |timeout: Option<Duration>| {
        let limits = ResourceLimits { timeout, ..ResourceLimits::default() };
        status_envelope(
            ResolverTier::Scope,
            &limits,
            &selection(),
            &snapshot,
            Freshness::Fresh,
            CacheDisposition::Hit,
        )
        .results
        .timeout_millis
    };
    assert_eq!(shown(None), None);
    assert_eq!(shown(Some(Duration::from_nanos(2_999_999))), Some(2));
    assert_eq!(shown(Some(Duration::MAX)), Some(u64::MAX));
}

#[test]
fn only_an_index_works_on_whole_snapshots() {
    assert!(loads_snapshots(&CommandRequest::Index {
        path: None,
        force: false,
        trust_mtime: false,
    }));
    assert!(!loads_snapshots(&CommandRequest::Status));
}

#[test]
fn status_is_printed_for_people() {
    let snapshot = loaded_from_candidate(candidate("a", CacheCompleteness::Complete));
    let status = status_envelope(
        ResolverTier::Scope,
        &ResourceLimits::default(),
        &selection(),
        &snapshot,
        Freshness::Fresh,
        CacheDisposition::Hit,
    );
    let text = render_human(&CommandOutput::Status(status));
    assert_eq!(text, "fresh: 0 files; cache hit\n");
}

fn row(snapshot: &CandidateSnapshot) -> CandidateSnapshotRow {
    CandidateSnapshotRow {
        compatibility_id: snapshot.compatibility.id.bytes.to_vec(),
        language_fingerprint: snapshot.compatibility.language_fingerprint.bytes.to_vec(),
        package_fingerprint: snapshot.compatibility.package_fingerprint.bytes.to_vec(),
        input_digest: snapshot.input_digest.bytes.to_vec(),
        completeness: snapshot.completeness.as_sql(),
        created_at_ns: 2,
        compatibility_created_at_ns: 1,
        inventory_file_count: 0,
        inventory_total_bytes: 0,
    }
}

#[test]
fn metadata_is_read_without_files_and_damage_is_noticed() {
    let snapshot = candidate("a", CacheCompleteness::Complete);
    let metadata =
        active_metadata(snapshot.candidate_id, &row(&snapshot), Vec::new()).expect("metadata");
    assert_eq!(metadata.candidate_id, snapshot.candidate_id);
    assert_eq!(metadata.compatibility, snapshot.compatibility);
    let loaded = loaded_from_metadata(
        selection(),
        metadata,
        ResolverTier::Scope,
        Freshness::Frozen,
        CacheDisposition::Hit,
    );
    assert!(loaded.snapshot.tier_graphs.is_empty());
    assert_eq!(loaded.project.snapshot.len(), 64);

    let mut damaged = row(&snapshot);
    damaged.completeness = 1;
    assert_eq!(
        active_metadata(snapshot.candidate_id, &damaged, Vec::new()),
        Err(CacheError::Corrupt)
    );
    let mut damaged = row(&snapshot);
    damaged.created_at_ns = -1;
    assert_eq!(
        active_metadata(snapshot.candidate_id, &damaged, Vec::new()),
        Err(CacheError::Corrupt)
    );
}

#[test]
fn a_cache_base_decides_where_the_cache_lies() {
    let base: &[u8] = b"/cache";
    let root: &[u8] = b"/project";
    let location =
        cache_location(Some(base), &selection(), Platform::Unix, root).expect("location");
    assert_eq!(Some(location.clone()), CacheLocation::for_project(Some(base), b"/project"));
    assert!(location.database_path.starts_with(b"/cache/"));
    assert!(location.database_path.starts_with(&location.directory));
    let inside: &[u8] = b"/project/cache";
    assert_eq!(
        cache_location(Some(inside), &selection(), Platform::Unix, root),
        Err(CliError::Cache("the cache base lies in the project".into()))
    );
    let units: &[u8] = b"C\0:\0\\\0";
    let windows =
        cache_location(Some(base), &selection(), Platform::Windows, units).expect("location");
    assert_eq!(windows.project_key, ProjectKey::from_native_root(Platform::Windows, units));
    assert_ne!(windows.project_key, location.project_key);
}

#[test]
fn roots_that_are_no_text_are_shown_with_replacements() {
    let mut selected = selection();
    selected.canonical_root = b"/pro\xffject".to_vec();
    let snapshot = loaded_from_candidate(candidate("a", CacheCompleteness::Complete));
    let output = project_output(
        &selected,
        &snapshot,
        ResolverTier::Scope,
        Freshness::Fresh,
        CacheDisposition::Hit,
    );
    assert_eq!(output.root, "/pro\u{fffd}ject");
}

#[test]
fn loading_a_graph_follows_the_policy_of_commands() {
    let state = begin_lifecycle();
    let frozen = LifecycleOptions { frozen: true, ..options() };
    let next = load_query_graph(frozen, state.clone(), LifecycleEvent::Done);
    assert!(matches!(next, LifecycleNext::Do(next) if next.step == LifecycleStep::OpenFrozen));
    let next = load_query_graph(options(), state, LifecycleEvent::Found(true));
    assert!(matches!(next, LifecycleNext::Fail(CliError::Fatal(_))));
}
