//! Laws of results: what a command tells about its outcome.

use vstd::prelude::*;
use vstd::string::*;
use crate::cache::fingerprint::omission_views;
use crate::cache::location::hex;
use crate::cache::snapshot::LoadedSnapshot;
use crate::cache::types::CacheCompleteness;
use crate::commands::references::ReferenceRow;
use crate::config::{ResolverTier, ResourceLimits};
use crate::deadline::{interruption, time_left, Cancellation, Deadline};
use crate::error::CliError;
use crate::execution::output::{
    dependency_line, dependency_lines, impact_line, impact_lines, reference_line, reference_lines,
    relation_line, relation_lines, render_human, symbol_lines, truncation_text,
};
use crate::execution::snapshots::project_output;
use crate::execution::types::CommandOutput;
use crate::exit::ExitCode;
use crate::graph::id_display;
use crate::project::select::ProjectSelection;
use crate::refresh::plan::{RefreshDecision, RefreshEntry};
use crate::result::{
    decision_counts, omission_output_views, status_of, CacheCompletenessOutput, CacheDisposition,
    ConfidenceOutput, Freshness, ImpactOutput, ImpactView, IndexOutput, ModuleDependencyOutput,
    ModuleDependencyTargetOutput, OutputStatus, PlanDecisionCountsOutput, ProjectOutput,
    ProvenanceOutput, RefRoleOutput, ReferenceOutput, RelationOutput, RelationView, StatusOutput,
    SymbolOutput,
};
use crate::text::{decimal, lossy_text};

verus! {

/// A result is called a success exactly where the snapshot is complete and not stale; a partial
/// one is called partial, whatever its age, and a complete one that is stale is called stale.
pub proof fn successes_are_whole_and_not_stale(
    completeness: CacheCompleteness,
    freshness: Freshness,
)
    ensures
        ({
            let status = status_of(completeness, freshness);
            &&& status == OutputStatus::Success <==> completeness == CacheCompleteness::Complete
                && (freshness == Freshness::Fresh || freshness == Freshness::Frozen)
            &&& status == OutputStatus::Partial <==> completeness == CacheCompleteness::Partial
            &&& status == OutputStatus::Stale <==> completeness == CacheCompleteness::Complete
                && freshness == Freshness::Stale
        }),
{
}

/// A failure exits as what it is: nothing found, wrongly used, ambiguous, or failed; it never
/// exits as a success, and its status says no more than its kind.
pub proof fn failures_exit_as_what_they_are(e: CliError)
    ensures
        e.exit() == ExitCode::NoMatch <==> e == CliError::NoMatch,
        e.exit() == ExitCode::Usage <==> e is Usage,
        e.exit() == ExitCode::Ambiguous <==> e == CliError::Ambiguous,
        e.exit() != ExitCode::Success,
        e.exit().number() != 0,
        e.status() == OutputStatus::NoMatch <==> e == CliError::NoMatch,
        e.status() == OutputStatus::Ambiguous <==> e == CliError::Ambiguous,
        e.status() == OutputStatus::Timeout <==> e == CliError::Timeout,
        e.status() == OutputStatus::Unsupported <==> e is Unsupported || e is Unavailable,
        e.status() != OutputStatus::Success,
        e.status() != OutputStatus::Partial,
        e.status() != OutputStatus::Stale,
{
}

/// A cancellation goes before a timeout, a timeout comes only where one is set and used up, and
/// nothing else interrupts.
pub proof fn interruptions_are_told_apart(cancelled: bool, expired: Option<bool>)
    ensures
        interruption(cancelled, expired) == Some(CliError::Cancelled) <==> cancelled,
        interruption(cancelled, expired) == Some(CliError::Timeout) <==> !cancelled && expired
            == Some(true),
        interruption(cancelled, expired) is None <==> !cancelled && expired != Some(true),
{
}

/// The decisions of a plan are counted one by one: one more of them makes the count of its kind
/// one more, and no other.
pub proof fn decisions_are_counted_one_by_one(entries: Seq<RefreshEntry>, n: int)
    requires
        0 <= n < entries.len(),
    ensures
        decision_counts(entries, 0) == (0int, 0int, 0int, 0int, 0int),
        ({
            let a = decision_counts(entries, n);
            let b = decision_counts(entries, n + 1);
            let d = entries[n].decision;
            &&& b.0 == a.0 + if d == RefreshDecision::NeedHash {
                1int
            } else {
                0int
            }
            &&& b.1 == a.1 + if d == RefreshDecision::ReuseFacts {
                1int
            } else {
                0int
            }
            &&& b.2 == a.2 + if d == RefreshDecision::Extract {
                1int
            } else {
                0int
            }
            &&& b.3 == a.3 + if d == RefreshDecision::Remove {
                1int
            } else {
                0int
            }
            &&& b.4 == a.4 + if d is Omit {
                1int
            } else {
                0int
            }
        }),
{
}

/// A relation is printed with where it stands, both its ends, its role and how sure it is. The
/// column is counted from one, as people do.
pub proof fn relations_are_printed_whole(r: RelationView)
    requires
        r.occurrence.col < u32::MAX,
    ensures
        relation_line(r) == r.occurrence.file + ":"@ + decimal(r.occurrence.line as nat) + ":"@
            + decimal((r.occurrence.col + 1) as nat) + " "@ + id_display(r.from) + " -> "@
            + id_display(r.to) + " "@ + r.role.spelling() + " ["@ + r.confidence.spelling() + "/"@
            + r.provenance.spelling() + "]"@,
{
}

/// Every row is printed, on a line of its own and in its order: the lines of one row more are
/// the lines of those before it and its own.
pub proof fn rows_are_printed_one_by_one(
    symbols: Seq<SymbolOutput>,
    relations: Seq<RelationOutput>,
    references: Seq<ReferenceOutput>,
    dependencies: Seq<ModuleDependencyOutput>,
    impacts: Seq<ImpactOutput>,
    n: int,
)
    requires
        n >= 0,
    ensures
        n < symbols.len() ==> symbol_lines(symbols, n + 1) == symbol_lines(symbols, n) + (
        symbols[n].file@ + ":"@ + decimal(symbols[n].line as nat) + "  "@ + symbols[n].signature@
            + "\n"@),
        n < relations.len() ==> relation_lines(relations, n + 1) == relation_lines(relations, n)
            + relation_line(relations[n]@) + "\n"@,
        n < references.len() ==> reference_lines(references, n + 1) == reference_lines(
            references,
            n,
        ) + reference_line(references[n]@),
        n < dependencies.len() ==> dependency_lines(dependencies, n + 1) == dependency_lines(
            dependencies,
            n,
        ) + dependency_line(dependencies[n]),
        n < impacts.len() ==> impact_lines(impacts, n + 1) == impact_lines(impacts, n)
            + impact_line(impacts[n]@),
        symbol_lines(symbols, 0).len() == 0,
        relation_lines(relations, 0).len() == 0,
        reference_lines(references, 0).len() == 0,
        dependency_lines(dependencies, 0).len() == 0,
        impact_lines(impacts, 0).len() == 0,
{
}

/// What was cut is said, with how much of it there is; what was not cut is not.
pub proof fn cuts_are_said(truncated: bool, returned: usize, total: usize)
    ensures
        !truncated ==> truncation_text(truncated, returned, total).len() == 0,
        truncated ==> truncation_text(truncated, returned, total) == "truncated: returned "@
            + decimal(returned as nat) + " of "@ + decimal(total as nat) + " results\n"@,
{
}

/// A row is printed with all that it tells: a reference with its name, its role and the texts
/// around it, a dependency with both its ends and how often it occurs, and a row of an impact
/// query with its seed, its distance and the way it was reached.
pub proof fn rows_are_printed_with_what_they_tell(
    reference: ReferenceRow,
    dependency: ModuleDependencyOutput,
    impact: ImpactView,
)
    requires
        reference.occurrence.col < u32::MAX,
    ensures
        reference.qualifier matches Some(qualifier) ==> (reference.from_path matches Some(path)
            ==> reference_line(reference) == reference.occurrence.file + ":"@ + decimal(
            reference.occurrence.line as nat,
        ) + ":"@ + decimal((reference.occurrence.col + 1) as nat) + " "@ + reference.name + " "@
            + reference.role.spelling() + " qualifier="@ + qualifier + " from-path="@ + path
            + "\n"@),
        reference.qualifier is None && reference.from_path is None ==> reference_line(reference)
            == reference.occurrence.file + ":"@ + decimal(reference.occurrence.line as nat) + ":"@
            + decimal((reference.occurrence.col + 1) as nat) + " "@ + reference.name + " "@
            + reference.role.spelling() + " qualifier="@ + "-"@ + " from-path="@ + "-"@ + "\n"@,
        dependency.target matches ModuleDependencyTargetOutput::File { file } ==> dependency_line(
            dependency,
        ) == dependency.source_file@ + " -> "@ + file@ + " "@ + dependency.role.spelling()
            + " count="@ + decimal(dependency.count as nat) + " evidence="@ + decimal(
            dependency.evidence@.len(),
        ) + "\n"@,
        dependency.target matches ModuleDependencyTargetOutput::External { id_display, .. }
            ==> dependency_line(dependency) == dependency.source_file@ + " -> "@ + id_display@ + " "@
            + dependency.role.spelling() + " count="@ + decimal(dependency.count as nat)
            + " evidence="@ + decimal(dependency.evidence@.len()) + "\n"@,
        impact_line(impact) == "seed "@ + id_display(impact.seed) + " depth "@ + decimal(
            impact.depth as nat,
        ) + " "@ + id_display(impact.symbol) + " -> "@ + id_display(impact.parent) + " via "@
            + relation_line(impact.via) + "\n"@,
{
}

/// An output is printed whole: what a query found, row by row, and then what was cut; of an
/// index, a status and a graph how much there is, and whether it is whole, fresh and cached.
pub proof fn outputs_are_printed_whole(output: CommandOutput, r: String)
    requires
        call_ensures(render_human, (&output,), r),
    ensures
        output matches CommandOutput::Symbols(e) ==> r@ == symbol_lines(
            e.results@,
            e.results@.len() as int,
        ) + truncation_text(e.truncated, e.returned, e.total),
        output matches CommandOutput::Def(e) ==> r@ == symbol_lines(
            e.results@,
            e.results@.len() as int,
        ) + truncation_text(e.truncated, e.returned, e.total),
        output matches CommandOutput::Callers(e) ==> r@ == relation_lines(
            e.results@,
            e.results@.len() as int,
        ) + truncation_text(e.truncated, e.returned, e.total),
        output matches CommandOutput::Callees(e) ==> r@ == relation_lines(
            e.results@,
            e.results@.len() as int,
        ) + truncation_text(e.truncated, e.returned, e.total),
        output matches CommandOutput::Usages(e) ==> r@ == relation_lines(
            e.results@,
            e.results@.len() as int,
        ) + truncation_text(e.truncated, e.returned, e.total),
        output matches CommandOutput::Imports(e) ==> r@ == relation_lines(
            e.results@,
            e.results@.len() as int,
        ) + truncation_text(e.truncated, e.returned, e.total),
        output matches CommandOutput::References(e) ==> r@ == reference_lines(
            e.results@,
            e.results@.len() as int,
        ) + truncation_text(e.truncated, e.returned, e.total),
        output matches CommandOutput::ModuleDeps(e) ==> r@ == dependency_lines(
            e.results@,
            e.results@.len() as int,
        ) + truncation_text(e.truncated, e.returned, e.total),
        output matches CommandOutput::Impact(e) ==> (e.truncated ==> r@ == impact_lines(
            e.results@,
            e.results@.len() as int,
        ) + "truncated: traversal bound omitted reachable results\n"@) && (!e.truncated ==> r@
            =~= impact_lines(e.results@, e.results@.len() as int)),
        output matches CommandOutput::Index(e) ==> r@ == "indexed "@ + decimal(
            e.results.inventory_file_count as nat,
        ) + " files; "@ + decimal(e.results.changed as nat) + " changed, "@ + decimal(
            e.results.deleted as nat,
        ) + " deleted; "@ + e.results.completeness.spelling() + "\n"@,
        output matches CommandOutput::Status(e) ==> {
            let head = e.results.project.freshness.spelling() + ": "@ + decimal(
                e.results.inventory.admitted_files as nat,
            ) + " files; "@;
            match e.results.project.cache {
                CacheDisposition::Hit => r@ == head + "cache hit"@ + "\n"@,
                CacheDisposition::Miss => r@ == head + "cache miss"@ + "\n"@,
                CacheDisposition::Disabled => r@ == head + "cache disabled"@ + "\n"@,
            }
        },
        output matches CommandOutput::LoadedGraph(g) ==> r@ == "loaded "@ + decimal(
            g.graph.symbols@.len(),
        ) + " symbols and "@ + decimal(g.graph.edges@.len()) + " edges\n"@,
{
}

/// The words of results are stable: scripts read them.
pub proof fn words_of_results_are_stable()
    ensures
        OutputStatus::Success.spelling() == "ok"@,
        OutputStatus::NoMatch.spelling() == "no-match"@,
        OutputStatus::Ambiguous.spelling() == "ambiguous"@,
        OutputStatus::Partial.spelling() == "partial"@,
        OutputStatus::Stale.spelling() == "stale"@,
        OutputStatus::Unsupported.spelling() == "unsupported"@,
        OutputStatus::Timeout.spelling() == "timeout"@,
        OutputStatus::Error.spelling() == "error"@,
        Freshness::Fresh.spelling() == "fresh"@,
        Freshness::Frozen.spelling() == "frozen"@,
        Freshness::Stale.spelling() == "stale"@,
        CacheDisposition::Hit.spelling() == "hit"@,
        CacheDisposition::Miss.spelling() == "miss"@,
        CacheDisposition::Disabled.spelling() == "disabled"@,
        CacheCompletenessOutput::Complete.spelling() == "complete"@,
        CacheCompletenessOutput::Partial.spelling() == "partial"@,
        RefRoleOutput::Call.spelling() == "call"@,
        RefRoleOutput::IsImplementation.spelling() == "is-implementation"@,
        RefRoleOutput::Import.spelling() == "import"@,
        RefRoleOutput::ModuleRef.spelling() == "module-ref"@,
        RefRoleOutput::TypeRef.spelling() == "type-ref"@,
        RefRoleOutput::Read.spelling() == "read"@,
        RefRoleOutput::Write.spelling() == "write"@,
        ConfidenceOutput::Heuristic.spelling() == "heuristic"@,
        ConfidenceOutput::NameOnly.spelling() == "name-only"@,
        ConfidenceOutput::Scoped.spelling() == "scoped"@,
        ConfidenceOutput::Exact.spelling() == "exact"@,
        ProvenanceOutput::SymbolTable.spelling() == "symbol-table"@,
        ProvenanceOutput::ScopeGraph.spelling() == "scope-graph"@,
        ProvenanceOutput::FfiBridge.spelling() == "ffi-bridge"@,
        ProvenanceOutput::Conformance.spelling() == "conformance"@,
        ProvenanceOutput::NormalizedName.spelling() == "normalized-name"@,
        ProvenanceOutput::External.spelling() == "external"@,
{
}

/// A check passes where nothing is limited and nothing cancels; a timeout of no length is used
/// up at once; and a check fails only as cancelled or as timed out, the latter only where a
/// timeout is set.
pub proof fn checks_fail_only_as_told<C: Cancellation>(
    deadline: Deadline,
    cancellation: &C,
    r: Result<(), CliError>,
)
    requires
        call_ensures(Deadline::check::<C>, (&deadline, cancellation), r),
    ensures
        r matches Err(e) ==> e == CliError::Cancelled || e == CliError::Timeout,
        r == Err::<(), CliError>(CliError::Timeout) ==> deadline.span() is Some,
        cancellation.never_cancels() ==> r != Err::<(), CliError>(CliError::Cancelled),
        cancellation.never_cancels() && deadline.span() is None ==> r is Ok,
        cancellation.never_cancels() && deadline.span() == Some(0nat) ==> r == Err::<(), CliError>(
            CliError::Timeout,
        ),
{
}

/// What is left of a timeout and what has passed make up the timeout, until it is used up.
pub proof fn time_is_neither_lost_nor_gained(span: nat, passed: nat)
    ensures
        passed <= span ==> time_left(span, passed) + passed == span,
        passed >= span ==> time_left(span, passed) == 0,
{
}

/// What is told about a project is what its snapshot is: its identity, whether it is whole,
/// what it leaves out and how much that is, and how it was come by.
pub proof fn projects_are_told_as_they_are(
    selection: ProjectSelection,
    snapshot: LoadedSnapshot,
    tier: ResolverTier,
    freshness: Freshness,
    cache: CacheDisposition,
    r: ProjectOutput,
    i: int,
)
    requires
        call_ensures(project_output, (&selection, &snapshot, tier, freshness, cache), r),
        snapshot.omissions@.len() <= usize::MAX,
    ensures
        r.snapshot@ == hex(snapshot.candidate_id.bytes@),
        r.root@ == lossy_text(selection.canonical_root@),
        r.tier == tier,
        r.freshness == freshness,
        r.cache == cache,
        r.completeness == CacheCompletenessOutput::Complete <==> snapshot.completeness
            == CacheCompleteness::Complete,
        r.omitted_files == snapshot.omissions@.len(),
        r.omissions@.len() == snapshot.omissions@.len(),
        0 <= i < snapshot.omissions@.len() ==> r.omissions@[i].path@ == snapshot.omissions@[i].path@
            && r.omissions@[i].reason@ == snapshot.omissions@[i].reason@ && r.omissions@[i].detail@
            == snapshot.omissions@[i].detail@,
{
    let shown = omission_output_views(r.omissions@);
    let held = omission_views(snapshot.omissions@);
    assert(r@.omissions == held);
    assert(shown.len() == held.len());
    if 0 <= i < snapshot.omissions@.len() {
        assert(shown[i] == held[i]);
    }
}

/// A status and the report of an index tell the counts of their snapshot and the limits that
/// hold, each under its own name.
pub proof fn reports_keep_their_numbers(
    project: ProjectOutput,
    snapshot: LoadedSnapshot,
    limits: ResourceLimits,
    status: StatusOutput,
    tier: ResolverTier,
    changed: usize,
    deleted: usize,
    ignored: usize,
    attempts: u8,
    decisions: PlanDecisionCountsOutput,
    index: IndexOutput,
)
    requires
        call_ensures(StatusOutput::from_loaded_snapshot, (project, &snapshot, &limits), status),
        call_ensures(
            IndexOutput::from_loaded_snapshot,
            (&snapshot, tier, changed, deleted, ignored, attempts, decisions),
            index,
        ),
    ensures
        status.inventory.admitted_files == snapshot.inventory_file_count,
        status.inventory.total_bytes == snapshot.inventory_total_bytes,
        status.max_files == limits.max_files,
        status.max_file_bytes == limits.max_file_bytes,
        status.max_total_bytes == limits.max_total_bytes,
        status.max_depth == limits.max_depth,
        status.result_limit == limits.result_limit,
        status.impact_depth == 2,
        status.timeout_millis is Some <==> limits.timeout is Some,
        index.snapshot@ == hex(snapshot.candidate_id.bytes@),
        index.completeness == CacheCompletenessOutput::Complete <==> snapshot.completeness
            == CacheCompleteness::Complete,
        index.inventory_file_count == snapshot.inventory_file_count,
        index.inventory_total_bytes == snapshot.inventory_total_bytes,
        index.tier == tier,
        index.changed == changed,
        index.deleted == deleted,
        index.ignored_omissions == ignored,
        index.attempts == attempts,
        index.decisions == decisions,
{
}

/// The decisions of a plan are all counted: each is of one kind, and no more are told than
/// there are.
pub proof fn all_decisions_are_counted(entries: Seq<RefreshEntry>, n: int)
    requires
        0 <= n <= entries.len(),
    ensures
        ({
            let c = decision_counts(entries, n);
            c.0 + c.1 + c.2 + c.3 + c.4 == n
        }),
    decreases n,
{
    if n > 0 {
        all_decisions_are_counted(entries, n - 1);
    }
}

/// The numbers that a process exits with are stable: scripts read them.
pub proof fn exits_are_numbered()
    ensures
        ExitCode::Success.number() == 0,
        ExitCode::NoMatch.number() == 1,
        ExitCode::Usage.number() == 2,
        ExitCode::Ambiguous.number() == 3,
        ExitCode::Operational.number() == 4,
{
}

} // verus!
