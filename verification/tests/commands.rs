//! Queries over small graphs.

use code2graph::cache::fingerprint::{
    CandidateId, CompatibilityFingerprint, LanguageFeatureFingerprint, PackageFingerprint,
    ProjectInputDigest,
};
use code2graph::cache::snapshot::{CompatibilityRecord, LoadedSnapshot};
use code2graph::cache::types::{CacheCompleteness, ResolverCacheTier};
use code2graph::commands::definition::{execute_definition, DefinitionCommandRequest};
use code2graph::commands::diff::{
    byte_ranges_overlap, line_range_to_byte_range, line_starts, parse_diff, parse_hunk_header,
    FileLineRanges,
};
use code2graph::commands::diff_impact::{
    diff_seeds, execute_diff_impact, DiffImpactCommandRequest,
};
use code2graph::commands::impact::{
    append_seed_impact, default_impact_role, execute_impact, ImpactCommandRequest,
};
use code2graph::commands::imports::{
    collect_imports_read, execute_imports, ImportsCommandRequest,
};
use code2graph::commands::module_deps::{
    aggregate_module_deps, execute_module_deps, ModuleDepsCommandRequest,
};
use code2graph::commands::references::{
    execute_references, reference_output, ReferencesCommandRequest,
};
use code2graph::commands::relations::{
    collect_relation_evidence_read, execute_relations, relation_output, RelationCommandRequest,
    RelationDirection,
};
use code2graph::commands::selector::resolve_selector;
use code2graph::commands::shared::{
    limit, normalized_project_path, QueryCommandContext, SelectorResolution,
};
use code2graph::commands::symbols::{
    execute_symbols, normalized_file, substring_matches, SymbolsCommandRequest,
};
use code2graph::config::{GlobalOptions, ResolverTier};
use code2graph::deadline::{Cancellation, Deadline, NeverCancelled};
use code2graph::error::CliError;
use code2graph::execution::answer::answer_query;
use code2graph::execution::dispatch::{execute, SelectorRequest};
use code2graph::execution::snapshots::graph_from_snapshot;
use code2graph::execution::types::{CommandOutput, LoadedGraph};
use code2graph::graph::{
    ByteSpan, CodeGraph, Confidence, Descriptor, Edge, FileFacts, Occurrence, Provenance, RefRole,
    Reference, Symbol, SymbolId, SymbolKind, TypeRefContext, Visibility,
};
use code2graph::project::select::{ProjectSelection, SelectionProvenance};
use code2graph::query::impact::{impact, ImpactOptions};
use code2graph::query::index::{
    EdgeFilter, EdgeKey, EdgeScope, GraphIndex, GraphIndexError, SymbolScope,
};
use code2graph::query::pages::{collect_edges, collect_symbols};
use code2graph::result::{
    CacheDisposition, ConfidenceOutput, Freshness, ModuleDependencyTargetOutput, OutputEnvelope,
    OutputStatus, ProvenanceOutput, RefRoleOutput, SymbolKindOutput, TypeRefContextOutput,
};
use code2graph::request::{CliRequest, CommandRequest, Selector};
use code2graph::text_map::TextMap;

fn id(name: &str) -> SymbolId {
    SymbolId::global("rust", vec![Descriptor::Term(name.into())])
}

fn symbol(id: SymbolId, name: &str, file: &str, signature: &str, kind: SymbolKind) -> Symbol {
    Symbol {
        id,
        name: name.into(),
        kind,
        visibility: Visibility::Public,
        entry_points: Vec::new(),
        file: file.into(),
        line: 1,
        span: ByteSpan { start: 0, end: 1 },
        signature: signature.into(),
    }
}

fn call(from: &SymbolId, to: &SymbolId, byte: usize) -> Edge {
    Edge {
        from: from.clone(),
        to: to.clone(),
        role: RefRole::Call,
        confidence: Confidence::Scoped,
        provenance: Provenance::ScopeGraph,
        occ: Occurrence { file: "src/lib.rs".into(), line: 1, col: 0, byte },
    }
}

fn keys(edges: &[Edge]) -> Vec<EdgeKey> {
    edges.iter().map(EdgeKey::of).collect()
}

fn bytes(edges: &[Edge]) -> Vec<usize> {
    edges.iter().map(|edge| edge.occ.byte).collect()
}

#[test]
fn hunk_header_parses_common_and_edge_forms() {
    assert_eq!(parse_hunk_header("@@ -1,3 +1,4 @@"), Some((1, 5)));
    assert_eq!(parse_hunk_header("@@ -5 +5 @@"), Some((5, 6)));
    // Pure deletion: new-side count is zero, point at the anchor line.
    assert_eq!(parse_hunk_header("@@ -10,2 +9,0 @@"), Some((9, 10)));
    // Deletion anchored at the very start of the file clamps to line 1.
    assert_eq!(parse_hunk_header("@@ -1,2 +0,0 @@"), Some((1, 2)));
}

#[test]
fn hunk_header_parsing_never_panics_on_malformed_input() {
    for malformed in [
        "@@ garbage @@",
        "@@ -a,b +c,d @@",
        "@@ -1,3",
        "not a hunk header",
        "@@  @@",
        "@@ -1,3 +x @@",
    ] {
        assert_eq!(parse_hunk_header(malformed), None, "{malformed}");
    }
    // A range that ends past the last line number names no lines.
    assert_eq!(parse_hunk_header("@@ -1 +4294967295,7 @@"), None);
}

#[test]
fn multi_file_diff_parses_per_file_ranges_and_handles_deleted_files() {
    let diff = "\
diff --git a/src/a.rs b/src/a.rs
--- a/src/a.rs
+++ b/src/a.rs
@@ -1,3 +1,4 @@
@@ -10,0 +12,2 @@
diff --git a/src/b.rs b/src/b.rs
--- a/src/b.rs
+++ /dev/null
@@ -1,5 +0,0 @@
diff --git a/src/c.rs b/src/c.rs
--- /dev/null
+++ b/src/c.rs
@@ -0,0 +1,3 @@
";
    let parsed = parse_diff(diff);
    assert_eq!(parsed.len(), 2, "the deleted file contributes no section");
    assert_eq!(parsed[0].path, "src/a.rs");
    assert_eq!(parsed[0].ranges, vec![(1, 5), (12, 14)]);
    assert_eq!(parsed[1].path, "src/c.rs");
    assert_eq!(parsed[1].ranges, vec![(1, 4)]);
}

#[test]
fn empty_diff_parses_to_no_files() {
    assert!(parse_diff("").is_empty());
}

#[test]
fn line_range_maps_to_bytes_across_crlf_and_missing_final_newline() {
    let source = "one\r\ntwo\r\nthree";
    let starts = line_starts(source);
    // Line 1 = "one\r", line 2 = "two\r", line 3 = "three" (no trailing newline).
    assert_eq!(starts, vec![0, 5, 10]);
    assert_eq!(line_range_to_byte_range(&starts, source.len(), 1, 2), Some((0, 5)));
    assert_eq!(line_range_to_byte_range(&starts, source.len(), 3, 4), Some((10, 15)));
    assert_eq!(line_range_to_byte_range(&starts, source.len(), 2, 4), Some((5, 15)));
    // A start line past the end of the file maps to nothing, not a panic.
    assert_eq!(line_range_to_byte_range(&starts, source.len(), 9, 10), None);
    // Line zero is never valid (lines are 1-based).
    assert_eq!(line_range_to_byte_range(&starts, source.len(), 0, 1), None);
}

#[test]
fn byte_overlap_matches_half_open_semantics() {
    let span = ByteSpan { start: 10, end: 20 };
    assert!(byte_ranges_overlap(span, 5, 11), "overlaps at the start");
    assert!(byte_ranges_overlap(span, 19, 25), "overlaps at the end");
    assert!(byte_ranges_overlap(span, 10, 20), "identical range");
    assert!(!byte_ranges_overlap(span, 0, 10), "touches but does not overlap");
    assert!(!byte_ranges_overlap(span, 20, 30), "touches but does not overlap");
    assert!(!byte_ranges_overlap(span, 0, 5), "entirely before");
    assert!(!byte_ranges_overlap(span, 25, 30), "entirely after");
}

#[test]
fn relation_output_preserves_lossless_ids_and_zero_based_json_coordinates() {
    let from = id("caller");
    let to = SymbolId::local("vendor/api.rs", "callee");
    let edge = Edge {
        from: from.clone(),
        to: to.clone(),
        role: RefRole::Read,
        confidence: Confidence::Scoped,
        provenance: Provenance::ScopeGraph,
        occ: Occurrence { file: "src//caller.rs".into(), line: 7, col: 0, byte: 19 },
    };
    let output = relation_output(&edge);
    assert_eq!(output.from, from);
    assert_eq!(output.to, to);
    assert_eq!(output.occurrence.file, "src/caller.rs");
    assert_eq!(output.occurrence.line, 7);
    assert_eq!(output.occurrence.column, 0);
    assert_eq!(output.occurrence.byte, 19);
}

#[test]
fn evidence_uses_complete_edge_keys_for_deduplication_and_order() {
    let caller = id("caller");
    let endpoint = SymbolId::local("vendor/api.rs", "callee");
    let make_edge = |byte: usize, provenance: Provenance| Edge {
        from: caller.clone(),
        to: endpoint.clone(),
        role: RefRole::Call,
        confidence: Confidence::Scoped,
        provenance,
        occ: Occurrence { file: "src/caller.rs".into(), line: 1, col: byte as u32, byte },
    };
    let index = GraphIndex::from_graph(CodeGraph {
        symbols: Vec::new(),
        edges: vec![
            make_edge(9, Provenance::ScopeGraph),
            make_edge(2, Provenance::External),
            make_edge(2, Provenance::ScopeGraph),
        ],
    })
    .unwrap();
    assert!(index.find(&endpoint).is_none(), "the endpoint has no definition");

    let filter = EdgeFilter::new(Confidence::Scoped).with_role(RefRole::Call);
    let evidence = collect_relation_evidence_read(
        &index,
        &vec![endpoint.clone(), endpoint.clone()],
        RelationDirection::Incoming,
        filter,
    )
    .unwrap();
    assert_eq!(
        keys(&evidence),
        keys(index.edges_in_order()),
        "paged GraphRead evidence preserves in-memory relation ordering"
    );
    assert_eq!(evidence.len(), 3, "repeated selected IDs do not duplicate rows");
    assert!(keys(&evidence).windows(2).all(|pair| pair[0] < pair[1]));
    assert_eq!(
        bytes(&evidence),
        vec![2, 2, 9],
        "distinct provenance at one occurrence remains distinct evidence"
    );
}

#[test]
fn type_seeds_default_to_all_roles_and_functions_default_to_calls() {
    let type_id = SymbolId::global("rust", vec![Descriptor::Type("Config".into())]);
    let function_id = id("run");
    let index = GraphIndex::from_graph(CodeGraph {
        symbols: vec![
            symbol(type_id.clone(), "Config", "src/lib.rs", "Config", SymbolKind::Struct),
            symbol(function_id.clone(), "run", "src/lib.rs", "run", SymbolKind::Function),
        ],
        edges: vec![],
    })
    .unwrap();

    assert_eq!(default_impact_role(&index, &type_id).unwrap(), None);
    assert_eq!(default_impact_role(&index, &function_id).unwrap(), Some(RefRole::Call));
    assert_eq!(default_impact_role(&index, &id("external")).unwrap(), Some(RefRole::Call));
}

#[test]
fn plural_seeds_share_one_global_bound_without_merging_traversals() {
    let seed_a = id("seed_a");
    let seed_b = id("seed_b");
    let caller_a = id("caller_a");
    let caller_b = id("caller_b");
    let index = GraphIndex::from_graph(CodeGraph {
        symbols: Vec::new(),
        edges: vec![call(&caller_b, &seed_b, 2), call(&caller_a, &seed_a, 1)],
    })
    .unwrap();
    let filter = EdgeFilter::new(Confidence::Scoped).with_role(RefRole::Call);
    let mut rows = Vec::new();
    let mut truncated = false;
    for seed in [&seed_a, &seed_b] {
        truncated |= append_seed_impact(&index, seed, filter, 5, 1, &mut rows).unwrap();
    }

    assert_eq!(rows.len(), 1, "the limit is global rather than per seed");
    assert_eq!(rows[0].output.seed, seed_a);
    assert_eq!(rows[0].output.symbol, caller_a);
    assert!(truncated, "the omitted second traversal must be reported");
}

#[test]
fn independent_seed_rows_survive_cycles_and_diamond_deduplication() {
    let seed_a = id("seed_a");
    let seed_b = id("seed_b");
    let shared = id("shared");
    let left = id("left");
    let right = id("right");
    let index = GraphIndex::from_graph(CodeGraph {
        symbols: Vec::new(),
        edges: vec![
            call(&shared, &seed_a, 1),
            call(&seed_a, &shared, 2),
            call(&shared, &seed_b, 3),
            call(&left, &shared, 4),
            call(&right, &shared, 5),
            call(&left, &right, 6),
        ],
    })
    .unwrap();
    let filter = EdgeFilter::new(Confidence::Scoped).with_role(RefRole::Call);
    let mut rows = Vec::new();
    let mut truncated = false;
    for seed in [&seed_a, &seed_b] {
        truncated |= append_seed_impact(&index, seed, filter, 10, 20, &mut rows).unwrap();
    }

    assert!(!truncated);
    assert_eq!(rows.iter().filter(|row| row.output.seed == seed_a).count(), 3);
    assert_eq!(rows.iter().filter(|row| row.output.seed == seed_b).count(), 4);
    assert_eq!(
        rows.iter()
            .filter(|row| row.output.seed == seed_b && row.output.symbol == left)
            .count(),
        1,
        "a diamond yields one deterministic row per symbol per traversal"
    );
}

fn import(role: RefRole, confidence: Confidence, byte: usize, provenance: Provenance) -> Edge {
    Edge {
        from: id("caller"),
        to: id("target"),
        role,
        confidence,
        provenance,
        occ: Occurrence { file: "src//main.rs".into(), line: 1, col: byte as u32, byte },
    }
}

fn import_graph() -> CodeGraph {
    CodeGraph {
        symbols: Vec::new(),
        edges: vec![
            import(RefRole::Call, Confidence::Exact, 0, Provenance::ScopeGraph),
            import(RefRole::Import, Confidence::NameOnly, 1, Provenance::SymbolTable),
            import(RefRole::ModuleRef, Confidence::Scoped, 4, Provenance::External),
            import(RefRole::Import, Confidence::Scoped, 2, Provenance::External),
            import(RefRole::Import, Confidence::Scoped, 2, Provenance::ScopeGraph),
        ],
    }
}

#[test]
fn imports_normalize_file_filter_roles_confidence_and_retain_parallel_evidence() {
    let index = GraphIndex::from_graph(import_graph()).unwrap();
    let evidence = collect_imports_read(&index, "src/main.rs", Confidence::Scoped).unwrap();
    let mut expected: Vec<Edge> = import_graph()
        .edges
        .into_iter()
        .filter(|edge| {
            matches!(edge.role, RefRole::Import | RefRole::ModuleRef)
                && edge.confidence >= Confidence::Scoped
        })
        .collect();
    expected.sort_by_key(EdgeKey::of);
    assert_eq!(
        keys(&evidence),
        keys(&expected),
        "paged GraphRead path preserves in-memory import evidence"
    );
    assert_eq!(evidence.len(), 3);
    assert!(keys(&evidence).windows(2).all(|pair| pair[0] < pair[1]));
    assert_eq!(bytes(&evidence), vec![2, 2, 4]);
    assert!(evidence.iter().any(|edge| edge.role == RefRole::ModuleRef));
    assert_eq!(
        evidence.iter().filter(|edge| edge.occ.byte == 2).count(),
        2,
        "parallel evidence differing only by provenance must not be lost"
    );
}

fn dependency(to: &SymbolId, role: RefRole, byte: usize, provenance: Provenance) -> Edge {
    Edge {
        from: id("source"),
        to: to.clone(),
        role,
        confidence: Confidence::Scoped,
        provenance,
        occ: Occurrence { file: "src//main.rs".into(), line: 1, col: byte as u32, byte },
    }
}

fn dependency_graph() -> CodeGraph {
    let local = id("local");
    let external = SymbolId::local("vendor/api.rs", "external");
    CodeGraph {
        symbols: vec![symbol(
            local.clone(),
            "local",
            "src//dep.rs",
            "fn local()",
            SymbolKind::Function,
        )],
        edges: vec![
            dependency(&local, RefRole::Import, 4, Provenance::ScopeGraph),
            dependency(&local, RefRole::Import, 2, Provenance::External),
            dependency(&local, RefRole::Import, 2, Provenance::ScopeGraph),
            dependency(&local, RefRole::ModuleRef, 8, Provenance::ScopeGraph),
            dependency(&external, RefRole::Import, 6, Provenance::External),
            dependency(&local, RefRole::Call, 9, Provenance::ScopeGraph),
        ],
    }
}

#[test]
fn aggregation_distinguishes_definition_files_external_ids_and_roles_without_evidence_loss() {
    let local = id("local");
    let external = SymbolId::local("vendor/api.rs", "external");
    let index = GraphIndex::from_graph(dependency_graph()).unwrap();
    let rows = aggregate_module_deps(&index, Confidence::Scoped).unwrap();

    assert_eq!(rows.len(), 3);
    assert_eq!(rows.iter().map(|row| row.count).sum::<usize>(), 5);
    assert!(aggregate_module_deps(&index, Confidence::Exact).unwrap().is_empty());
    let local_import = rows
        .iter()
        .find(|row| {
            row.role == RefRoleOutput::Import
                && matches!(&row.target, ModuleDependencyTargetOutput::File { file } if file == "src/dep.rs")
        })
        .unwrap();
    assert_eq!(local_import.source_file, "src/main.rs");
    assert_eq!(local_import.count, 3);
    assert_eq!(local_import.evidence.len(), 3);
    assert_eq!(
        local_import.evidence.iter().map(|edge| edge.occurrence.byte).collect::<Vec<_>>(),
        vec![2, 2, 4]
    );
    assert!(rows.iter().any(|row| row.role == RefRoleOutput::ModuleRef));
    assert!(rows.iter().any(|row| {
        matches!(&row.target, ModuleDependencyTargetOutput::External { id, .. } if id == &external)
    }));

    let mut reversed = dependency_graph();
    reversed.edges.reverse();
    let reversed_index = GraphIndex::from_graph(reversed).unwrap();
    assert_eq!(
        aggregate_module_deps(&reversed_index, Confidence::Scoped).unwrap(),
        rows,
        "graph input order must not affect rows or full evidence ordering"
    );

    let duplicate = dependency(&local, RefRole::Import, 12, Provenance::ScopeGraph);
    let invalid =
        CodeGraph { symbols: Vec::new(), edges: vec![duplicate.clone(), duplicate] };
    assert!(
        matches!(GraphIndex::from_graph(invalid), Err(GraphIndexError::DuplicateEdge)),
        "GraphIndex must reject duplicate structural evidence before command execution"
    );
}

#[test]
fn raw_reference_output_preserves_written_metadata_and_coordinates() {
    let reference = Reference {
        name: "Type".into(),
        occ: Occurrence { file: "src/a.rs".into(), line: 3, col: 0, byte: 17 },
        role: RefRole::TypeRef,
        source_module: Some("local module".into()),
        from_path: Some("crate::model".into()),
        qualifier: Some("outer::inner".into()),
        scope: None,
        type_ref_ctx: Some(TypeRefContext::GenericArg),
    };
    let output = reference_output(&reference);
    assert_eq!(output.name, "Type");
    assert_eq!(output.role, RefRoleOutput::TypeRef);
    assert_eq!(output.occurrence.file, "src/a.rs");
    assert_eq!(output.occurrence.line, 3);
    assert_eq!(output.occurrence.column, 0);
    assert_eq!(output.occurrence.byte, 17);
    assert_eq!(output.source_module.as_deref(), Some("local module"));
    assert_eq!(output.qualifier.as_deref(), Some("outer::inner"));
    assert_eq!(output.from_path.as_deref(), Some("crate::model"));
    assert_eq!(output.type_ref_context, Some(TypeRefContextOutput::GenericArg));
}

#[test]
fn unresolved_reference_omits_only_absent_optional_metadata() {
    let output = reference_output(&bare_reference("missing", "src//a.rs", RefRole::Call, 2));
    assert_eq!(output.occurrence.file, "src/a.rs");
    assert!(output.source_module.is_none());
    assert!(output.from_path.is_none());
    assert!(output.qualifier.is_none());
    assert!(output.type_ref_context.is_none());
}

#[test]
fn normalized_file_preserves_invalid_cached_paths_without_panicking() {
    let invalid = symbol(
        SymbolId::local("invalid", "value"),
        "value",
        "../invalid.rs",
        "fn value()",
        SymbolKind::Function,
    );
    let valid = symbol(
        SymbolId::local("valid", "value"),
        "value",
        "src//valid.rs",
        "fn value()",
        SymbolKind::Function,
    );
    assert_eq!(normalized_file(&invalid), "../invalid.rs");
    assert_eq!(normalized_file(&valid), "src/valid.rs");
}

#[test]
fn substring_fields_keep_display_distinct_from_lossless_identity() {
    let definition = symbol(
        id("display_target"),
        "unrelated_name",
        "src/Needle.rs",
        "fn unrelated_name() -> SignatureNeedle",
        SymbolKind::Function,
    );
    for needle in ["unrelated_name", "display_target", "SignatureNeedle", "Needle.rs"] {
        assert!(substring_matches(&definition, needle, None), "{needle}");
    }
    for needle in ["UNRELATED_NAME", "DISPLAY_TARGET", "SIGNATURENEEDLE", "NEEDLE.RS"] {
        assert!(
            substring_matches(&definition, needle, Some(&needle.to_lowercase())),
            "{needle}"
        );
        assert!(!substring_matches(&definition, needle, None), "{needle}");
    }
}

#[test]
fn envelope_uses_stable_schema_and_spelling() {
    let envelope = OutputEnvelope::new(OutputStatus::NoMatch, Vec::<String>::new());
    assert_eq!(envelope.schema_version, 1);
    assert_eq!(envelope.status.as_str(), "no-match");
    assert_eq!(envelope.returned, 0);
    assert_eq!(envelope.total, 0);
    assert!(!envelope.truncated);
    assert!(envelope.results.is_empty());
    assert!(envelope.project.is_none());
    assert!(envelope.selector.is_none());
}

#[test]
fn typed_values_use_documented_kebab_case() {
    assert_eq!(SymbolKindOutput::TypeAlias.as_str(), "type-alias");
    assert_eq!(RefRoleOutput::IsImplementation.as_str(), "is-implementation");
    assert_eq!(ConfidenceOutput::NameOnly.as_str(), "name-only");
    assert_eq!(ProvenanceOutput::ScopeGraph.as_str(), "scope-graph");
    assert_eq!(TypeRefContextOutput::GenericArg.as_str(), "generic-arg");
}

fn bare_reference(name: &str, file: &str, role: RefRole, byte: usize) -> Reference {
    Reference {
        name: name.into(),
        occ: Occurrence { file: file.into(), line: 1, col: byte as u32, byte },
        role,
        source_module: None,
        from_path: None,
        qualifier: None,
        scope: None,
        type_ref_ctx: None,
    }
}

fn empty_facts(file: &str) -> FileFacts {
    FileFacts {
        file: file.into(),
        lang: "rust".into(),
        symbols: Vec::new(),
        references: Vec::new(),
        scopes: Vec::new(),
        bindings: Vec::new(),
        ffi_exports: Vec::new(),
    }
}

/// A snapshot without files whose completeness is given.
fn snapshot(completeness: CacheCompleteness) -> LoadedSnapshot {
    let language_fingerprint = LanguageFeatureFingerprint::current();
    let package_fingerprint = PackageFingerprint::from_normalized(&vec!["test".to_owned()]);
    let compatibility_id = CompatibilityFingerprint::new(language_fingerprint, package_fingerprint);
    let input_digest = ProjectInputDigest::from_inputs(&Vec::new());
    let omissions = Vec::new();
    LoadedSnapshot {
        candidate_id: CandidateId::new(compatibility_id, input_digest, completeness, &omissions),
        compatibility: CompatibilityRecord {
            id: compatibility_id,
            language_fingerprint,
            package_fingerprint,
            created_at_ns: 1,
        },
        input_digest,
        completeness,
        omissions,
        created_at_ns: 2,
        inventory_file_count: 0,
        inventory_total_bytes: 0,
        files: Vec::new(),
        tier_graphs: vec![(
            ResolverCacheTier::Scope,
            CodeGraph { symbols: Vec::new(), edges: Vec::new() },
        )],
    }
}

fn loaded(freshness: Freshness) -> LoadedGraph {
    graph_from_snapshot(
        ProjectSelection {
            canonical_root: b"/project".to_vec(),
            canonical_source: None,
            provenance: SelectionProvenance::CurrentDirectory,
        },
        snapshot(CacheCompleteness::Complete),
        ResolverTier::Scope,
        freshness,
        CacheDisposition::Hit,
    )
    .expect("graph of the tier")
}

fn context<'a, C: Cancellation>(
    loaded: &'a LoadedGraph,
    index: &'a GraphIndex,
    deadline: &'a Deadline,
    cancellation: &'a C,
) -> QueryCommandContext<'a, GraphIndex, C> {
    QueryCommandContext {
        loaded,
        index,
        deadline,
        cancellation,
        max_file_bytes: 1_000,
        candidate_hashes: TextMap::new(),
        reference_facts: None,
    }
}

fn resolved(ids: Vec<SymbolId>, ambiguous: bool) -> SelectorResolution {
    SelectorResolution { matched_count: ids.len(), ids, symbols: None, ambiguous }
}

#[test]
fn callers_are_cut_at_the_limit_and_the_total_is_told() {
    let (seed, one, two) = (id("seed"), id("one"), id("two"));
    let index = GraphIndex::from_graph(CodeGraph {
        symbols: Vec::new(),
        edges: vec![call(&one, &seed, 1), call(&two, &seed, 2), call(&seed, &one, 3)],
    })
    .unwrap();
    let loaded = loaded(Freshness::Fresh);
    let deadline = Deadline::new(None);
    let context = context(&loaded, &index, &deadline, &NeverCancelled);
    let request = |direction: RelationDirection, result_limit: usize| RelationCommandRequest {
        file: None,
        role: Some(RefRole::Call),
        direction,
        result_limit,
        min_confidence: Confidence::Scoped,
    };
    let envelope = execute_relations(
        &context,
        request(RelationDirection::Incoming, 1),
        resolved(vec![seed.clone()], false),
    )
    .unwrap();
    assert_eq!(envelope.results.len(), 1);
    assert_eq!((envelope.returned, envelope.total, envelope.truncated), (1, 2, true));
    assert_eq!(envelope.status, OutputStatus::Success);
    assert_eq!(envelope.selector.map(|selector| selector.matched), Some(1));

    let envelope = execute_relations(
        &context,
        request(RelationDirection::Outgoing, 5),
        resolved(vec![seed], false),
    )
    .unwrap();
    assert_eq!(envelope.results[0].occurrence.byte, 3);
    assert_eq!((envelope.returned, envelope.total, envelope.truncated), (1, 1, false));
}

#[test]
fn cancelled_and_expired_queries_give_no_rows() {
    let index = GraphIndex::from_graph(import_graph()).unwrap();
    let loaded = loaded(Freshness::Fresh);
    let expired = Deadline::new(Some(std::time::Duration::ZERO));
    let request = ImportsCommandRequest {
        file: "src/main.rs",
        result_limit: 10,
        min_confidence: Confidence::Scoped,
    };
    assert!(matches!(
        execute_imports(&context(&loaded, &index, &expired, &NeverCancelled), request),
        Err(CliError::Timeout)
    ));
    let request = ModuleDepsCommandRequest {
        result_limit: 10,
        min_confidence: Confidence::Scoped,
    };
    assert!(matches!(
        execute_module_deps(&context(&loaded, &index, &Deadline::new(None), &Cancelled), request),
        Err(CliError::Cancelled)
    ));
}

struct Cancelled;

impl Cancellation for Cancelled {
    fn is_cancelled(&self) -> bool {
        true
    }
}

#[test]
fn imports_of_a_stale_snapshot_say_so() {
    let index = GraphIndex::from_graph(import_graph()).unwrap();
    let loaded = loaded(Freshness::Stale);
    let deadline = Deadline::new(None);
    let mut context = context(&loaded, &index, &deadline, &NeverCancelled);
    let request = ImportsCommandRequest {
        file: "src/main.rs",
        result_limit: 2,
        min_confidence: Confidence::Scoped,
    };
    // A file that the snapshot does not hold has no imports.
    assert!(matches!(execute_imports(&context, request), Err(CliError::NoMatch)));
    context.candidate_hashes.insert("src/main.rs".into(), [0; 32]);
    let envelope = execute_imports(
        &context,
        ImportsCommandRequest {
            file: "src//main.rs",
            result_limit: 2,
            min_confidence: Confidence::Scoped,
        },
    )
    .unwrap();
    assert_eq!(envelope.status, OutputStatus::Stale);
    assert_eq!((envelope.returned, envelope.total, envelope.truncated), (2, 3, true));
    let refused = execute_imports(
        &context,
        ImportsCommandRequest {
            file: "../main.rs",
            result_limit: 2,
            min_confidence: Confidence::Scoped,
        },
    );
    assert!(matches!(refused, Err(CliError::ProjectRelativePath { .. })));
}

#[test]
fn module_dependencies_are_cut_at_the_limit() {
    let index = GraphIndex::from_graph(dependency_graph()).unwrap();
    let loaded = loaded(Freshness::Fresh);
    let deadline = Deadline::new(None);
    let envelope = execute_module_deps(
        &QueryCommandContext::new(&loaded, &index, &deadline, &NeverCancelled, 1_000),
        ModuleDepsCommandRequest { result_limit: 2, min_confidence: Confidence::Scoped },
    )
    .unwrap();
    assert_eq!((envelope.returned, envelope.total, envelope.truncated), (2, 3, true));
}

#[test]
fn symbols_match_by_substring_file_kind_and_case() {
    let index = GraphIndex::from_graph(CodeGraph {
        symbols: vec![
            symbol(id("Alpha"), "Alpha", "src/a.rs", "fn Alpha()", SymbolKind::Function),
            symbol(id("alphabet"), "alphabet", "src/b.rs", "alphabet", SymbolKind::Struct),
            symbol(id("beta"), "beta", "src/b.rs", "fn beta()", SymbolKind::Function),
        ],
        edges: Vec::new(),
    })
    .unwrap();
    let loaded = loaded(Freshness::Fresh);
    let deadline = Deadline::new(None);
    let context = context(&loaded, &index, &deadline, &NeverCancelled);
    let names = |file: Option<&str>, kind: Option<SymbolKind>, case_sensitive: bool| {
        execute_symbols(
            &context,
            SymbolsCommandRequest {
                text: "ALPHA",
                file,
                kind,
                case_sensitive,
                result_limit: 10,
            },
        )
        .map(|envelope| {
            envelope.results.into_iter().map(|row| row.name).collect::<Vec<_>>().join(" ")
        })
    };
    assert_eq!(names(None, None, false).unwrap(), "Alpha alphabet");
    assert_eq!(names(None, None, true), Err(CliError::NoMatch));
    assert_eq!(names(Some("src//b.rs"), None, false).unwrap(), "alphabet");
    assert_eq!(names(None, Some(SymbolKind::Function), false).unwrap(), "Alpha");
}

#[test]
fn definitions_come_in_order_and_an_ambiguous_selector_says_so() {
    let (first, second) = (id("a"), id("b"));
    let index = GraphIndex::from_graph(CodeGraph {
        symbols: vec![
            symbol(second.clone(), "b", "src//b.rs", "fn b()", SymbolKind::Function),
            symbol(first.clone(), "a", "src/a.rs", "fn a()", SymbolKind::Function),
        ],
        edges: Vec::new(),
    })
    .unwrap();
    let loaded = loaded(Freshness::Fresh);
    let deadline = Deadline::new(None);
    let context = context(&loaded, &index, &deadline, &NeverCancelled);
    let mut resolution = resolved(vec![first, second], true);
    resolution.symbols = Some(index.symbols_in_order().clone());
    let envelope = execute_definition(
        &context,
        DefinitionCommandRequest { file: None, result_limit: 10 },
        resolution,
    )
    .unwrap();
    assert_eq!(
        envelope.results.iter().map(|row| row.file.as_str()).collect::<Vec<_>>(),
        ["src/a.rs", "src/b.rs"]
    );
    assert!(envelope.selector.unwrap().ambiguous);
}

#[test]
fn references_are_filtered_by_name_and_role() {
    let index =
        GraphIndex::from_graph(CodeGraph { symbols: Vec::new(), edges: Vec::new() }).unwrap();
    let loaded = loaded(Freshness::Fresh);
    let deadline = Deadline::new(None);
    let mut context = context(&loaded, &index, &deadline, &NeverCancelled);
    let mut facts = empty_facts("src/a.rs");
    facts.references = vec![
        bare_reference("run", "src/a.rs", RefRole::Call, 1),
        bare_reference("run", "src/a.rs", RefRole::Read, 2),
        bare_reference("walk", "src/a.rs", RefRole::Call, 3),
    ];
    context.reference_facts = Some(facts);
    let request = |name: Option<&'static str>, role: Option<RefRole>| ReferencesCommandRequest {
        file: "src/a.rs",
        name,
        role,
        result_limit: 10,
    };
    let found = |name: Option<&'static str>, role: Option<RefRole>| {
        execute_references(&context, request(name, role))
            .unwrap()
            .results
            .into_iter()
            .map(|row| row.occurrence.byte)
            .collect::<Vec<_>>()
    };
    assert_eq!(found(None, None), [1, 2, 3]);
    assert_eq!(found(Some("run"), None), [1, 2]);
    assert_eq!(found(Some("run"), Some(RefRole::Call)), [1]);
}

#[test]
fn impact_walks_backwards_to_the_depth_and_reports_the_weakest_step() {
    let (seed, near, far) = (id("seed"), id("near"), id("far"));
    let mut weak = call(&far, &near, 2);
    weak.confidence = Confidence::NameOnly;
    let index = GraphIndex::from_graph(CodeGraph {
        symbols: Vec::new(),
        edges: vec![call(&near, &seed, 1), weak],
    })
    .unwrap();
    let options = |max_depth: u32, max_nodes: usize| ImpactOptions {
        filter: EdgeFilter::new(Confidence::NameOnly),
        max_depth,
        max_nodes,
    };
    let whole = impact(&index, &seed, options(5, 10)).unwrap();
    assert_eq!(
        whole.steps.iter().map(|step| (step.depth, step.path_confidence)).collect::<Vec<_>>(),
        [(1, Confidence::Scoped), (2, Confidence::NameOnly)]
    );
    assert!(!whole.truncated);
    let bounded = impact(&index, &seed, options(5, 1)).unwrap();
    assert_eq!(bounded.steps.len(), 1);
    assert!(bounded.truncated);
    assert_eq!(impact(&index, &seed, options(1, 10)).unwrap().steps.len(), 1);
}

#[test]
fn impact_of_a_selected_symbol_names_the_seed() {
    let (seed, caller) = (id("seed"), id("caller"));
    let index = GraphIndex::from_graph(CodeGraph {
        symbols: Vec::new(),
        edges: vec![call(&caller, &seed, 1)],
    })
    .unwrap();
    let loaded = loaded(Freshness::Fresh);
    let deadline = Deadline::new(None);
    let envelope = execute_impact(
        &context(&loaded, &index, &deadline, &NeverCancelled),
        ImpactCommandRequest {
            file: None,
            role: None,
            depth: 3,
            max_nodes: 5,
            min_confidence: Confidence::Scoped,
        },
        resolved(vec![seed.clone()], false),
    )
    .unwrap();
    assert_eq!(envelope.results.len(), 1);
    assert_eq!(envelope.results[0].seed, seed);
    assert_eq!(envelope.results[0].symbol, caller);
    assert!(!envelope.truncated);
}

#[test]
fn a_diff_seeds_the_definitions_whose_bytes_changed() {
    let source = "fn one() {}\nfn two() {}\n";
    let (one, two, caller) = (id("one"), id("two"), id("caller"));
    let mut first = symbol(one.clone(), "one", "src/a.rs", "fn one()", SymbolKind::Function);
    first.span = ByteSpan { start: 0, end: 11 };
    let mut second = symbol(two.clone(), "two", "src/a.rs", "fn two()", SymbolKind::Function);
    second.span = ByteSpan { start: 12, end: 23 };
    let index = GraphIndex::from_graph(CodeGraph {
        symbols: vec![first, second],
        edges: vec![call(&caller, &two, 1), call(&caller, &one, 2)],
    })
    .unwrap();
    let loaded = loaded(Freshness::Fresh);
    let deadline = Deadline::new(None);
    let mut context = context(&loaded, &index, &deadline, &NeverCancelled);
    context
        .candidate_hashes
        .insert("src/a.rs".into(), *blake3::hash(source.as_bytes()).as_bytes());
    let changes =
        vec![FileLineRanges { path: "src/a.rs".into(), ranges: vec![(2, 3), (2, 3)] }];
    let sources = vec![Some(source.to_owned())];
    assert_eq!(diff_seeds(&context, &changes, &sources).unwrap(), [two.clone()]);
    let request = DiffImpactCommandRequest {
        role: None,
        depth: 2,
        max_nodes: 5,
        min_confidence: Confidence::Scoped,
    };
    let envelope = execute_diff_impact(&context, request, &changes, &sources).unwrap();
    assert_eq!(envelope.results.len(), 1);
    assert_eq!(envelope.results[0].seed, two);
    assert_eq!(envelope.results[0].symbol, caller);
}

#[test]
fn pages_join_into_the_whole_in_order() {
    let mut edges = Vec::new();
    for byte in (0..600).rev() {
        edges.push(call(&id("from"), &id("to"), byte));
    }
    let index = GraphIndex::from_graph(CodeGraph { symbols: Vec::new(), edges }).unwrap();
    let filter = EdgeFilter::new(Confidence::NameOnly);
    let all = collect_edges(&index, EdgeScope::All, filter).unwrap();
    assert_eq!(bytes(&all), (0..600).collect::<Vec<_>>());
    let page = index.edge_page(EdgeScope::All, filter, None, 256);
    assert_eq!(page.items.len(), 256);
    let rest = index.edge_page(EdgeScope::All, filter, page.next.as_ref(), 600);
    assert_eq!(bytes(&rest.items), (256..600).collect::<Vec<_>>());
    assert!(rest.next.is_none());
    assert!(collect_symbols(&index, SymbolScope::All).unwrap().is_empty());
}

#[test]
fn an_index_refuses_two_definitions_of_one_identity() {
    let one = symbol(id("a"), "a", "src/a.rs", "fn a()", SymbolKind::Function);
    let two = symbol(id("a"), "a", "src/b.rs", "fn a()", SymbolKind::Function);
    assert!(matches!(
        GraphIndex::from_graph(CodeGraph { symbols: vec![one, two], edges: Vec::new() }),
        Err(GraphIndexError::DuplicateSymbol)
    ));
}

#[test]
fn limit_reports_the_whole_count_and_what_was_cut() {
    let mut values = vec![1_u8, 2, 3];
    assert_eq!(limit(&mut values, 2), (3, true));
    assert_eq!(values, [1, 2]);
    assert_eq!(limit(&mut values, 2), (2, false));
    assert_eq!(normalized_project_path("src//a.rs"), "src/a.rs");
    assert_eq!(normalized_project_path("../a.rs"), "../a.rs");
}

fn selector_graph() -> CodeGraph {
    CodeGraph {
        symbols: vec![
            symbol(id("run"), "run", "src/a.rs", "fn run()", SymbolKind::Function),
            symbol(
                SymbolId::local("src/b.rs", "run"),
                "run",
                "src/b.rs",
                "struct run",
                SymbolKind::Struct,
            ),
        ],
        edges: vec![call(&id("run"), &id("outside"), 1)],
    }
}

#[test]
fn selectors_name_definitions_first_and_then_ends_of_relations() {
    let index = GraphIndex::from_graph(selector_graph()).unwrap();
    let text = |text: &str| Selector { text: text.into() };
    let resolve = |selector: &Selector, kind: Option<SymbolKind>, require_unique: bool| {
        resolve_selector(
            &index,
            SelectorRequest {
                selector,
                file: None,
                kind,
                require_unique,
                definitions_only: false,
            },
        )
    };
    let named = resolve(&text("run"), None, false).unwrap();
    assert_eq!(named.matched_count, 2);
    assert!(named.ambiguous);
    assert!(matches!(resolve(&text("run"), None, true), Err(CliError::Ambiguous)));
    let one = resolve(&text("run"), Some(SymbolKind::Struct), true).unwrap();
    assert_eq!(one.ids, [SymbolId::local("src/b.rs", "run")]);
    let displayed = resolve(&text(&id("run").to_scip_string()), None, true).unwrap();
    assert_eq!(displayed.ids, [id("run")]);
    let end = resolve(&text(&id("outside").to_scip_string()), None, true).unwrap();
    assert_eq!(end.ids, [id("outside")]);
    assert_eq!(end.symbols.map(|symbols| symbols.len()), Some(0));
    assert!(matches!(resolve(&text("missing"), None, false), Err(CliError::NoMatch)));
    let in_file = |selector: &Selector, file: &str| {
        resolve_selector(
            &index,
            SelectorRequest {
                selector,
                file: Some(file),
                kind: None,
                require_unique: true,
                definitions_only: false,
            },
        )
    };
    let one = in_file(&text("run"), "src//b.rs").unwrap();
    assert_eq!(one.ids, [SymbolId::local("src/b.rs", "run")]);
    assert_eq!((one.matched_count, one.ambiguous), (1, false));
    assert!(matches!(in_file(&text("run"), "src/c.rs"), Err(CliError::NoMatch)));
    let outside = text(&id("outside").to_scip_string());
    assert!(matches!(in_file(&outside, "src/a.rs"), Err(CliError::NoMatch)));
}

#[test]
fn plans_are_answered_under_their_own_name() {
    let index = GraphIndex::from_graph(selector_graph()).unwrap();
    let loaded = loaded(Freshness::Fresh);
    let deadline = Deadline::new(None);
    let context = context(&loaded, &index, &deadline, &NeverCancelled);
    let request = |command: CommandRequest| CliRequest {
        global: GlobalOptions::default(),
        command,
    };
    let answer = |request: &CliRequest| {
        answer_query(&context, execute(request), &Vec::new(), &Vec::new())
    };
    let selector = || Selector { text: id("run").to_scip_string() };
    let callees = request(CommandRequest::Callees {
        selector: selector(),
        file: None,
        kind: None,
        require_unique: true,
        role: None,
    });
    let Ok(CommandOutput::Callees(found)) = answer(&callees) else { panic!("callees") };
    assert_eq!(found.results[0].to, id("outside"));
    let definition = request(CommandRequest::Def {
        selector: selector(),
        file: Some("../a.rs".into()),
        kind: None,
        require_unique: true,
    });
    assert!(matches!(
        answer(&definition),
        Err(CliError::ProjectRelativePath { .. })
    ));
    let status = request(CommandRequest::Status);
    assert!(matches!(answer(&status), Err(CliError::Fatal(_))));
}
