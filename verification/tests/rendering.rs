//! What commands print, to the letter, and what bindings accept.

use code2graph::bindings::{
    custom_rules, graph_resolver, language_of, GraphResolver, QueryBindingRuleInput,
};
use code2graph::execution::output::{relation_text, render_human};
use code2graph::execution::types::CommandOutput;
use code2graph::graph::{Descriptor, SymbolId};
use code2graph::result::{
    ConfidenceOutput, ImpactOutput, IndexOutput, CacheCompletenessOutput, ModuleDependencyOutput,
    ModuleDependencyTargetOutput, OccurrenceOutput, OutputEnvelope, OutputStatus,
    PlanDecisionCountsOutput, ProvenanceOutput, RefRoleOutput, ReferenceOutput, RelationOutput,
    SymbolKindOutput, SymbolOutput,
};
use code2graph::config::ResolverTier;

fn id(name: &str) -> SymbolId {
    SymbolId::global("rust", vec![Descriptor::Term(name.into())])
}

fn relation() -> RelationOutput {
    RelationOutput {
        from: id("a"),
        to: id("b"),
        role: RefRoleOutput::Call,
        confidence: ConfidenceOutput::Scoped,
        provenance: ProvenanceOutput::ScopeGraph,
        occurrence: OccurrenceOutput { file: "src/a.rs".into(), line: 7, column: 3, byte: 40 },
    }
}

fn envelope<T>(results: T, returned: usize, total: usize) -> OutputEnvelope<T> {
    let mut envelope = OutputEnvelope::new(OutputStatus::Success, results);
    envelope.returned = returned;
    envelope.total = total;
    envelope.truncated = returned < total;
    envelope
}

const RELATION: &str =
    "src/a.rs:7:4 codegraph . . . a. -> codegraph . . . b. call [scoped/scope-graph]";

#[test]
fn relations_are_lines_with_columns_that_count_from_one() {
    assert_eq!(relation_text(&relation()), RELATION);
    let output = CommandOutput::Callers(envelope(vec![relation()], 1, 3));
    assert_eq!(
        render_human(&output),
        format!("{RELATION}\ntruncated: returned 1 of 3 results\n")
    );
    let mut last = relation();
    last.occurrence.column = u32::MAX;
    assert!(relation_text(&last).starts_with("src/a.rs:7:4294967295 "));
}

#[test]
fn definitions_are_lines_with_their_signatures() {
    let row = SymbolOutput {
        id: id("a"),
        id_display: "codegraph . . . a.".into(),
        name: "a".into(),
        kind: SymbolKindOutput::Function,
        file: "src/a.rs".into(),
        line: 2,
        signature: "fn a()".into(),
    };
    let output = CommandOutput::Symbols(envelope(vec![row], 1, 1));
    assert_eq!(render_human(&output), "src/a.rs:2  fn a()\n");
}

#[test]
fn impact_rows_name_the_seed_and_the_relation() {
    let row = ImpactOutput {
        seed: id("b"),
        symbol: id("a"),
        parent: id("b"),
        depth: 1,
        path_confidence: ConfidenceOutput::Scoped,
        via: relation(),
    };
    let mut rows = envelope(vec![row], 1, 1);
    rows.truncated = true;
    assert_eq!(
        render_human(&CommandOutput::Impact(rows)),
        format!(
            "seed codegraph . . . b. depth 1 codegraph . . . a. -> codegraph . . . b. via {RELATION}\ntruncated: traversal bound omitted reachable results\n"
        )
    );
}

#[test]
fn references_show_what_is_absent_as_a_hyphen() {
    let row = ReferenceOutput {
        name: "run".into(),
        role: RefRoleOutput::Import,
        occurrence: OccurrenceOutput { file: "src/a.rs".into(), line: 1, column: 0, byte: 0 },
        source_module: None,
        from_path: Some("crate::model".into()),
        qualifier: None,
        type_ref_context: None,
    };
    assert_eq!(
        render_human(&CommandOutput::References(envelope(vec![row], 1, 1))),
        "src/a.rs:1:1 run import qualifier=- from-path=crate::model\n"
    );
}

#[test]
fn module_dependencies_show_their_counts() {
    let rows = vec![
        ModuleDependencyOutput {
            source_file: "src/a.rs".into(),
            target: ModuleDependencyTargetOutput::File { file: "src/b.rs".into() },
            role: RefRoleOutput::Import,
            count: 1,
            evidence: vec![relation()],
        },
        ModuleDependencyOutput {
            source_file: "src/a.rs".into(),
            target: ModuleDependencyTargetOutput::External {
                id: id("x"),
                id_display: "codegraph . . . x.".into(),
            },
            role: RefRoleOutput::ModuleRef,
            count: 2,
            evidence: Vec::new(),
        },
    ];
    assert_eq!(
        render_human(&CommandOutput::ModuleDeps(envelope(rows, 2, 2))),
        "src/a.rs -> src/b.rs import count=1 evidence=1\nsrc/a.rs -> codegraph . . . x. module-ref count=2 evidence=0\n"
    );
}

#[test]
fn an_index_run_tells_what_changed() {
    let results = IndexOutput {
        snapshot: "00".into(),
        tier: ResolverTier::Scope,
        completeness: CacheCompletenessOutput::Partial,
        inventory_file_count: 4,
        inventory_total_bytes: 9,
        changed: 3,
        deleted: 1,
        ignored_omissions: 0,
        attempts: 1,
        decisions: PlanDecisionCountsOutput {
            need_hash: 0,
            reuse_facts: 1,
            extract: 3,
            remove: 1,
            omit: 0,
        },
    };
    assert_eq!(
        render_human(&CommandOutput::Index(envelope(results, 0, 0))),
        "indexed 4 files; 3 changed, 1 deleted; partial\n"
    );
}

#[test]
fn bindings_know_languages_rules_and_resolvers() {
    assert_eq!(language_of("src/a.rs").as_deref(), Some("rust"));
    assert_eq!(language_of("notes.txt"), None);
    let input = |lang: &str| QueryBindingRuleInput {
        lang: lang.into(),
        construct: "mydb::sql".into(),
        sql_arg: 2,
    };
    let rules = custom_rules(vec![input("rust")]).expect("known language");
    assert_eq!(rules[0].sql_arg, 2);
    assert_eq!(
        custom_rules(vec![input("rust"), input("klin\"gon")]),
        Err("unknown language tag \"klin\\\"gon\"".to_owned())
    );
    assert_eq!(graph_resolver(None), Ok(GraphResolver::Name));
    assert_eq!(graph_resolver(Some("scope")), Ok(GraphResolver::Scope));
    assert_eq!(
        graph_resolver(Some("dense")),
        Err("unknown tier \"dense\"; expected \"name\" or \"scope\"".to_owned())
    );
}
