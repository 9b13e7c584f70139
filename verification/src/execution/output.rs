//! Deterministic human rendering of command outputs.

use vstd::prelude::*;
use vstd::string::*;
use crate::commands::references::ReferenceRow;
use crate::execution::types::CommandOutput;
use crate::graph::{id_display, optional_text, OccurrenceView};
use crate::result::{
    CacheDisposition, ImpactOutput, ImpactView, ModuleDependencyOutput,
    ModuleDependencyTargetOutput, OccurrenceOutput, OutputEnvelope, ReferenceOutput,
    RelationOutput, RelationView, SymbolOutput, SymbolOutputView,
};
use crate::text::{decimal, push_decimal};

verus! {

/// The column as people count it: from one, as far as that fits.
pub open spec fn human_column(column: u32) -> nat {
    if column < u32::MAX {
        (column + 1) as nat
    } else {
        column as nat
    }
}

fn push_column(out: &mut String, column: u32)
    ensures
        final(out)@ == old(out)@ + decimal(human_column(column)),
{
    if column < u32::MAX {
        push_decimal(out, column as u64 + 1);
    } else {
        push_decimal(out, column as u64);
    }
}

/// Where something stands.
pub open spec fn place_text(occurrence: OccurrenceView) -> Seq<char> {
    occurrence.file + ":"@ + decimal(occurrence.line as nat) + ":"@ + decimal(
        human_column(occurrence.col),
    )
}

fn push_place(out: &mut String, occurrence: &OccurrenceOutput)
    ensures
        final(out)@ == old(out)@ + place_text(occurrence@),
{
    let ghost start = out@;
    out.append(occurrence.file.as_str());
    out.append(":");
    push_decimal(out, occurrence.line as u64);
    out.append(":");
    push_column(out, occurrence.column);
    assert(out@ =~= start + place_text(occurrence@));
}

/// A relation on one line.
pub open spec fn relation_line(r: RelationView) -> Seq<char> {
    place_text(r.occurrence) + " "@ + id_display(r.from) + " -> "@ + id_display(r.to) + " "@
        + r.role.spelling() + " ["@ + r.confidence.spelling() + "/"@ + r.provenance.spelling() + "]"@
}

fn push_relation(out: &mut String, r: &RelationOutput)
    ensures
        final(out)@ == old(out)@ + relation_line(r@),
{
    let ghost start = out@;
    push_place(out, &r.occurrence);
    out.append(" ");
    let from = r.from.to_scip_string();
    out.append(from.as_str());
    out.append(" -> ");
    let to = r.to.to_scip_string();
    out.append(to.as_str());
    out.append(" ");
    out.append(r.role.as_str());
    out.append(" [");
    out.append(r.confidence.as_str());
    out.append("/");
    out.append(r.provenance.as_str());
    out.append("]");
    assert(out@ =~= start + relation_line(r@));
}

/// A relation on one line.
pub fn relation_text(relation: &RelationOutput) -> (r: String)
    ensures
        r@ == relation_line(relation@),
{
    let mut out = String::new();
    push_relation(&mut out, relation);
    assert(out@ =~= relation_line(relation@));
    out
}

/// What is said of a result that was cut.
pub open spec fn truncation_text(truncated: bool, returned: usize, total: usize) -> Seq<char> {
    if truncated {
        "truncated: returned "@ + decimal(returned as nat) + " of "@ + decimal(total as nat)
            + " results\n"@
    } else {
        Seq::empty()
    }
}

fn push_truncation(out: &mut String, truncated: bool, returned: usize, total: usize)
    ensures
        final(out)@ == old(out)@ + truncation_text(truncated, returned, total),
{
    let ghost start = out@;
    if truncated {
        out.append("truncated: returned ");
        push_decimal(out, returned as u64);
        out.append(" of ");
        push_decimal(out, total as u64);
        out.append(" results\n");
    }
    assert(out@ =~= start + truncation_text(truncated, returned, total));
}

/// A definition on one line.
pub open spec fn symbol_line(s: SymbolOutputView) -> Seq<char> {
    s.file + ":"@ + decimal(s.line as nat) + "  "@ + s.signature + "\n"@
}

/// The lines of the first `n` definitions.
pub open spec fn symbol_lines(v: Seq<SymbolOutput>, n: int) -> Seq<char>
    decreases n,
{
    if n <= 0 {
        Seq::empty()
    } else {
        symbol_lines(v, n - 1) + symbol_line(v[n - 1]@)
    }
}

/// The rendering of definitions.
pub open spec fn symbols_text(e: OutputEnvelope<Vec<SymbolOutput>>) -> Seq<char> {
    symbol_lines(e.results@, e.results@.len() as int) + truncation_text(
        e.truncated,
        e.returned,
        e.total,
    )
}

fn render_symbols(envelope: &OutputEnvelope<Vec<SymbolOutput>>) -> (r: String)
    ensures
        r@ == symbols_text(*envelope),
{
    let rows = &envelope.results;
    let mut out = String::new();
    let mut i: usize = 0;
    assert(out@ =~= symbol_lines(rows@, 0));
    while i < rows.len()
        invariant
            i <= rows.len(),
            out@ == symbol_lines(rows@, i as int),
        decreases rows.len() - i,
    {
        let ghost start = out@;
        out.append(rows[i].file.as_str());
        out.append(":");
        push_decimal(&mut out, rows[i].line as u64);
        out.append("  ");
        out.append(rows[i].signature.as_str());
        out.append("\n");
        assert(out@ =~= start + symbol_line(rows@[i as int]@));
        i += 1;
    }
    push_truncation(&mut out, envelope.truncated, envelope.returned, envelope.total);
    out
}

/// The lines of the first `n` relations.
pub open spec fn relation_lines(v: Seq<RelationOutput>, n: int) -> Seq<char>
    decreases n,
{
    if n <= 0 {
        Seq::empty()
    } else {
        relation_lines(v, n - 1) + relation_line(v[n - 1]@) + "\n"@
    }
}

/// The rendering of relations.
pub open spec fn relations_text(e: OutputEnvelope<Vec<RelationOutput>>) -> Seq<char> {
    relation_lines(e.results@, e.results@.len() as int) + truncation_text(
        e.truncated,
        e.returned,
        e.total,
    )
}

fn render_relations(envelope: &OutputEnvelope<Vec<RelationOutput>>) -> (r: String)
    ensures
        r@ == relations_text(*envelope),
{
    let rows = &envelope.results;
    let mut out = String::new();
    let mut i: usize = 0;
    assert(out@ =~= relation_lines(rows@, 0));
    while i < rows.len()
        invariant
            i <= rows.len(),
            out@ == relation_lines(rows@, i as int),
        decreases rows.len() - i,
    {
        push_relation(&mut out, &rows[i]);
        out.append("\n");
        i += 1;
    }
    push_truncation(&mut out, envelope.truncated, envelope.returned, envelope.total);
    out
}

/// A text, or a dash where there is none.
pub open spec fn or_dash(s: Option<Seq<char>>) -> Seq<char> {
    match s {
        Some(text) => text,
        None => "-"@,
    }
}

fn push_or_dash(out: &mut String, s: &Option<String>)
    ensures
        final(out)@ == old(out)@ + or_dash(optional_text(*s)),
{
    match s {
        Some(text) => out.append(text.as_str()),
        None => out.append("-"),
    }
}

/// A reference on one line.
pub open spec fn reference_line(r: ReferenceRow) -> Seq<char> {
    place_text(r.occurrence) + " "@ + r.name + " "@ + r.role.spelling() + " qualifier="@ + or_dash(
        r.qualifier,
    ) + " from-path="@ + or_dash(r.from_path) + "\n"@
}

/// The lines of the first `n` references.
pub open spec fn reference_lines(v: Seq<ReferenceOutput>, n: int) -> Seq<char>
    decreases n,
{
    if n <= 0 {
        Seq::empty()
    } else {
        reference_lines(v, n - 1) + reference_line(v[n - 1]@)
    }
}

/// The rendering of references.
pub open spec fn references_text(e: OutputEnvelope<Vec<ReferenceOutput>>) -> Seq<char> {
    reference_lines(e.results@, e.results@.len() as int) + truncation_text(
        e.truncated,
        e.returned,
        e.total,
    )
}

fn push_reference(out: &mut String, row: &ReferenceOutput)
    ensures
        final(out)@ == old(out)@ + reference_line(row@),
{
    let ghost start = out@;
    push_place(out, &row.occurrence);
    out.append(" ");
    out.append(row.name.as_str());
    out.append(" ");
    out.append(row.role.as_str());
    let ghost head = place_text(row@.occurrence) + " "@ + row@.name + " "@ + row@.role.spelling();
    assert(out@ =~= start + head);
    out.append(" qualifier=");
    push_or_dash(out, &row.qualifier);
    out.append(" from-path=");
    push_or_dash(out, &row.from_path);
    out.append("\n");
    assert(out@ =~= start + (head + " qualifier="@ + or_dash(row@.qualifier) + " from-path="@
        + or_dash(row@.from_path) + "\n"@));
}

fn render_references(envelope: &OutputEnvelope<Vec<ReferenceOutput>>) -> (r: String)
    ensures
        r@ == references_text(*envelope),
{
    let rows = &envelope.results;
    let mut out = String::new();
    let mut i: usize = 0;
    assert(out@ =~= reference_lines(rows@, 0));
    while i < rows.len()
        invariant
            i <= rows.len(),
            out@ == reference_lines(rows@, i as int),
        decreases rows.len() - i,
    {
        push_reference(&mut out, &rows[i]);
        i += 1;
    }
    push_truncation(&mut out, envelope.truncated, envelope.returned, envelope.total);
    out
}

/// What a dependency leads to.
pub open spec fn target_text(t: ModuleDependencyTargetOutput) -> Seq<char> {
    match t {
        ModuleDependencyTargetOutput::File { file } => file@,
        ModuleDependencyTargetOutput::External { id_display, .. } => id_display@,
    }
}

/// A dependency on one line.
pub open spec fn dependency_line(d: ModuleDependencyOutput) -> Seq<char> {
    d.source_file@ + " -> "@ + target_text(d.target) + " "@ + d.role.spelling() + " count="@
        + decimal(d.count as nat) + " evidence="@ + decimal(d.evidence@.len()) + "\n"@
}

/// The lines of the first `n` dependencies.
pub open spec fn dependency_lines(v: Seq<ModuleDependencyOutput>, n: int) -> Seq<char>
    decreases n,
{
    if n <= 0 {
        Seq::empty()
    } else {
        dependency_lines(v, n - 1) + dependency_line(v[n - 1])
    }
}

/// The rendering of dependencies.
pub open spec fn dependencies_text(e: OutputEnvelope<Vec<ModuleDependencyOutput>>) -> Seq<char> {
    dependency_lines(e.results@, e.results@.len() as int) + truncation_text(
        e.truncated,
        e.returned,
        e.total,
    )
}

fn push_dependency(out: &mut String, row: &ModuleDependencyOutput)
    ensures
        final(out)@ == old(out)@ + dependency_line(*row),
{
    let ghost start = out@;
    out.append(row.source_file.as_str());
    out.append(" -> ");
    match &row.target {
        ModuleDependencyTargetOutput::File { file } => out.append(file.as_str()),
        ModuleDependencyTargetOutput::External { id_display, .. } => out.append(
            id_display.as_str(),
        ),
    }
    out.append(" ");
    out.append(row.role.as_str());
    let ghost head = row.source_file@ + " -> "@ + target_text(row.target) + " "@
        + row.role.spelling();
    assert(out@ =~= start + head);
    out.append(" count=");
    push_decimal(out, row.count as u64);
    out.append(" evidence=");
    push_decimal(out, row.evidence.len() as u64);
    out.append("\n");
    assert(out@ =~= start + (head + " count="@ + decimal(row.count as nat) + " evidence="@
        + decimal(row.evidence@.len()) + "\n"@));
}

fn render_module_deps(envelope: &OutputEnvelope<Vec<ModuleDependencyOutput>>) -> (r: String)
    ensures
        r@ == dependencies_text(*envelope),
{
    let rows = &envelope.results;
    let mut out = String::new();
    let mut i: usize = 0;
    assert(out@ =~= dependency_lines(rows@, 0));
    while i < rows.len()
        invariant
            i <= rows.len(),
            out@ == dependency_lines(rows@, i as int),
        decreases rows.len() - i,
    {
        push_dependency(&mut out, &rows[i]);
        i += 1;
    }
    push_truncation(&mut out, envelope.truncated, envelope.returned, envelope.total);
    out
}

/// A row of an impact query on one line.
pub open spec fn impact_line(v: ImpactView) -> Seq<char> {
    "seed "@ + id_display(v.seed) + " depth "@ + decimal(v.depth as nat) + " "@ + id_display(
        v.symbol,
    ) + " -> "@ + id_display(v.parent) + " via "@ + relation_line(v.via) + "\n"@
}

/// The lines of the first `n` rows.
pub open spec fn impact_lines(v: Seq<ImpactOutput>, n: int) -> Seq<char>
    decreases n,
{
    if n <= 0 {
        Seq::empty()
    } else {
        impact_lines(v, n - 1) + impact_line(v[n - 1]@)
    }
}

/// The rendering of an impact query.
pub open spec fn impact_text(e: OutputEnvelope<Vec<ImpactOutput>>) -> Seq<char> {
    impact_lines(e.results@, e.results@.len() as int) + if e.truncated {
        "truncated: traversal bound omitted reachable results\n"@
    } else {
        Seq::empty()
    }
}

fn push_impact(out: &mut String, row: &ImpactOutput)
    ensures
        final(out)@ == old(out)@ + impact_line(row@),
{
    let ghost start = out@;
    out.append("seed ");
    let seed = row.seed.to_scip_string();
    out.append(seed.as_str());
    out.append(" depth ");
    push_decimal(out, row.depth as u64);
    out.append(" ");
    let ghost head = "seed "@ + id_display(row@.seed) + " depth "@ + decimal(row@.depth as nat)
        + " "@;
    assert(out@ =~= start + head);
    let symbol = row.symbol.to_scip_string();
    out.append(symbol.as_str());
    out.append(" -> ");
    let parent = row.parent.to_scip_string();
    out.append(parent.as_str());
    out.append(" via ");
    push_relation(out, &row.via);
    out.append("\n");
    assert(out@ =~= start + (head + id_display(row@.symbol) + " -> "@ + id_display(row@.parent)
        + " via "@ + relation_line(row@.via) + "\n"@));
}

fn render_impact(envelope: &OutputEnvelope<Vec<ImpactOutput>>) -> (r: String)
    ensures
        r@ == impact_text(*envelope),
{
    let rows = &envelope.results;
    let mut out = String::new();
    let mut i: usize = 0;
    assert(out@ =~= impact_lines(rows@, 0));
    while i < rows.len()
        invariant
            i <= rows.len(),
            out@ == impact_lines(rows@, i as int),
        decreases rows.len() - i,
    {
        push_impact(&mut out, &rows[i]);
        i += 1;
    }
    let ghost start = out@;
    if envelope.truncated {
        out.append("truncated: traversal bound omitted reachable results\n");
    }
    assert(out@ =~= impact_text(*envelope));
    out
}

/// How the cache took part, for people.
pub open spec fn cache_words(value: CacheDisposition) -> Seq<char> {
    match value {
        CacheDisposition::Hit => "cache hit"@,
        CacheDisposition::Miss => "cache miss"@,
        CacheDisposition::Disabled => "cache disabled"@,
    }
}

fn cache(value: CacheDisposition) -> (r: &'static str)
    ensures
        r@ == cache_words(value),
{
    match value {
        CacheDisposition::Hit => "cache hit",
        CacheDisposition::Miss => "cache miss",
        CacheDisposition::Disabled => "cache disabled",
    }
}

/// The rendering of a command's output for people.
pub open spec fn rendered(output: CommandOutput) -> Seq<char> {
    match output {
        CommandOutput::Index(e) => "indexed "@ + decimal(e.results.inventory_file_count as nat)
            + " files; "@ + decimal(e.results.changed as nat) + " changed, "@ + decimal(
            e.results.deleted as nat,
        ) + " deleted; "@ + e.results.completeness.spelling() + "\n"@,
        CommandOutput::Status(e) => e.results.project.freshness.spelling() + ": "@ + decimal(
            e.results.inventory.admitted_files as nat,
        ) + " files; "@ + cache_words(e.results.project.cache) + "\n"@,
        CommandOutput::Symbols(e) => symbols_text(e),
        CommandOutput::Def(e) => symbols_text(e),
        CommandOutput::Callers(e) => relations_text(e),
        CommandOutput::Callees(e) => relations_text(e),
        CommandOutput::Usages(e) => relations_text(e),
        CommandOutput::Imports(e) => relations_text(e),
        CommandOutput::References(e) => references_text(e),
        CommandOutput::ModuleDeps(e) => dependencies_text(e),
        CommandOutput::Impact(e) => impact_text(e),
        CommandOutput::LoadedGraph(g) => "loaded "@ + decimal(g.graph.symbols@.len())
            + " symbols and "@ + decimal(g.graph.edges@.len()) + " edges\n"@,
    }
}

/// Renders concise output for people, without debug or JSON representations.
pub fn render_human(output: &CommandOutput) -> (r: String)
    ensures
        r@ == rendered(*output),
{
    match output {
        CommandOutput::Index(envelope) => {
            let mut out: String = "indexed ".to_owned();
            push_decimal(&mut out, envelope.results.inventory_file_count);
            out.append(" files; ");
            push_decimal(&mut out, envelope.results.changed as u64);
            out.append(" changed, ");
            push_decimal(&mut out, envelope.results.deleted as u64);
            out.append(" deleted; ");
            out.append(envelope.results.completeness.as_str());
            out.append("\n");
            assert(out@ =~= rendered(*output));
            out
        },
        CommandOutput::Status(envelope) => {
            let mut out: String = envelope.results.project.freshness.as_str().to_owned();
            out.append(": ");
            push_decimal(&mut out, envelope.results.inventory.admitted_files);
            out.append(" files; ");
            out.append(cache(envelope.results.project.cache));
            out.append("\n");
            assert(out@ =~= rendered(*output));
            out
        },
        CommandOutput::Symbols(envelope) => render_symbols(envelope),
        CommandOutput::Def(envelope) => render_symbols(envelope),
        CommandOutput::Callers(envelope) => render_relations(envelope),
        CommandOutput::Callees(envelope) => render_relations(envelope),
        CommandOutput::Usages(envelope) => render_relations(envelope),
        CommandOutput::Imports(envelope) => render_relations(envelope),
        CommandOutput::References(envelope) => render_references(envelope),
        CommandOutput::ModuleDeps(envelope) => render_module_deps(envelope),
        CommandOutput::Impact(envelope) => render_impact(envelope),
        CommandOutput::LoadedGraph(graph) => {
            let mut out: String = "loaded ".to_owned();
            push_decimal(&mut out, graph.graph.symbols.len() as u64);
            out.append(" symbols and ");
            push_decimal(&mut out, graph.graph.edges.len() as u64);
            out.append(" edges\n");
            assert(out@ =~= rendered(*output));
            out
        },
    }
}

} // verus!
