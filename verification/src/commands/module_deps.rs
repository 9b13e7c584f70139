//! Whole-project aggregation of resolved module dependencies.

use vstd::prelude::*;
use vstd::string::*;
use crate::cache::rows::keys_ascend;
use crate::commands::imports::{is_module_role, lemma_filter_twice};
use crate::commands::references::role_place;
use crate::commands::relations::{
    input_order_does_not_matter, relation_output, relation_row, relation_rows, rows_of,
};
use crate::commands::shared::{
    counts_told, first_rows, is_query_envelope, limit, normalized, normalized_project_path,
    query_envelope, QueryCommandContext,
};
use crate::deadline::{failure_of, Cancellation};
use crate::error::CliError;
use crate::graph::{
    id_display, id_key, push_id_key, Confidence, Edge, EdgeView, IdView, RefRole, SymbolView,
};
use crate::ordering::{
    is_stable_sort, key_le, key_less, key_lt, key_order_is_total, key_order_is_transitive,
    reversed, stable_sort, strictly_sorted_by_key, with_key, Keyed,
};
use crate::query::index::{
    definition_of, definitions_are_determined, edge_covered, edges_seen, EdgeFilter, EdgeScope,
    EdgeScopeView, GraphRead,
};
use crate::query::pages::collect_edges;
use crate::result::{
    ref_role_shown, ModuleDependencyOutput, ModuleDependencyTargetOutput, OutputEnvelope,
    RefRoleOutput, RelationOutput, RelationView,
};
use crate::text::{push_text_key, text_key};

verus! {

/// What a query for module dependencies asks for.
#[derive(Debug, Clone, Copy)]
pub struct ModuleDepsCommandRequest {
    pub result_limit: usize,
    pub min_confidence: Confidence,
}

/// What a dependency leads to.
pub enum TargetView {
    /// The file of the definition.
    File(Seq<char>),
    /// A symbol without a definition.
    External(IdView),
}

/// What dependencies are aggregated by.
pub struct GroupView {
    pub source_file: Seq<char>,
    pub target: TargetView,
    pub role: RefRoleOutput,
}

/// The key that orders the aggregation: by source, then by target, files before
/// symbols without a definition, then by role.
pub open spec fn group_key(g: GroupView) -> Seq<u64> {
    text_key(g.source_file) + (target_key(g.target) + seq![role_place(g.role)])
}

/// The key of a target.
pub open spec fn target_key(t: TargetView) -> Seq<u64> {
    match t {
        TargetView::File(file) => seq![0u64] + text_key(file),
        TargetView::External(id) => seq![1u64] + id_key(id),
    }
}

/// What a dependency on the symbol leads to.
pub open spec fn target_of(definitions: Seq<SymbolView>, id: IdView) -> TargetView {
    match definition_of(definitions, id) {
        Some(s) => TargetView::File(normalized(s.file)),
        None => TargetView::External(id),
    }
}

/// What a dependency is aggregated by.
pub open spec fn group_of(definitions: Seq<SymbolView>, e: EdgeView) -> GroupView {
    GroupView {
        source_file: normalized(e.occ.file),
        target: target_of(definitions, e.to),
        role: ref_role_shown(e.role),
    }
}

/// The relations that are dependencies, in the order of their keys.
pub open spec fn dependencies(relations: Seq<EdgeView>, min_confidence: Confidence) -> Seq<
    EdgeView,
> {
    relations.filter(
        |e: EdgeView| is_module_role(e.role) && e.confidence.rank() >= min_confidence.rank(),
    )
}

/// The texts and values of an aggregation row.
pub struct DependencyRow {
    pub group: GroupView,
    pub external_display: Option<Seq<char>>,
    pub count: int,
    pub evidence: Seq<RelationView>,
}

impl ModuleDependencyOutput {
    /// The texts and values.
    pub open spec fn view(self) -> DependencyRow {
        DependencyRow {
            group: GroupView {
                source_file: self.source_file@,
                target: match self.target {
                    ModuleDependencyTargetOutput::File { file } => TargetView::File(file@),
                    ModuleDependencyTargetOutput::External { id, .. } => TargetView::External(id@),
                },
                role: self.role,
            },
            external_display: match self.target {
                ModuleDependencyTargetOutput::File { .. } => None,
                ModuleDependencyTargetOutput::External { id_display, .. } => Some(id_display@),
            },
            count: self.count as int,
            evidence: relation_rows(self.evidence@),
        }
    }
}

/// The dependencies with the key of a group.
pub open spec fn members(
    definitions: Seq<SymbolView>,
    edges: Seq<EdgeView>,
    key: Seq<u64>,
) -> Seq<EdgeView> {
    edges.filter(|e: EdgeView| group_key(group_of(definitions, e)) == key)
}

/// The row holds all dependencies of its group, in the order of their keys.
pub open spec fn is_dependency_row(
    definitions: Seq<SymbolView>,
    edges: Seq<EdgeView>,
    row: DependencyRow,
) -> bool {
    let own = members(definitions, edges, group_key(row.group));
    &&& own.len() > 0
    &&& row.group == group_of(definitions, own[0])
    &&& row.external_display == match row.group.target {
        TargetView::File(_) => None,
        TargetView::External(id) => Some(id_display(id)),
    }
    &&& row.count == own.len()
    &&& row.evidence == rows_of(own)
}

/// The rows of a list.
pub open spec fn dependency_rows(v: Seq<ModuleDependencyOutput>) -> Seq<DependencyRow> {
    v.map_values(|d: ModuleDependencyOutput| d@)
}

/// The keys of the rows.
pub open spec fn row_keys(rows: Seq<DependencyRow>) -> Seq<Seq<u64>> {
    rows.map_values(|r: DependencyRow| group_key(r.group))
}

/// The rows are the aggregation of the dependencies: one for each group, in the order
/// of the groups, and none without evidence.
pub open spec fn is_aggregation(
    definitions: Seq<SymbolView>,
    edges: Seq<EdgeView>,
    rows: Seq<DependencyRow>,
) -> bool {
    &&& keys_ascend(row_keys(rows))
    &&& forall|k: int|
        0 <= k < rows.len() ==> is_dependency_row(definitions, edges, #[trigger] rows[k])
    &&& forall|i: int|
        0 <= i < edges.len() ==> row_keys(rows).contains(
            group_key(group_of(definitions, #[trigger] edges[i])),
        )
}

/// A dependency with what it is aggregated by.
struct Dependency {
    source_file: String,
    target: ModuleDependencyTargetOutput,
    role: RefRoleOutput,
    evidence: RelationOutput,
    ghost_edge: Ghost<EdgeView>,
}

impl Dependency {
    spec fn group(self) -> GroupView {
        GroupView {
            source_file: self.source_file@,
            target: match self.target {
                ModuleDependencyTargetOutput::File { file } => TargetView::File(file@),
                ModuleDependencyTargetOutput::External { id, .. } => TargetView::External(id@),
            },
            role: self.role,
        }
    }

    spec fn edge(self) -> EdgeView {
        self.ghost_edge@
    }

    spec fn is_of(self, definitions: Seq<SymbolView>) -> bool {
        &&& self.group() == group_of(definitions, self.edge())
        &&& self.evidence@ == relation_row(self.edge())
        &&& self.target matches ModuleDependencyTargetOutput::External { id, id_display: shown }
            ==> shown@ == id_display(id@)
    }
}

impl Keyed for Dependency {
    closed spec fn key(&self) -> Seq<u64> {
        group_key(self.group())
    }

    fn sort_key(&self) -> (k: Vec<u64>) {
        let mut k: Vec<u64> = Vec::new();
        push_text_key(&mut k, self.source_file.as_str());
        match &self.target {
            ModuleDependencyTargetOutput::File { file } => {
                k.push(0);
                push_text_key(&mut k, file.as_str());
            },
            ModuleDependencyTargetOutput::External { id, .. } => {
                k.push(1);
                push_id_key(&mut k, id);
            },
        }
        k.push(
            match self.role {
                RefRoleOutput::Call => 0,
                RefRoleOutput::IsImplementation => 1,
                RefRoleOutput::Import => 2,
                RefRoleOutput::ModuleRef => 3,
                RefRoleOutput::TypeRef => 4,
                RefRoleOutput::Read => 5,
                RefRoleOutput::Write => 6,
            },
        );
        assert(k@ =~= self.key());
        k
    }
}

spec fn edges_in(v: Seq<Dependency>) -> Seq<EdgeView> {
    v.map_values(|d: Dependency| d.edge())
}

spec fn all_of(v: Seq<Dependency>, definitions: Seq<SymbolView>) -> bool {
    forall|i: int| 0 <= i < v.len() ==> (#[trigger] v[i]).is_of(definitions)
}

proof fn lemma_members(v: Seq<Dependency>, definitions: Seq<SymbolView>, k: Seq<u64>)
    requires
        all_of(v, definitions),
    ensures
        edges_in(with_key(v, k)) == members(definitions, edges_in(v), k),
    decreases v.len(),
{
    reveal(Seq::filter);
    let p = |e: EdgeView| group_key(group_of(definitions, e)) == k;
    assert(members(definitions, edges_in(v), k) == edges_in(v).filter(p));
    if v.len() > 0 {
        let rest = v.drop_last();
        assert(all_of(rest, definitions)) by {
            assert forall|i: int| 0 <= i < rest.len() implies (#[trigger] rest[i]).is_of(
                definitions,
            ) by {
                assert(rest[i] == v[i]);
            }
        }
        lemma_members(rest, definitions, k);
        assert(edges_in(v).drop_last() =~= edges_in(rest));
        assert(edges_in(v).last() == v.last().edge());
        assert(v[v.len() - 1].is_of(definitions));
        if v.last().key() == k {
            assert(edges_in(with_key(rest, k).push(v.last())) =~= edges_in(
                with_key(rest, k),
            ).push(v.last().edge()));
        }
    } else {
        assert(edges_in(with_key(v, k)) =~= edges_in(v).filter(p));
    }
}

/// The sorted dependencies are those of the input, in the order of their groups.
#[verifier::opaque]
spec fn is_sorting(definitions: Seq<SymbolView>, input: Seq<Dependency>, v: Seq<Dependency>) -> bool {
    is_stable_sort(input, v) && all_of(input, definitions) && all_of(v, definitions)
}

proof fn lemma_entry(
    definitions: Seq<SymbolView>,
    input: Seq<Dependency>,
    v: Seq<Dependency>,
    i: int,
)
    requires
        is_sorting(definitions, input, v),
        0 <= i < v.len(),
    ensures
        v[i].is_of(definitions),
{
    reveal(is_sorting);
}

proof fn lemma_entries_ascend(
    definitions: Seq<SymbolView>,
    input: Seq<Dependency>,
    v: Seq<Dependency>,
    i: int,
    j: int,
)
    requires
        is_sorting(definitions, input, v),
        0 <= i <= j < v.len(),
    ensures
        key_lt(v[i].key(), v[j].key()) || v[i].key() == v[j].key(),
{
    reveal(is_sorting);
    key_order_is_total(v[i].key(), v[j].key());
    if i < j {
        assert(key_le(v[i].key(), v[j].key()));
    }
}

proof fn lemma_entries_of_key(
    definitions: Seq<SymbolView>,
    input: Seq<Dependency>,
    v: Seq<Dependency>,
    k: Seq<u64>,
)
    requires
        is_sorting(definitions, input, v),
    ensures
        edges_in(with_key(v, k)) == members(definitions, edges_in(input), k),
{
    reveal(is_sorting);
    assert(with_key(v, k) == with_key(input, k));
    lemma_members(input, definitions, k);
}

proof fn lemma_outside_run(
    definitions: Seq<SymbolView>,
    input: Seq<Dependency>,
    v: Seq<Dependency>,
    a: int,
    b: int,
    i: int,
)
    requires
        is_sorting(definitions, input, v),
        0 <= a < b <= v.len(),
        a > 0 ==> v[a - 1].key() != v[a].key(),
        b < v.len() ==> v[b].key() != v[a].key(),
        0 <= i < a || b <= i < v.len(),
    ensures
        v[i].key() != v[a].key(),
{
    let k = v[a].key();
    if v[i].key() == k {
        if i < a {
            lemma_entries_ascend(definitions, input, v, i, a - 1);
            lemma_entries_ascend(definitions, input, v, a - 1, a);
            key_order_is_total(v[a - 1].key(), k);
        } else {
            lemma_entries_ascend(definitions, input, v, a, b);
            lemma_entries_ascend(definitions, input, v, b, i);
            key_order_is_total(v[b].key(), k);
        }
    }
}

proof fn lemma_middle(v: Seq<Dependency>, a: int, b: int, k: Seq<u64>)
    requires
        0 <= a <= b <= v.len(),
        forall|i: int| 0 <= i < a ==> (#[trigger] v[i]).key() != k,
        forall|i: int| a <= i < b ==> (#[trigger] v[i]).key() == k,
        forall|i: int| b <= i < v.len() ==> (#[trigger] v[i]).key() != k,
    ensures
        with_key(v, k) == v.subrange(a, b),
    decreases v.len(),
{
    reveal(Seq::filter);
    if v.len() == 0 {
        assert(with_key(v, k) =~= v.subrange(a, b));
    } else {
        let rest = v.drop_last();
        assert forall|i: int| 0 <= i < rest.len() implies #[trigger] rest[i] == v[i] by {}
        let last = v[v.len() - 1];
        if b < v.len() {
            lemma_middle(rest, a, b, k);
            assert(rest.subrange(a, b) =~= v.subrange(a, b));
        } else if a < b {
            lemma_middle(rest, a, b - 1, k);
            assert(rest.subrange(a, b - 1).push(last) =~= v.subrange(a, b));
        } else {
            lemma_middle(rest, a - 1, b - 1, k);
            assert(rest.subrange(a - 1, b - 1) =~= v.subrange(a, b));
        }
    }
}

proof fn lemma_run(
    definitions: Seq<SymbolView>,
    input: Seq<Dependency>,
    v: Seq<Dependency>,
    a: int,
    b: int,
)
    requires
        is_sorting(definitions, input, v),
        0 <= a < b <= v.len(),
        forall|i: int| a <= i < b ==> (#[trigger] v[i]).key() == v[a].key(),
        a > 0 ==> v[a - 1].key() != v[a].key(),
        b < v.len() ==> v[b].key() != v[a].key(),
    ensures
        with_key(v, v[a].key()) == v.subrange(a, b),
{
    let k = v[a].key();
    assert forall|i: int| 0 <= i < a implies (#[trigger] v[i]).key() != k by {
        lemma_outside_run(definitions, input, v, a, b, i);
    }
    assert forall|i: int| b <= i < v.len() implies (#[trigger] v[i]).key() != k by {
        lemma_outside_run(definitions, input, v, a, b, i);
    }
    lemma_middle(v, a, b, k);
}

/// The rows of the groups of the first `a` sorted dependencies.
#[verifier::opaque]
spec fn aggregated(
    definitions: Seq<SymbolView>,
    edges: Seq<EdgeView>,
    v: Seq<Dependency>,
    a: int,
    rows: Seq<DependencyRow>,
) -> bool {
    &&& keys_ascend(row_keys(rows))
    &&& forall|k: int|
        0 <= k < rows.len() ==> is_dependency_row(definitions, edges, #[trigger] rows[k])
    &&& forall|i: int| 0 <= i < a ==> row_keys(rows).contains((#[trigger] v[i]).key())
    &&& (a == 0 <==> rows.len() == 0)
    &&& a > 0 ==> group_key(rows.last().group) == v[a - 1].key()
}

/// What is collected of the group of a run.
spec fn is_run_row(v: Seq<Dependency>, a: int, b: int, row: DependencyRow) -> bool {
    &&& row.group == v[a].group()
    &&& row.external_display == match row.group.target {
        TargetView::File(_) => None,
        TargetView::External(id) => Some(id_display(id)),
    }
    &&& row.count == b - a
    &&& row.evidence == v.subrange(a, b).map_values(|d: Dependency| d.evidence@)
}

proof fn lemma_run_is_row(
    definitions: Seq<SymbolView>,
    input: Seq<Dependency>,
    v: Seq<Dependency>,
    a: int,
    b: int,
    row: DependencyRow,
)
    requires
        is_sorting(definitions, input, v),
        0 <= a < b <= v.len(),
        forall|i: int| a <= i < b ==> (#[trigger] v[i]).key() == v[a].key(),
        a > 0 ==> v[a - 1].key() != v[a].key(),
        b < v.len() ==> v[b].key() != v[a].key(),
        is_run_row(v, a, b, row),
    ensures
        is_dependency_row(definitions, edges_in(input), row),
        group_key(row.group) == v[a].key(),
{
    let k = v[a].key();
    let run = v.subrange(a, b);
    lemma_run(definitions, input, v, a, b);
    lemma_entries_of_key(definitions, input, v, k);
    let own = members(definitions, edges_in(input), k);
    assert(own == edges_in(run));
    assert(group_key(row.group) == k);
    assert(own[0] == run[0].edge());
    lemma_entry(definitions, input, v, a);
    assert(row.evidence =~= rows_of(own)) by {
        assert forall|i: int| 0 <= i < run.len() implies #[trigger] row.evidence[i] == rows_of(
            own,
        )[i] by {
            lemma_entry(definitions, input, v, a + i);
            assert(run[i] == v[a + i]);
            assert(own[i] == run[i].edge());
        }
    }
}

proof fn lemma_finish_row(
    definitions: Seq<SymbolView>,
    input: Seq<Dependency>,
    v: Seq<Dependency>,
    a: int,
    b: int,
    rows: Seq<DependencyRow>,
    row: DependencyRow,
)
    requires
        is_sorting(definitions, input, v),
        aggregated(definitions, edges_in(input), v, a, rows),
        0 <= a < b <= v.len(),
        forall|i: int| a <= i < b ==> (#[trigger] v[i]).key() == v[a].key(),
        a > 0 ==> v[a - 1].key() != v[a].key(),
        b < v.len() ==> v[b].key() != v[a].key(),
        is_run_row(v, a, b, row),
    ensures
        aggregated(definitions, edges_in(input), v, b, rows.push(row)),
{
    let k = v[a].key();
    let edges = edges_in(input);
    lemma_run_is_row(definitions, input, v, a, b, row);
    if a > 0 {
        lemma_entries_ascend(definitions, input, v, a - 1, a);
    }
    reveal(aggregated);
    let more = rows.push(row);
    let keys = row_keys(more);
    assert(keys =~= row_keys(rows).push(k));
    assert(keys_ascend(keys)) by {
        assert forall|i: int, j: int| 0 <= i < j < keys.len() implies key_lt(
            #[trigger] keys[i],
            #[trigger] keys[j],
        ) by {
            if j < rows.len() {
                assert(key_lt(row_keys(rows)[i], row_keys(rows)[j]));
            } else {
                let l = rows.len() - 1;
                assert(row_keys(rows)[l] == v[a - 1].key());
                if i < l {
                    assert(key_lt(row_keys(rows)[i], row_keys(rows)[l]));
                    key_order_is_transitive(keys[i], row_keys(rows)[l], k);
                }
            }
        }
    }
    assert forall|i: int| 0 <= i < b implies keys.contains((#[trigger] v[i]).key()) by {
        if i < a {
            let m = choose|m: int|
                0 <= m < row_keys(rows).len() && row_keys(rows)[m] == v[i].key();
            assert(keys[m] == v[i].key());
        } else {
            assert(keys[rows.len() as int] == v[i].key());
        }
    }
    assert forall|n: int| 0 <= n < more.len() implies is_dependency_row(
        definitions,
        edges,
        #[trigger] more[n],
    ) by {
        if n < rows.len() {
            assert(more[n] == rows[n]);
        }
    }
}

/// Aggregates sorted dependencies, group after group.
fn group_rows(
    Ghost(definitions): Ghost<Seq<SymbolView>>,
    Ghost(input): Ghost<Seq<Dependency>>,
    sorted: Vec<Dependency>,
) -> (r: Vec<ModuleDependencyOutput>)
    requires
        is_sorting(definitions, input, sorted@),
    ensures
        aggregated(
            definitions,
            edges_in(input),
            sorted@,
            sorted@.len() as int,
            dependency_rows(r@),
        ),
{
    let ghost v = sorted@;
    let count = sorted.len();
    let mut rest = reversed(sorted);
    let mut rows: Vec<ModuleDependencyOutput> = Vec::new();
    let mut current: Option<(Vec<u64>, ModuleDependencyOutput)> = None;
    let mut i: usize = 0;
    let ghost mut a: int = 0;
    proof {
        reveal(aggregated);
        assert(dependency_rows(rows@) =~= Seq::empty());
        assert(row_keys(dependency_rows(rows@)) =~= Seq::empty());
    }
    while i < count
        invariant
            0 <= a <= i <= count,
            count == v.len(),
            v == sorted@,
            is_sorting(definitions, input, v),
            rest@ == v.skip(i as int).reverse(),
            aggregated(definitions, edges_in(input), v, a, dependency_rows(rows@)),
            i > 0 ==> a < i,
            current is Some <==> i > 0,
            current matches Some(c) ==> c.0@ == v[a].key() && is_run_row(v, a, i as int, c.1@),
            forall|j: int| a <= j < i ==> (#[trigger] v[j]).key() == v[a].key(),
            i > 0 && a > 0 ==> v[a - 1].key() != v[a].key(),
        decreases count - i,
    {
        let dependency = match rest.pop() {
            Some(d) => d,
            None => {
                assert(false);
                return rows;
            },
        };
        proof {
            assert(dependency == v[i as int]);
            assert(rest@ =~= v.skip(i + 1).reverse());
            lemma_entry(definitions, input, v, i as int);
        }
        let key = dependency.sort_key();
        let ghost seen = dependency;
        match current {
            Some((run_key, mut row)) => {
                if key_less(&run_key, &key) || key_less(&key, &run_key) {
                    proof {
                        key_order_is_total(run_key@, key@);
                        lemma_finish_row(
                            definitions,
                            input,
                            v,
                            a,
                            i as int,
                            dependency_rows(rows@),
                            row@,
                        );
                    }
                    let ghost before = rows@;
                    let ghost done = row@;
                    rows.push(row);
                    proof {
                        assert(dependency_rows(rows@) =~= dependency_rows(before).push(done));
                        a = i as int;
                    }
                    current = Some((key, begin_row(dependency)));
                    proof {
                        assert(v.subrange(a, i + 1) =~= seq![seen]);
                        assert(v.subrange(a, i + 1).map_values(
                            |d: Dependency| d.evidence@,
                        ) =~= seq![seen.evidence@]);
                    }
                } else {
                    proof {
                        key_order_is_total(run_key@, key@);
                        assert(v.subrange(a, i + 1) =~= v.subrange(a, i as int).push(seen));
                        assert(v.subrange(a, i + 1).map_values(
                            |d: Dependency| d.evidence@,
                        ) =~= v.subrange(a, i as int).map_values(
                            |d: Dependency| d.evidence@,
                        ).push(seen.evidence@));
                    }
                    let ghost before = row.evidence@;
                    row.evidence.push(dependency.evidence);
                    row.count = row.evidence.len();
                    proof {
                        assert(relation_rows(before).len() == before.len());
                        assert(relation_rows(row.evidence@) =~= relation_rows(before).push(
                            seen.evidence@,
                        ));
                    }
                    current = Some((run_key, row));
                }
            },
            None => {
                current = Some((key, begin_row(dependency)));
                proof {
                    assert(v.subrange(a, i + 1) =~= seq![seen]);
                    assert(v.subrange(a, i + 1).map_values(|d: Dependency| d.evidence@) =~= seq![
                        seen.evidence@,
                    ]);
                }
            },
        }
        i += 1;
    }
    match current {
        Some((_, row)) => {
            proof {
                lemma_finish_row(
                    definitions,
                    input,
                    v,
                    a,
                    i as int,
                    dependency_rows(rows@),
                    row@,
                );
            }
            let ghost before = rows@;
            let ghost done = row@;
            rows.push(row);
            assert(dependency_rows(rows@) =~= dependency_rows(before).push(done));
        },
        None => {},
    }
    rows
}

fn begin_row(dependency: Dependency) -> (r: ModuleDependencyOutput)
    ensures
        r@.group == dependency.group(),
        r@.external_display == match dependency.target {
            ModuleDependencyTargetOutput::File { .. } => None,
            ModuleDependencyTargetOutput::External { id_display, .. } => Some(id_display@),
        },
        r@.count == 1,
        r@.evidence == seq![dependency.evidence@],
{
    let ghost shown = dependency.evidence@;
    let mut evidence: Vec<RelationOutput> = Vec::new();
    evidence.push(dependency.evidence);
    assert(relation_rows(evidence@) =~= seq![shown]);
    ModuleDependencyOutput {
        source_file: dependency.source_file,
        target: dependency.target,
        role: dependency.role,
        count: 1,
        evidence,
    }
}

/// Aggregates the dependencies of a graph before any limit applies.
pub fn aggregate_module_deps<R: GraphRead>(graph: &R, min_confidence: Confidence) -> (r: Result<
    Vec<ModuleDependencyOutput>,
    CliError,
>)
    ensures
        r matches Err(e) ==> graph.may_fail(e),
        r matches Ok(rows) ==> is_aggregation(
            graph.definitions(),
            dependencies(graph.relations(), min_confidence),
            dependency_rows(rows@),
        ),
{
    let ghost definitions = graph.definitions();
    let filter = EdgeFilter { role: None, min_confidence, provenance: None };
    let edges = match collect_edges(graph, EdgeScope::All, filter) {
        Ok(edges) => edges,
        Err(e) => {
            return Err(e);
        },
    };
    let ghost seen = edges_seen(edges@);
    let ghost q = |e: EdgeView| is_module_role(e.role);
    let mut entries: Vec<Dependency> = Vec::new();
    let mut i: usize = 0;
    reveal(Seq::filter);
    assert(edges_in(entries@) =~= seen.take(0).filter(q));
    while i < edges.len()
        invariant
            i <= edges.len(),
            definitions == graph.definitions(),
            seen == edges_seen(edges@),
            q == (|e: EdgeView| is_module_role(e.role)),
            edges_in(entries@) == seen.take(i as int).filter(q),
            all_of(entries@, definitions),
        decreases edges.len() - i,
    {
        let edge = &edges[i];
        proof {
            reveal(Seq::filter);
            assert(seen.take(i + 1).drop_last() =~= seen.take(i as int));
            assert(seen.take(i + 1).last() == edge@);
        }
        let module_role = match edge.role {
            RefRole::Import => true,
            RefRole::ModuleRef => true,
            _ => false,
        };
        if module_role {
            let found = match graph.symbol(&edge.to) {
                Ok(found) => found,
                Err(e) => {
                    return Err(e);
                },
            };
            let ghost read = found;
            proof {
                definitions_are_determined(
                    definitions,
                    edge@.to,
                    match read {
                        Some(s) => Some(s@),
                        None => None,
                    },
                );
            }
            let target = match found {
                Some(symbol) => ModuleDependencyTargetOutput::File {
                    file: normalized_project_path(symbol.file.as_str()),
                },
                None => ModuleDependencyTargetOutput::External {
                    id: edge.to.copied(),
                    id_display: edge.to.to_scip_string(),
                },
            };
            let ghost before = entries@;
            let entry = Dependency {
                source_file: normalized_project_path(edge.occ.file.as_str()),
                target,
                role: RefRoleOutput::from(edge.role),
                evidence: relation_output(edge),
                ghost_edge: Ghost(edge@),
            };
            proof {
                assert(entry.is_of(definitions));
            }
            entries.push(entry);
            assert(edges_in(entries@) =~= edges_in(before).push(edge@));
        }
        i += 1;
    }
    let ghost input = entries@;
    let ghost wanted = dependencies(graph.relations(), min_confidence);
    proof {
        assert(seen.take(seen.len() as int) =~= seen);
        let p = |e: EdgeView| edge_covered(EdgeScopeView::All, e) && filter.admits(e);
        let both = |e: EdgeView|
            is_module_role(e.role) && e.confidence.rank() >= min_confidence.rank();
        assert(seen == graph.relations().filter(p));
        assert(wanted == graph.relations().filter(both));
        lemma_filter_twice(graph.relations(), p, q, both);
        assert(edges_in(input) == wanted);
    }
    let sorted = stable_sort(entries);
    let ghost v = sorted@;
    proof {
        input.to_multiset_ensures();
        v.to_multiset_ensures();
        assert forall|j: int| 0 <= j < v.len() implies (#[trigger] v[j]).is_of(definitions) by {
            assert(v.contains(v[j]));
            assert(input.to_multiset().count(v[j]) > 0);
            assert(input.contains(v[j]));
            let m = choose|m: int| 0 <= m < input.len() && input[m] == v[j];
            assert(input[m].is_of(definitions));
        }
    }
    assert(is_sorting(definitions, input, v)) by {
        reveal(is_sorting);
    }
    let rows = group_rows(Ghost(definitions), Ghost(input), sorted);
    proof {
        reveal(aggregated);
        let keys = row_keys(dependency_rows(rows@));
        assert forall|j: int| 0 <= j < wanted.len() implies keys.contains(
            group_key(group_of(definitions, #[trigger] wanted[j])),
        ) by {
            assert(input[j].edge() == wanted[j]);
            assert(input[j].is_of(definitions));
            assert(input.contains(input[j]));
            assert(v.to_multiset().count(input[j]) > 0);
            assert(v.contains(input[j]));
            let m = choose|m: int| 0 <= m < v.len() && v[m] == input[j];
            assert(keys.contains(v[m].key()));
        }
    }
    Ok(rows)
}

/// The dependencies of a graph as a query shows them: the whole aggregation, cut only
/// at the end.
pub open spec fn is_dependency_listing(
    definitions: Seq<SymbolView>,
    edges: Seq<EdgeView>,
    e: OutputEnvelope<Vec<ModuleDependencyOutput>>,
    maximum: usize,
) -> bool {
    exists|complete: Seq<DependencyRow>| #[trigger]
        is_aggregation(definitions, edges, complete) && complete.len() > 0 && counts_told(
            e,
            dependency_rows(e.results@),
            complete,
            maximum,
        )
}

/// The result answers a query for dependencies.
pub open spec fn is_module_deps_answer<R: GraphRead, C: Cancellation>(
    context: QueryCommandContext<'_, R, C>,
    request: ModuleDepsCommandRequest,
    r: Result<OutputEnvelope<Vec<ModuleDependencyOutput>>, CliError>,
) -> bool {
    match r {
        Ok(e) => is_query_envelope(e, *context.loaded) && e.selector is None
            && is_dependency_listing(
            context.index.definitions(),
            dependencies(context.index.relations(), request.min_confidence),
            e,
            request.result_limit,
        ),
        Err(e) => context.interrupted_by(e) || (e == CliError::NoMatch && dependencies(
            context.index.relations(),
            request.min_confidence,
        ).len() == 0) || context.index.may_fail(e),
    }
}

/// Aggregates exact evidence over the whole project, then applies the limit to the
/// rows.
pub fn execute_module_deps<R: GraphRead, C: Cancellation>(
    context: &QueryCommandContext<'_, R, C>,
    request: ModuleDepsCommandRequest,
) -> (r: Result<OutputEnvelope<Vec<ModuleDependencyOutput>>, CliError>)
    ensures
        is_module_deps_answer(*context, request, r),
        context.heeds(failure_of(r)),
{
    context.deadline.check(context.cancellation)?;
    let mut results = match aggregate_module_deps(context.index, request.min_confidence) {
        Ok(results) => results,
        Err(e) => {
            return Err(e);
        },
    };
    let ghost complete = results@;
    let ghost edges = dependencies(context.index.relations(), request.min_confidence);
    proof {
        assert(dependency_rows(complete).len() == complete.len());
        if complete.len() == 0 && edges.len() > 0 {
            let keys = row_keys(dependency_rows(complete));
            assert(keys.contains(group_key(group_of(context.index.definitions(), edges[0]))));
        }
    }
    context.deadline.check(context.cancellation)?;
    if results.len() == 0 {
        return Err(CliError::NoMatch);
    }
    let (total, truncated) = limit(&mut results, request.result_limit);
    let returned = results.len();
    assert(dependency_rows(results@) =~= first_rows(
        dependency_rows(complete),
        request.result_limit,
    ));
    let mut envelope = query_envelope(context.loaded, results);
    envelope.total = total;
    envelope.returned = returned;
    envelope.truncated = truncated;
    assert(is_aggregation(context.index.definitions(), edges, dependency_rows(complete)));
    Ok(envelope)
}

/// Two ascending lists of the same keys are equal.
proof fn lemma_ascending_keys_determined(a: Seq<Seq<u64>>, b: Seq<Seq<u64>>)
    requires
        keys_ascend(a),
        keys_ascend(b),
        forall|k: Seq<u64>| #[trigger] a.contains(k) == b.contains(k),
    ensures
        a == b,
    decreases a.len(),
{
    if a.len() == 0 {
        if b.len() > 0 {
            assert(b.contains(b[0]));
            assert(a.contains(b[0]));
        }
        assert(a =~= b);
    } else {
        let x = a.last();
        assert(a[a.len() - 1] == x);
        assert(a.contains(x));
        assert(b.contains(x));
        let j = choose|j: int| 0 <= j < b.len() && b[j] == x;
        let y = b.last();
        assert(b[b.len() - 1] == y);
        assert(b.contains(y));
        assert(a.contains(y));
        let i = choose|i: int| 0 <= i < a.len() && a[i] == y;
        key_order_is_total(x, y);
        if j < b.len() - 1 {
            assert(key_lt(b[j], b[b.len() - 1]));
            if i < a.len() - 1 {
                assert(key_lt(a[i], a[a.len() - 1]));
            }
        }
        assert(x == y);
        let p = a.drop_last();
        let q = b.drop_last();
        assert forall|k: Seq<u64>| #[trigger] p.contains(k) == q.contains(k) by {
            if p.contains(k) {
                let m = choose|m: int| 0 <= m < p.len() && p[m] == k;
                assert(a[m] == k);
                assert(a.contains(k));
                assert(b.contains(k));
                assert(key_lt(a[m], a[a.len() - 1]));
                key_order_is_total(k, x);
                let n = choose|n: int| 0 <= n < b.len() && b[n] == k;
                assert(n < b.len() - 1);
                assert(q[n] == k);
            }
            if q.contains(k) {
                let m = choose|m: int| 0 <= m < q.len() && q[m] == k;
                assert(b[m] == k);
                assert(b.contains(k));
                assert(a.contains(k));
                assert(key_lt(b[m], b[b.len() - 1]));
                key_order_is_total(k, x);
                let n = choose|n: int| 0 <= n < a.len() && a[n] == k;
                assert(n < a.len() - 1);
                assert(p[n] == k);
            }
        }
        assert(keys_ascend(p)) by {
            assert forall|m: int, n: int| 0 <= m < n < p.len() implies key_lt(
                #[trigger] p[m],
                #[trigger] p[n],
            ) by {
                assert(key_lt(a[m], a[n]));
            }
        }
        assert(keys_ascend(q)) by {
            assert forall|m: int, n: int| 0 <= m < n < q.len() implies key_lt(
                #[trigger] q[m],
                #[trigger] q[n],
            ) by {
                assert(key_lt(b[m], b[n]));
            }
        }
        lemma_ascending_keys_determined(p, q);
        assert(a =~= p.push(x));
        assert(b =~= q.push(y));
    }
}

proof fn lemma_rows_have_edges(
    definitions: Seq<SymbolView>,
    edges: Seq<EdgeView>,
    a: Seq<DependencyRow>,
    b: Seq<DependencyRow>,
    k: Seq<u64>,
)
    requires
        is_aggregation(definitions, edges, a),
        is_aggregation(definitions, edges, b),
        row_keys(a).contains(k),
    ensures
        row_keys(b).contains(k),
{
    let m = choose|m: int| 0 <= m < row_keys(a).len() && row_keys(a)[m] == k;
    let own = members(definitions, edges, group_key(a[m].group));
    assert(is_dependency_row(definitions, edges, a[m]));
    let p = |e: EdgeView| group_key(group_of(definitions, e)) == k;
    assert(own == edges.filter(p));
    edges.lemma_filter_contains_rev(p, own[0]);
    let i = choose|i: int| 0 <= i < edges.len() && edges[i] == own[0];
    assert(row_keys(b).contains(group_key(group_of(definitions, edges[i]))));
}

/// The aggregation of dependencies is determined by them.
pub proof fn aggregations_are_determined(
    definitions: Seq<SymbolView>,
    edges: Seq<EdgeView>,
    a: Seq<DependencyRow>,
    b: Seq<DependencyRow>,
)
    requires
        is_aggregation(definitions, edges, a),
        is_aggregation(definitions, edges, b),
    ensures
        a == b,
{
    assert forall|k: Seq<u64>| #[trigger] row_keys(a).contains(k) == row_keys(b).contains(k) by {
        if row_keys(a).contains(k) {
            lemma_rows_have_edges(definitions, edges, a, b, k);
        }
        if row_keys(b).contains(k) {
            lemma_rows_have_edges(definitions, edges, b, a, k);
        }
    }
    lemma_ascending_keys_determined(row_keys(a), row_keys(b));
    assert(a.len() == row_keys(a).len());
    assert(b.len() == row_keys(b).len());
    assert forall|m: int| 0 <= m < a.len() implies a[m] == b[m] by {
        assert(row_keys(a)[m] == row_keys(b)[m]);
        assert(is_dependency_row(definitions, edges, a[m]));
        assert(is_dependency_row(definitions, edges, b[m]));
    }
    assert(a =~= b);
}

/// The order in which a graph lists its relations does not matter to its dependencies:
/// two lists of the same relations, once they are in the order of their keys, have the
/// same aggregation.
pub proof fn dependencies_ignore_input_order(
    definitions: Seq<SymbolView>,
    x: Seq<Edge>,
    y: Seq<Edge>,
    min_confidence: Confidence,
    a: Seq<DependencyRow>,
    b: Seq<DependencyRow>,
)
    requires
        x.to_multiset() == y.to_multiset(),
        strictly_sorted_by_key(x),
        strictly_sorted_by_key(y),
        is_aggregation(definitions, dependencies(edges_seen(x), min_confidence), a),
        is_aggregation(definitions, dependencies(edges_seen(y), min_confidence), b),
    ensures
        a == b,
{
    input_order_does_not_matter(x, y);
    aggregations_are_determined(
        definitions,
        dependencies(edges_seen(x), min_confidence),
        a,
        b,
    );
}

/// The counts of the first `n` rows together.
pub open spec fn counts_together(rows: Seq<DependencyRow>, n: int) -> int
    decreases n,
{
    if n <= 0 {
        0
    } else {
        counts_together(rows, n - 1) + rows[n - 1].count
    }
}

spec fn members_together(
    definitions: Seq<SymbolView>,
    edges: Seq<EdgeView>,
    keys: Seq<Seq<u64>>,
    n: int,
) -> int
    decreases n,
{
    if n <= 0 {
        0
    } else {
        members_together(definitions, edges, keys, n - 1) + members(
            definitions,
            edges,
            keys[n - 1],
        ).len()
    }
}

proof fn lemma_one_more_member(
    definitions: Seq<SymbolView>,
    edges: Seq<EdgeView>,
    keys: Seq<Seq<u64>>,
    n: int,
)
    requires
        edges.len() > 0,
        0 <= n <= keys.len(),
        keys.no_duplicates(),
    ensures
        members_together(definitions, edges, keys, n) == members_together(
            definitions,
            edges.drop_last(),
            keys,
            n,
        ) + if keys.take(n).contains(group_key(group_of(definitions, edges.last()))) {
            1int
        } else {
            0int
        },
    decreases n,
{
    let own = group_key(group_of(definitions, edges.last()));
    if n > 0 {
        lemma_one_more_member(definitions, edges, keys, n - 1);
        reveal(Seq::filter);
        let k = keys[n - 1];
        assert(members(definitions, edges, k).len() == members(
            definitions,
            edges.drop_last(),
            k,
        ).len() + if own == k {
            1int
        } else {
            0int
        });
        if keys.take(n).contains(own) {
            let some = keys.take(n);
            let m = choose|m: int| 0 <= m < some.len() && some[m] == own;
            if m < n - 1 {
                assert(keys.take(n - 1)[m] == own);
                assert(keys[m] != k);
            }
        }
        if keys.take(n - 1).contains(own) {
            let fewer = keys.take(n - 1);
            let m = choose|m: int| 0 <= m < fewer.len() && fewer[m] == own;
            assert(keys.take(n)[m] == own);
            assert(keys[m] != k);
        }
        if own == k {
            assert(keys.take(n)[n - 1] == own);
        }
    }
}

proof fn lemma_members_together(
    definitions: Seq<SymbolView>,
    edges: Seq<EdgeView>,
    keys: Seq<Seq<u64>>,
)
    requires
        keys.no_duplicates(),
        forall|i: int|
            0 <= i < edges.len() ==> keys.contains(
                group_key(group_of(definitions, #[trigger] edges[i])),
            ),
    ensures
        members_together(definitions, edges, keys, keys.len() as int) == edges.len(),
    decreases edges.len(),
{
    assert(keys.take(keys.len() as int) =~= keys);
    if edges.len() == 0 {
        lemma_no_members(definitions, edges, keys, keys.len() as int);
    } else {
        let init = edges.drop_last();
        assert forall|i: int| 0 <= i < init.len() implies keys.contains(
            group_key(group_of(definitions, #[trigger] init[i])),
        ) by {
            assert(edges[i] == init[i]);
        }
        lemma_members_together(definitions, init, keys);
        assert(edges[edges.len() - 1] == edges.last());
        lemma_one_more_member(definitions, edges, keys, keys.len() as int);
    }
}

proof fn lemma_no_members(
    definitions: Seq<SymbolView>,
    edges: Seq<EdgeView>,
    keys: Seq<Seq<u64>>,
    n: int,
)
    requires
        edges.len() == 0,
    ensures
        members_together(definitions, edges, keys, n) == 0,
    decreases n,
{
    if n > 0 {
        lemma_no_members(definitions, edges, keys, n - 1);
        reveal(Seq::filter);
    }
}

proof fn lemma_counts_are_members(
    definitions: Seq<SymbolView>,
    edges: Seq<EdgeView>,
    rows: Seq<DependencyRow>,
    n: int,
)
    requires
        is_aggregation(definitions, edges, rows),
        0 <= n <= rows.len(),
    ensures
        counts_together(rows, n) == members_together(definitions, edges, row_keys(rows), n),
    decreases n,
{
    if n > 0 {
        lemma_counts_are_members(definitions, edges, rows, n - 1);
        assert(is_dependency_row(definitions, edges, rows[n - 1]));
    }
}

/// No dependency is lost and none counts twice: the groups are distinct, every row tells
/// as many dependencies as it has evidence, at least one, and together they are all.
pub proof fn no_dependency_is_lost(
    definitions: Seq<SymbolView>,
    edges: Seq<EdgeView>,
    rows: Seq<DependencyRow>,
)
    requires
        is_aggregation(definitions, edges, rows),
    ensures
        row_keys(rows).no_duplicates(),
        forall|k: int|
            0 <= k < rows.len() ==> (#[trigger] rows[k]).count == rows[k].evidence.len()
                && rows[k].count >= 1,
        counts_together(rows, rows.len() as int) == edges.len(),
{
    let keys = row_keys(rows);
    assert forall|i: int, j: int| 0 <= i < keys.len() && 0 <= j < keys.len() && i != j implies keys[i]
        != keys[j] by {
        key_order_is_total(keys[i], keys[j]);
        if i < j {
            assert(key_lt(keys[i], keys[j]));
        } else {
            assert(key_lt(keys[j], keys[i]));
        }
    }
    assert forall|k: int| 0 <= k < rows.len() implies (#[trigger] rows[k]).count
        == rows[k].evidence.len() && rows[k].count >= 1 by {
        assert(is_dependency_row(definitions, edges, rows[k]));
    }
    lemma_members_together(definitions, edges, keys);
    lemma_counts_are_members(definitions, edges, rows, rows.len() as int);
}

} // verus!
