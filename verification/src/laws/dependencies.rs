//! Laws of module dependencies: which relations a row counts, and that none is lost.

use vstd::prelude::*;
use vstd::string::*;
use crate::commands::imports::is_module_role;
use crate::commands::module_deps::{
    dependencies, dependency_rows, group_key, group_of, is_aggregation, is_dependency_row,
    is_module_deps_answer, members, row_keys, target_key, target_of, DependencyRow, GroupView,
    ModuleDepsCommandRequest, TargetView,
};
use crate::commands::references::role_place;
use crate::commands::relations::{relation_row, relation_rows, rows_of};
use crate::commands::shared::{normalized, QueryCommandContext};
use crate::deadline::Cancellation;
use crate::error::CliError;
use crate::graph::{
    id_display, id_key, id_key_is_lossless, id_ok, lemma_head_splits, lemma_text_key_splits,
    Confidence, EdgeView, RefRole, SymbolView,
};
use crate::laws::terms::{
    counts_are_honest, defines_once, is_as_sure_as, is_undefined, lemma_filter_is_exact,
    lemma_same_filter, says_role, tells_of,
};
use crate::ordering::{key_lt, key_order_is_total};
use crate::query::index::{definition_of, GraphRead};
use crate::result::{ModuleDependencyOutput, ModuleDependencyTargetOutput, OutputEnvelope};
use crate::text::{text_field_compares_first, text_key, text_lt};

verus! {

proof fn lemma_target_key_splits(a: TargetView, b: TargetView, x: u64, y: u64)
    requires
        target_key(a) + seq![x] == target_key(b) + seq![y],
        a matches TargetView::External(id) ==> id_ok(id),
        b matches TargetView::External(id) ==> id_ok(id),
    ensures
        a == b,
        x == y,
{
    let ka = target_key(a) + seq![x];
    let kb = target_key(b) + seq![y];
    assert(ka.last() == x && kb.last() == y);
    assert(ka.drop_last() =~= target_key(a));
    assert(kb.drop_last() =~= target_key(b));
    assert(target_key(a)[0] == target_key(b)[0]);
    match (a, b) {
        (TargetView::File(f), TargetView::File(g)) => {
            lemma_head_splits(0, 0, text_key(f), text_key(g));
            text_field_compares_first(f, g, Seq::empty(), Seq::empty());
        },
        (TargetView::External(i), TargetView::External(j)) => {
            lemma_head_splits(1, 1, id_key(i), id_key(j));
            id_key_is_lossless(i, j);
        },
        _ => {},
    }
}

/// Dependencies are grouped by all that sets them apart: two groups have one key only if they
/// have the same source file, the same target and the same role.
pub proof fn groups_are_told_apart(a: GroupView, b: GroupView)
    requires
        group_key(a) == group_key(b),
        a.target matches TargetView::External(id) ==> id_ok(id),
        b.target matches TargetView::External(id) ==> id_ok(id),
    ensures
        a.source_file == b.source_file,
        a.target == b.target,
        a.role == b.role,
{
    lemma_text_key_splits(
        a.source_file,
        b.source_file,
        target_key(a.target) + seq![role_place(a.role)],
        target_key(b.target) + seq![role_place(b.role)],
    );
    lemma_target_key_splits(a.target, b.target, role_place(a.role), role_place(b.role));
}

/// The relation is an import, or names a module, and is sure enough.
pub open spec fn is_dependency(min_confidence: Confidence, e: EdgeView) -> bool {
    &&& e.role == RefRole::Import || e.role == RefRole::ModuleRef
    &&& is_as_sure_as(e.confidence, min_confidence)
}

/// The relation leads where the row says: into a file that defines its target, or to a target
/// that nothing defines.
pub open spec fn leads_to(
    definitions: Seq<SymbolView>,
    target: ModuleDependencyTargetOutput,
    e: EdgeView,
) -> bool {
    match target {
        ModuleDependencyTargetOutput::File { file } => exists|s: SymbolView| #[trigger]
            definitions.contains(s) && s.id == e.to && normalized(s.file) == file@,
        ModuleDependencyTargetOutput::External { id, .. } => id@ == e.to && is_undefined(
            definitions,
            e.to,
        ),
    }
}

/// The relation belongs into the row: it stands in the row's source file, has the row's role,
/// and leads to the row's target.
pub open spec fn belongs_to(
    definitions: Seq<SymbolView>,
    row: ModuleDependencyOutput,
    e: EdgeView,
) -> bool {
    &&& normalized(e.occ.file) == row.source_file@
    &&& says_role(row.role, e.role)
    &&& leads_to(definitions, row.target, e)
}

proof fn lemma_target(definitions: Seq<SymbolView>, e: EdgeView, target: ModuleDependencyTargetOutput)
    requires
        defines_once(definitions),
    ensures
        leads_to(definitions, target, e) <==> target_of(definitions, e.to) == match target {
            ModuleDependencyTargetOutput::File { file } => TargetView::File(file@),
            ModuleDependencyTargetOutput::External { id, .. } => TargetView::External(id@),
        },
{
    match definition_of(definitions, e.to) {
        Some(d) => {
            let i = choose|i: int|
                0 <= i < definitions.len() && (#[trigger] definitions[i]).id == e.to;
            assert(definitions[i] == d);
            assert(definitions.contains(d));
            assert(!is_undefined(definitions, e.to));
        },
        None => {
            assert forall|s: SymbolView| #[trigger] definitions.contains(s) implies s.id
                != e.to by {
                let i = choose|i: int| 0 <= i < definitions.len() && definitions[i] == s;
                assert(definitions[i].id != e.to);
            }
        },
    }
}

proof fn lemma_dependencies(relations: Seq<EdgeView>, min_confidence: Confidence)
    ensures
        dependencies(relations, min_confidence) == relations.filter(
            |e: EdgeView| is_dependency(min_confidence, e),
        ),
{
    let p = |e: EdgeView|
        is_module_role(e.role) && e.confidence.rank() >= min_confidence.rank();
    let q = |e: EdgeView| is_dependency(min_confidence, e);
    assert forall|i: int| 0 <= i < relations.len() implies p(#[trigger] relations[i]) == q(
        relations[i],
    ) by {}
    lemma_same_filter(relations, p, q);
}

proof fn lemma_members_belong(
    definitions: Seq<SymbolView>,
    edges: Seq<EdgeView>,
    row: ModuleDependencyOutput,
)
    requires
        defines_once(definitions),
        forall|i: int| 0 <= i < edges.len() ==> id_ok((#[trigger] edges[i]).to),
        row@.group.target matches TargetView::External(id) ==> id_ok(id),
    ensures
        members(definitions, edges, group_key(row@.group)) == edges.filter(
            |e: EdgeView| belongs_to(definitions, row, e),
        ),
{
    let key = group_key(row@.group);
    let p = |e: EdgeView| group_key(group_of(definitions, e)) == key;
    let q = |e: EdgeView| belongs_to(definitions, row, e);
    assert forall|i: int| 0 <= i < edges.len() implies p(#[trigger] edges[i]) == q(edges[i]) by {
        let e = edges[i];
        lemma_target(definitions, e, row.target);
        if p(e) {
            groups_are_told_apart(group_of(definitions, e), row@.group);
        }
        if q(e) {
            assert(group_of(definitions, e) == row@.group);
        }
    }
    lemma_same_filter(edges, p, q);
    assert(members(definitions, edges, key) == edges.filter(p));
}

/// The identities of the ends of relations are made of the parts that identities have.
pub open spec fn ends_are_valid(relations: Seq<EdgeView>) -> bool {
    forall|i: int| 0 <= i < relations.len() ==> id_ok((#[trigger] relations[i]).to)
}

proof fn lemma_kept_ends(relations: Seq<EdgeView>, min_confidence: Confidence)
    requires
        ends_are_valid(relations),
    ensures
        ({
            let all = relations.filter(|e: EdgeView| is_dependency(min_confidence, e));
            forall|i: int| 0 <= i < all.len() ==> id_ok((#[trigger] all[i]).to)
        }),
{
    let q = |e: EdgeView| is_dependency(min_confidence, e);
    let all = relations.filter(q);
    lemma_filter_is_exact(relations, q);
    assert forall|i: int| 0 <= i < all.len() implies id_ok((#[trigger] all[i]).to) by {
        assert(relations.contains(all[i]));
        let k = choose|k: int| 0 <= k < relations.len() && relations[k] == all[i];
        assert(id_ok(relations[k].to));
    }
}

/// The dependencies that belong into the row, in the order in which the graph has them.
pub open spec fn own_dependencies(
    definitions: Seq<SymbolView>,
    relations: Seq<EdgeView>,
    min_confidence: Confidence,
    row: ModuleDependencyOutput,
) -> Seq<EdgeView> {
    relations.filter(|e: EdgeView| is_dependency(min_confidence, e)).filter(
        |e: EdgeView| belongs_to(definitions, row, e),
    )
}

/// The row holds its own evidence and all of it: as many relations as it counts, at least one,
/// each of them standing in the row's source file, of the row's role and leading to the row's
/// target.
pub open spec fn holds_its_own(
    definitions: Seq<SymbolView>,
    relations: Seq<EdgeView>,
    min_confidence: Confidence,
    row: ModuleDependencyOutput,
) -> bool {
    let own = own_dependencies(definitions, relations, min_confidence, row);
    &&& own.len() > 0
    &&& row.count == own.len()
    &&& row.evidence@.len() == own.len()
    &&& row.target matches ModuleDependencyTargetOutput::External { id, id_display: shown }
        ==> shown@ == id_display(id@)
    &&& forall|k: int|
        0 <= k < own.len() ==> tells_of((#[trigger] row.evidence@[k])@, own[k])
            && row.evidence@[k]@.occurrence.file == row.source_file@ && row.evidence@[k].role
            == row.role && belongs_to(definitions, row, own[k])
}

proof fn lemma_row_holds_its_own(
    definitions: Seq<SymbolView>,
    relations: Seq<EdgeView>,
    min_confidence: Confidence,
    row: ModuleDependencyOutput,
)
    requires
        defines_once(definitions),
        ends_are_valid(relations),
        is_dependency_row(definitions, dependencies(relations, min_confidence), row@),
    ensures
        holds_its_own(definitions, relations, min_confidence, row),
{
    let edges = dependencies(relations, min_confidence);
    lemma_dependencies(relations, min_confidence);
    lemma_kept_ends(relations, min_confidence);
    let first = members(definitions, edges, group_key(row@.group));
    let p = |e: EdgeView| group_key(group_of(definitions, e)) == group_key(row@.group);
    lemma_filter_is_exact(edges, p);
    assert(first == edges.filter(p));
    assert(edges.contains(first[0]));
    let m = choose|m: int| 0 <= m < edges.len() && edges[m] == first[0];
    assert(id_ok(edges[m].to));
    lemma_members_belong(definitions, edges, row);
    let q = |e: EdgeView| belongs_to(definitions, row, e);
    let own = own_dependencies(definitions, relations, min_confidence, row);
    assert(own == edges.filter(q));
    lemma_filter_is_exact(edges, q);
    assert(relation_rows(row.evidence@) == rows_of(own));
    assert(relation_rows(row.evidence@).len() == row.evidence@.len());
    assert(rows_of(own).len() == own.len());
    assert forall|k: int| 0 <= k < own.len() implies tells_of(
        (#[trigger] row.evidence@[k])@,
        own[k],
    ) && row.evidence@[k]@.occurrence.file == row.source_file@ && row.evidence@[k].role == row.role
        && belongs_to(definitions, row, own[k]) by {
        assert(relation_rows(row.evidence@)[k] == row.evidence@[k]@);
        assert(rows_of(own)[k] == relation_row(own[k]));
        assert(q(own[k]));
    }
}

/// A query for dependencies shows honest rows, each of them once: a row holds its own evidence
/// and all of it, no two rows have the same source file, target and role, and the rows ascend
/// by their source files.
pub proof fn rows_hold_their_own_evidence<R: GraphRead, C: Cancellation>(
    context: QueryCommandContext<'_, R, C>,
    request: ModuleDepsCommandRequest,
    envelope: OutputEnvelope<Vec<ModuleDependencyOutput>>,
)
    requires
        is_module_deps_answer(context, request, Ok(envelope)),
        defines_once(context.index.definitions()),
        ends_are_valid(context.index.relations()),
    ensures
        forall|j: int|
            0 <= j < envelope.results@.len() ==> holds_its_own(
                context.index.definitions(),
                context.index.relations(),
                request.min_confidence,
                #[trigger] envelope.results@[j],
            ),
        forall|i: int, j: int|
            #![trigger envelope.results@[i], envelope.results@[j]]
            0 <= i < j < envelope.results@.len() ==> ({
                let a = envelope.results@[i];
                let b = envelope.results@[j];
                &&& !(a.source_file@ == b.source_file@ && a@.group.target == b@.group.target
                    && a.role == b.role)
                &&& a.source_file@ == b.source_file@ || text_lt(a.source_file@, b.source_file@)
            }),
{
    let definitions = context.index.definitions();
    let relations = context.index.relations();
    let edges = dependencies(relations, request.min_confidence);
    let rows = envelope.results@;
    let complete = lemma_complete(context, request, envelope);
    let shown = dependency_rows(rows);
    assert forall|j: int| 0 <= j < rows.len() implies holds_its_own(
        definitions,
        relations,
        request.min_confidence,
        #[trigger] rows[j],
    ) by {
        assert(shown[j] == rows[j]@);
        assert(shown[j] == complete[j]);
        assert(is_dependency_row(definitions, edges, complete[j]));
        lemma_row_holds_its_own(definitions, relations, request.min_confidence, rows[j]);
    }
    assert forall|i: int, j: int|
        #![trigger rows[i], rows[j]]
        0 <= i < j < rows.len() implies ({
        let a = rows[i];
        let b = rows[j];
        &&& !(a.source_file@ == b.source_file@ && a@.group.target == b@.group.target && a.role
            == b.role)
        &&& a.source_file@ == b.source_file@ || text_lt(a.source_file@, b.source_file@)
    }) by {
        let a = rows[i];
        let b = rows[j];
        assert(shown[i] == complete[i] && shown[j] == complete[j]);
        let keys = row_keys(complete);
        assert(keys[i] == group_key(a@.group) && keys[j] == group_key(b@.group));
        assert(key_lt(keys[i], keys[j]));
        key_order_is_total(keys[i], keys[j]);
        text_field_compares_first(
            a.source_file@,
            b.source_file@,
            target_key(a@.group.target) + seq![role_place(a.role)],
            target_key(b@.group.target) + seq![role_place(b.role)],
        );
    }
}

proof fn lemma_complete<R: GraphRead, C: Cancellation>(
    context: QueryCommandContext<'_, R, C>,
    request: ModuleDepsCommandRequest,
    envelope: OutputEnvelope<Vec<ModuleDependencyOutput>>,
) -> (complete: Seq<DependencyRow>)
    requires
        is_module_deps_answer(context, request, Ok(envelope)),
    ensures
        is_aggregation(
            context.index.definitions(),
            dependencies(context.index.relations(), request.min_confidence),
            complete,
        ),
        complete.len() > 0,
        counts_are_honest(
            envelope,
            envelope.results@.len(),
            complete.len(),
            request.result_limit,
        ),
        forall|j: int|
            0 <= j < envelope.results@.len() ==> dependency_rows(envelope.results@)[j]
                == #[trigger] complete[j],
{
    let rows = dependency_rows(envelope.results@);
    assert(rows.len() == envelope.results@.len());
    choose|complete: Seq<DependencyRow>| #[trigger]
        is_aggregation(
            context.index.definitions(),
            dependencies(context.index.relations(), request.min_confidence),
            complete,
        ) && complete.len() > 0 && crate::commands::shared::counts_told(
            envelope,
            rows,
            complete,
            request.result_limit,
        )
}

/// No dependency is left out: where nothing is cut, every import and every module reference
/// of the graph that is sure enough belongs into some row; and the counts are honest.
pub proof fn every_dependency_has_its_row<R: GraphRead, C: Cancellation>(
    context: QueryCommandContext<'_, R, C>,
    request: ModuleDepsCommandRequest,
    envelope: OutputEnvelope<Vec<ModuleDependencyOutput>>,
    e: EdgeView,
)
    requires
        is_module_deps_answer(context, request, Ok(envelope)),
        defines_once(context.index.definitions()),
        ends_are_valid(context.index.relations()),
        context.index.relations().contains(e),
        is_dependency(request.min_confidence, e),
    ensures
        envelope.returned == envelope.results@.len(),
        envelope.returned <= envelope.total,
        envelope.returned <= request.result_limit,
        envelope.truncated <==> envelope.returned < envelope.total,
        !envelope.truncated ==> exists|j: int|
            0 <= j < envelope.results@.len() && belongs_to(
                context.index.definitions(),
                #[trigger] envelope.results@[j],
                e,
            ),
{
    let definitions = context.index.definitions();
    let relations = context.index.relations();
    let edges = dependencies(relations, request.min_confidence);
    let complete = lemma_complete(context, request, envelope);
    lemma_dependencies(relations, request.min_confidence);
    lemma_kept_ends(relations, request.min_confidence);
    let q = |e: EdgeView| is_dependency(request.min_confidence, e);
    lemma_filter_is_exact(relations, q);
    let m = choose|m: int| 0 <= m < relations.len() && relations[m] == e;
    assert(q(relations[m]));
    assert(edges.contains(e));
    let i = choose|i: int| 0 <= i < edges.len() && edges[i] == e;
    let keys = row_keys(complete);
    let key = group_key(group_of(definitions, edges[i]));
    assert(keys.contains(key));
    let j = choose|j: int| 0 <= j < keys.len() && keys[j] == key;
    if !envelope.truncated {
        let row = envelope.results@[j];
        assert(dependency_rows(envelope.results@)[j] == complete[j]);
        assert(complete[j] == row@);
        assert(is_dependency_row(definitions, edges, complete[j]));
        lemma_row_holds_its_own(definitions, relations, request.min_confidence, row);
        let p = |x: EdgeView| group_key(group_of(definitions, x)) == group_key(row@.group);
        lemma_filter_is_exact(edges, p);
        let own = members(definitions, edges, group_key(row@.group));
        assert(own == edges.filter(p));
        assert(edges.contains(own[0]));
        let n = choose|n: int| 0 <= n < edges.len() && edges[n] == own[0];
        assert(id_ok(edges[n].to));
        lemma_members_belong(definitions, edges, row);
        assert(p(edges[i]));
        let b = |x: EdgeView| belongs_to(definitions, row, x);
        lemma_filter_is_exact(edges, b);
        assert(own.contains(e));
        let t = choose|t: int| 0 <= t < own.len() && own[t] == e;
        assert(b(edges.filter(b)[t]));
    }
}

/// A graph that has a dependency is not told to have none.
pub proof fn dependencies_are_not_denied<R: GraphRead, C: Cancellation>(
    context: QueryCommandContext<'_, R, C>,
    request: ModuleDepsCommandRequest,
    e: EdgeView,
)
    requires
        context.index.relations().contains(e),
        is_dependency(request.min_confidence, e),
        !context.interrupted_by(CliError::NoMatch),
        !context.index.may_fail(CliError::NoMatch),
    ensures
        !is_module_deps_answer(context, request, Err(CliError::NoMatch)),
{
    let relations = context.index.relations();
    lemma_dependencies(relations, request.min_confidence);
    let q = |e: EdgeView| is_dependency(request.min_confidence, e);
    lemma_filter_is_exact(relations, q);
    let m = choose|m: int| 0 <= m < relations.len() && relations[m] == e;
    assert(q(relations[m]));
    assert(relations.filter(q).contains(e));
}

} // verus!
