//! Laws of the queries for relations: callers, callees, usages and imports.

use vstd::prelude::*;
use crate::commands::imports::{
    imports_of, is_import, is_imports_answer, is_indexed, ImportsCommandRequest,
};
use crate::commands::relations::{
    evidence_of, is_relations_answer, looked_at, relation_filter, relation_row, relation_rows,
    rows_of, RelationCommandRequest, RelationDirection,
};
use crate::commands::shared::{ids_seen, normalized, QueryCommandContext, SelectorResolution};
use crate::deadline::Cancellation;
use crate::error::CliError;
use crate::graph::{Confidence, EdgeView, IdView, RefRole};
use crate::laws::terms::{
    counts_are_honest, is_as_sure_as, lemma_filter_is_exact, lemma_same_filter, says_role, tells_of,
};
use crate::query::index::GraphRead;
use crate::result::{OutputEnvelope, RelationOutput};

verus! {

/// The relation is asked for: one of the selected symbols is its target where callers and
/// usages are asked for and its origin where callees are, it is sure enough, and of the role
/// that is named, if one is.
pub open spec fn is_asked_for(
    ids: Seq<IdView>,
    request: RelationCommandRequest<'_>,
    e: EdgeView,
) -> bool {
    &&& request.direction == RelationDirection::Incoming ==> ids.contains(e.to)
    &&& request.direction == RelationDirection::Outgoing ==> ids.contains(e.from)
    &&& is_as_sure_as(e.confidence, request.min_confidence)
    &&& request.role is Some ==> e.role == request.role->0
}

/// A query for relations lists the relations of the graph that are asked for, in the order in
/// which the graph has them, and tells how many there are. Every row has the role that is
/// named, if one is, and touches one of the selected symbols at the end that is asked for.
pub proof fn relations_are_those_asked_for<R: GraphRead, C: Cancellation>(
    context: QueryCommandContext<'_, R, C>,
    request: RelationCommandRequest<'_>,
    resolution: SelectorResolution,
    envelope: OutputEnvelope<Vec<RelationOutput>>,
)
    requires
        is_relations_answer(context, request, resolution, Ok(envelope)),
    ensures
        ({
            let ids = ids_seen(resolution.ids@);
            let all = context.index.relations().filter(|e: EdgeView| is_asked_for(ids, request, e));
            let rows = envelope.results@;
            &&& counts_are_honest(envelope, rows.len(), all.len(), request.result_limit)
            &&& forall|j: int|
                0 <= j < rows.len() ==> tells_of((#[trigger] rows[j])@, all[j])
                    && rows[j]@.occurrence.file == normalized(all[j].occ.file)
            &&& forall|j: int|
                0 <= j < rows.len() && request.role is Some ==> says_role(
                    (#[trigger] rows[j]).role,
                    request.role->0,
                )
            &&& forall|j: int|
                0 <= j < rows.len() && request.direction == RelationDirection::Incoming
                    ==> ids.contains((#[trigger] rows[j]).to@)
            &&& forall|j: int|
                0 <= j < rows.len() && request.direction == RelationDirection::Outgoing
                    ==> ids.contains((#[trigger] rows[j]).from@)
        }),
{
    let ids = ids_seen(resolution.ids@);
    let relations = context.index.relations();
    let filter = relation_filter(request);
    let p = |e: EdgeView| ids.contains(looked_at(request.direction, e)) && filter.admits(e);
    let q = |e: EdgeView| is_asked_for(ids, request, e);
    lemma_same_filter(relations, p, q);
    let all = relations.filter(q);
    assert(evidence_of(relations, ids, request.direction, filter) == all);
    lemma_filter_is_exact(relations, q);
    let rows = envelope.results@;
    let shown = relation_rows(rows);
    assert(rows_of(all).len() == all.len());
    assert(shown.len() == rows.len());
    assert forall|j: int| 0 <= j < rows.len() implies tells_of((#[trigger] rows[j])@, all[j])
        && rows[j]@.occurrence.file == normalized(all[j].occ.file) by {
        assert(shown[j] == rows[j]@);
        assert(shown[j] == rows_of(all)[j]);
        assert(rows_of(all)[j] == relation_row(all[j]));
    }
    assert forall|j: int| 0 <= j < rows.len() implies q(#[trigger] all[j]) && tells_of(
        rows[j]@,
        all[j],
    ) by {
        assert(tells_of(rows[j]@, all[j]));
    }
    assert forall|j: int| 0 <= j < rows.len() && request.role is Some implies says_role(
        (#[trigger] rows[j]).role,
        request.role->0,
    ) by {
        assert(q(all[j]));
    }
    assert forall|j: int|
        0 <= j < rows.len() && request.direction
            == RelationDirection::Incoming implies ids.contains((#[trigger] rows[j]).to@) by {
        assert(q(all[j]));
    }
    assert forall|j: int|
        0 <= j < rows.len() && request.direction
            == RelationDirection::Outgoing implies ids.contains((#[trigger] rows[j]).from@) by {
        assert(q(all[j]));
    }
}

/// The relation is an import, or names a module, in the file, and is sure enough.
pub open spec fn is_import_of(file: Seq<char>, min_confidence: Confidence, e: EdgeView) -> bool {
    &&& normalized(e.occ.file) == normalized(file)
    &&& e.role == RefRole::Import || e.role == RefRole::ModuleRef
    &&& is_as_sure_as(e.confidence, min_confidence)
}

proof fn lemma_imports(relations: Seq<EdgeView>, request: ImportsCommandRequest<'_>)
    ensures
        imports_of(relations, normalized(request.file@), request.min_confidence)
            == relations.filter(
            |e: EdgeView| is_import_of(request.file@, request.min_confidence, e),
        ),
{
    let p = |e: EdgeView| is_import(e, normalized(request.file@), request.min_confidence);
    let q = |e: EdgeView| is_import_of(request.file@, request.min_confidence, e);
    assert forall|i: int| 0 <= i < relations.len() implies p(#[trigger] relations[i]) == q(
        relations[i],
    ) by {}
    lemma_same_filter(relations, p, q);
}

/// A query for imports lists the imports and module references of the file, and no other
/// relation, in the order in which the graph has them, and tells how many there are: at least
/// one. The file is one that was indexed.
pub proof fn imports_are_those_of_the_file<R: GraphRead, C: Cancellation>(
    context: QueryCommandContext<'_, R, C>,
    request: ImportsCommandRequest<'_>,
    envelope: OutputEnvelope<Vec<RelationOutput>>,
)
    requires
        is_imports_answer(context, request, Ok(envelope)),
    ensures
        ({
            let all = context.index.relations().filter(
                |e: EdgeView| is_import_of(request.file@, request.min_confidence, e),
            );
            let rows = envelope.results@;
            &&& all.len() > 0
            &&& exists|k: int|
                0 <= k < context.candidate_hashes.keys().len() && normalized(
                    #[trigger] context.candidate_hashes.keys()[k],
                ) == normalized(request.file@)
            &&& counts_are_honest(envelope, rows.len(), all.len(), request.result_limit)
            &&& forall|j: int|
                0 <= j < rows.len() ==> tells_of((#[trigger] rows[j])@, all[j])
                    && rows[j]@.occurrence.file == normalized(request.file@) && (says_role(
                    rows[j]@.role,
                    RefRole::Import,
                ) || says_role(rows[j]@.role, RefRole::ModuleRef))
        }),
{
    let relations = context.index.relations();
    lemma_imports(relations, request);
    let q = |e: EdgeView| is_import_of(request.file@, request.min_confidence, e);
    let all = relations.filter(q);
    lemma_filter_is_exact(relations, q);
    let rows = envelope.results@;
    let shown = relation_rows(rows);
    assert(rows_of(all).len() == all.len());
    assert(shown.len() == rows.len());
    assert forall|j: int| 0 <= j < rows.len() implies tells_of((#[trigger] rows[j])@, all[j])
        && rows[j]@.occurrence.file == normalized(request.file@) && (says_role(
        rows[j]@.role,
        RefRole::Import,
    ) || says_role(rows[j]@.role, RefRole::ModuleRef)) by {
        assert(shown[j] == rows[j]@);
        assert(shown[j] == rows_of(all)[j]);
        assert(rows_of(all)[j] == relation_row(all[j]));
        assert(q(all[j]));
    }
}

/// A file that is indexed and has an import that is sure enough is not told to have none.
pub proof fn imports_are_not_denied<R: GraphRead, C: Cancellation>(
    context: QueryCommandContext<'_, R, C>,
    request: ImportsCommandRequest<'_>,
    path: Seq<char>,
    e: EdgeView,
)
    requires
        context.candidate_hashes.keys().contains(path),
        normalized(path) == normalized(request.file@),
        context.index.relations().contains(e),
        is_import_of(request.file@, request.min_confidence, e),
        !context.interrupted_by(CliError::NoMatch),
        !context.index.may_fail(CliError::NoMatch),
    ensures
        !is_imports_answer(context, request, Err(CliError::NoMatch)),
{
    let relations = context.index.relations();
    lemma_imports(relations, request);
    let q = |e: EdgeView| is_import_of(request.file@, request.min_confidence, e);
    lemma_filter_is_exact(relations, q);
    let i = choose|i: int| 0 <= i < relations.len() && relations[i] == e;
    assert(relations.filter(q).contains(relations[i]));
    let keys = context.candidate_hashes.keys();
    let k = choose|k: int| 0 <= k < keys.len() && keys[k] == path;
    assert(normalized(keys[k]) == normalized(request.file@));
    assert(is_indexed(keys, normalized(request.file@)));
}

} // verus!
