//! Resolved imports and module references that originate in one file.

use vstd::prelude::*;
use vstd::string::*;
use crate::commands::relations::{relation_outputs, relation_rows, rows_of};
use crate::commands::shared::{
    counts_told, file_refused, first_rows, is_query_envelope, is_refusal, limit, normalized,
    normalized_project_path, query_envelope, requested_file, QueryCommandContext,
};
use crate::deadline::{failure_of, Cancellation};
use crate::error::CliError;
use crate::graph::{Confidence, Edge, EdgeView, RefRole};
use crate::query::index::{
    edge_covered, edges_seen, EdgeFilter, EdgeScope, EdgeScopeView, GraphRead,
};
use crate::query::pages::collect_edges;
use crate::result::{OutputEnvelope, RelationOutput};
use crate::text::same_text;

verus! {

/// What a query for imports asks for.
#[derive(Debug, Clone, Copy)]
pub struct ImportsCommandRequest<'a> {
    pub file: &'a str,
    pub result_limit: usize,
    pub min_confidence: Confidence,
}

/// The role ties a file to another module.
pub open spec fn is_module_role(role: RefRole) -> bool {
    role == RefRole::Import || role == RefRole::ModuleRef
}

/// The relation is an import that originates in the file.
pub open spec fn is_import(e: EdgeView, file: Seq<char>, min_confidence: Confidence) -> bool {
    normalized(e.occ.file) == file && is_module_role(e.role) && e.confidence.rank()
        >= min_confidence.rank()
}

/// The imports that originate in the file, in the order of their keys.
pub open spec fn imports_of(
    relations: Seq<EdgeView>,
    file: Seq<char>,
    min_confidence: Confidence,
) -> Seq<EdgeView> {
    relations.filter(|e: EdgeView| is_import(e, file, min_confidence))
}

pub(crate) proof fn lemma_filter_twice(
    relations: Seq<EdgeView>,
    p: spec_fn(EdgeView) -> bool,
    q: spec_fn(EdgeView) -> bool,
    both: spec_fn(EdgeView) -> bool,
)
    requires
        forall|e: EdgeView| #[trigger] both(e) == (p(e) && q(e)),
    ensures
        relations.filter(p).filter(q) == relations.filter(both),
    decreases relations.len(),
{
    reveal(Seq::filter);
    if relations.len() > 0 {
        let rest = relations.drop_last();
        let last = relations.last();
        lemma_filter_twice(rest, p, q, both);
        assert(both(last) == (p(last) && q(last)));
        if p(last) {
            assert(rest.filter(p).push(last).drop_last() =~= rest.filter(p));
        }
    }
}

/// Collects the imports that originate in a file.
pub fn collect_imports_read<R: GraphRead>(
    graph: &R,
    normalized_file: &str,
    min_confidence: Confidence,
) -> (r: Result<Vec<Edge>, CliError>)
    ensures
        r matches Err(e) ==> graph.may_fail(e),
        r matches Ok(edges) ==> edges_seen(edges@) == imports_of(
            graph.relations(),
            normalized_file@,
            min_confidence,
        ),
{
    let filter = EdgeFilter { role: None, min_confidence, provenance: None };
    let edges = match collect_edges(graph, EdgeScope::All, filter) {
        Ok(edges) => edges,
        Err(e) => {
            return Err(e);
        },
    };
    let ghost seen = edges_seen(edges@);
    let ghost q = |e: EdgeView| normalized(e.occ.file) == normalized_file@ && is_module_role(e.role);
    let mut kept: Vec<Edge> = Vec::new();
    let mut i: usize = 0;
    reveal(Seq::filter);
    assert(edges_seen(kept@) =~= seen.take(0).filter(q));
    while i < edges.len()
        invariant
            i <= edges.len(),
            seen == edges_seen(edges@),
            q == (|e: EdgeView|
                normalized(e.occ.file) == normalized_file@ && is_module_role(e.role)),
            edges_seen(kept@) == seen.take(i as int).filter(q),
        decreases edges.len() - i,
    {
        let edge = &edges[i];
        proof {
            reveal(Seq::filter);
            assert(seen.take(i + 1).drop_last() =~= seen.take(i as int));
            assert(seen.take(i + 1).last() == edge@);
        }
        let module_role = match edge.role {
            RefRole::Import => true,
            RefRole::ModuleRef => true,
            _ => false,
        };
        let file = normalized_project_path(edge.occ.file.as_str());
        if same_text(file.as_str(), normalized_file) && module_role {
            let ghost before = kept@;
            kept.push(edge.copied());
            assert(edges_seen(kept@) =~= edges_seen(before).push(edge@));
        }
        i += 1;
    }
    proof {
        assert(seen.take(seen.len() as int) =~= seen);
        let p = |e: EdgeView| edge_covered(EdgeScopeView::All, e) && filter.admits(e);
        let both = |e: EdgeView| is_import(e, normalized_file@, min_confidence);
        assert(seen == graph.relations().filter(p));
        lemma_filter_twice(graph.relations(), p, q, both);
    }
    Ok(kept)
}

/// Some indexed source has the path.
pub open spec fn is_indexed(paths: Seq<Seq<char>>, file: Seq<char>) -> bool {
    exists|i: int| 0 <= i < paths.len() && normalized(#[trigger] paths[i]) == file
}

/// Nothing answers a query for imports: the file is not indexed, or imports nothing.
pub open spec fn no_imports<R: GraphRead, C: Cancellation>(
    context: QueryCommandContext<'_, R, C>,
    request: ImportsCommandRequest<'_>,
) -> bool {
    !is_indexed(context.candidate_hashes.keys(), normalized(request.file@)) || imports_of(
        context.index.relations(),
        normalized(request.file@),
        request.min_confidence,
    ).len() == 0
}

/// The result answers a query for imports.
pub open spec fn is_imports_answer<R: GraphRead, C: Cancellation>(
    context: QueryCommandContext<'_, R, C>,
    request: ImportsCommandRequest<'_>,
    r: Result<OutputEnvelope<Vec<RelationOutput>>, CliError>,
) -> bool {
    match r {
        Ok(e) => {
            &&& !file_refused(Some(request.file))
            &&& !no_imports(context, request)
            &&& is_query_envelope(e, *context.loaded)
            &&& e.selector is None
            &&& counts_told(
                e,
                relation_rows(e.results@),
                rows_of(
                    imports_of(
                        context.index.relations(),
                        normalized(request.file@),
                        request.min_confidence,
                    ),
                ),
                request.result_limit,
            )
        },
        Err(e) => context.interrupted_by(e) || is_refusal(e, Some(request.file)) || (e
            == CliError::NoMatch && !file_refused(Some(request.file)) && no_imports(
            context,
            request,
        )) || context.index.may_fail(e),
    }
}

/// Returns the imports and module references of a file. Parallel evidence is kept.
pub fn execute_imports<R: GraphRead, C: Cancellation>(
    context: &QueryCommandContext<'_, R, C>,
    request: ImportsCommandRequest<'_>,
) -> (r: Result<OutputEnvelope<Vec<RelationOutput>>, CliError>)
    ensures
        is_imports_answer(*context, request, r),
        context.heeds(failure_of(r)),
{
    context.deadline.check(context.cancellation)?;
    let file = match requested_file(Some(request.file)) {
        Ok(Some(file)) => file,
        Ok(None) => {
            return Err(CliError::NoMatch);
        },
        Err(e) => {
            return Err(e);
        },
    };
    let ghost paths = context.candidate_hashes.keys();
    let mut indexed = false;
    let mut i: usize = 0;
    let count = context.candidate_hashes.len();
    while i < count && !indexed
        invariant
            i <= count,
            paths == context.candidate_hashes.keys(),
            count == paths.len(),
            indexed ==> is_indexed(paths, file@),
            !indexed ==> forall|j: int| 0 <= j < i ==> normalized(#[trigger] paths[j]) != file@,
        decreases count - i,
    {
        let path = normalized_project_path(context.candidate_hashes.key_at(i).as_str());
        if same_text(path.as_str(), file.as_str()) {
            assert(normalized(paths[i as int]) == file@);
            indexed = true;
        }
        i += 1;
    }
    if !indexed {
        return Err(CliError::NoMatch);
    }
    let edges = match collect_imports_read(context.index, file.as_str(), request.min_confidence) {
        Ok(edges) => edges,
        Err(e) => {
            return Err(e);
        },
    };
    let mut results = relation_outputs(&edges);
    let ghost complete = results@;
    context.deadline.check(context.cancellation)?;
    proof {
        assert(relation_rows(complete).len() == complete.len());
        assert(rows_of(edges_seen(edges@)).len() == edges@.len());
    }
    if results.len() == 0 {
        return Err(CliError::NoMatch);
    }
    let (total, truncated) = limit(&mut results, request.result_limit);
    let returned = results.len();
    assert(relation_rows(results@) =~= first_rows(relation_rows(complete), request.result_limit));
    let mut envelope = query_envelope(context.loaded, results);
    envelope.total = total;
    envelope.returned = returned;
    envelope.truncated = truncated;
    Ok(envelope)
}

} // verus!
