//! Incoming and outgoing resolved relations of selected symbols.

use vstd::prelude::*;
use vstd::string::*;
use crate::commands::shared::{
    counts_told, file_refused, first_rows, ids_seen, is_query_envelope, is_refusal,
    is_selector_report, limit,
    normalized, normalized_project_path, query_envelope, requested_file, selector_output,
    QueryCommandContext, SelectorResolution,
};
use crate::deadline::{failure_of, Cancellation};
use crate::error::CliError;
use crate::graph::{
    edge_key, Confidence, Edge, EdgeView, IdView, OccurrenceView, RefRole, SymbolId,
};
use crate::ordering::{
    key_le, key_less, key_lt, key_order_is_total, key_order_is_transitive, reversed, sorted_by_key,
    stable_sort, strictly_sorted_by_key, Keyed,
};
use crate::query::index::{
    covered_relations_are_exact, edges_seen, relations_ordered, EdgeFilter, EdgeScope,
    EdgeScopeView, GraphRead,
};
use crate::query::pages::{collect_edges, picked_relations_are_ordered};
use crate::result::{
    confidence_shown, provenance_shown, ref_role_shown, ConfidenceOutput, OccurrenceOutput,
    OutputEnvelope, ProvenanceOutput, RefRoleOutput, RelationOutput, RelationView,
};

verus! {

/// The shown form of a relation: its identities are kept whole, its file is
/// normalized.
pub open spec fn relation_row(e: EdgeView) -> RelationView {
    RelationView {
        from: e.from,
        to: e.to,
        role: ref_role_shown(e.role),
        confidence: confidence_shown(e.confidence),
        provenance: provenance_shown(e.provenance),
        occurrence: OccurrenceView { file: normalized(e.occ.file), ..e.occ },
    }
}

/// The shown form of a relation.
pub fn relation_output(edge: &Edge) -> (r: RelationOutput)
    ensures
        r@ == relation_row(edge@),
{
    RelationOutput {
        from: edge.from.copied(),
        to: edge.to.copied(),
        role: RefRoleOutput::from(edge.role),
        confidence: ConfidenceOutput::from(edge.confidence),
        provenance: ProvenanceOutput::from(edge.provenance),
        occurrence: OccurrenceOutput {
            file: normalized_project_path(edge.occ.file.as_str()),
            line: edge.occ.line,
            column: edge.occ.col,
            byte: edge.occ.byte,
        },
    }
}

/// The rows of a list.
pub open spec fn relation_rows(v: Seq<RelationOutput>) -> Seq<RelationView> {
    v.map_values(|r: RelationOutput| r@)
}

/// The shown forms of relations, in their order.
pub open spec fn rows_of(v: Seq<EdgeView>) -> Seq<RelationView> {
    v.map_values(|e: EdgeView| relation_row(e))
}

/// Direction of a relation query.
#[derive(Debug, Clone, Copy, PartialEq, Eq, Structural)]
pub enum RelationDirection {
    Incoming,
    Outgoing,
}

/// The end of a relation at which a query looks.
pub open spec fn looked_at(direction: RelationDirection, e: EdgeView) -> IdView {
    match direction {
        RelationDirection::Incoming => e.to,
        RelationDirection::Outgoing => e.from,
    }
}

/// The relations that lead to, or from, one of the symbols and pass the filter: each
/// once, in the order of their keys.
pub open spec fn evidence_of(
    relations: Seq<EdgeView>,
    ids: Seq<IdView>,
    direction: RelationDirection,
    filter: EdgeFilter,
) -> Seq<EdgeView> {
    relations.filter(
        |e: EdgeView| ids.contains(looked_at(direction, e)) && filter.admits(e),
    )
}

/// Two ordered lists of the same relations are equal.
pub proof fn ordered_relations_are_determined(a: Seq<EdgeView>, b: Seq<EdgeView>)
    requires
        relations_ordered(a),
        relations_ordered(b),
        forall|e: EdgeView| #[trigger] a.contains(e) == b.contains(e),
    ensures
        a == b,
    decreases a.len(),
{
    if a.len() == 0 {
        if b.len() > 0 {
            assert(b.contains(b[0]));
            assert(a.contains(b[0]));
        }
        assert(a =~= b);
    } else {
        let x = a.last();
        assert(a[a.len() - 1] == x);
        assert(a.contains(x));
        assert(b.contains(x));
        let j = choose|j: int| 0 <= j < b.len() && b[j] == x;
        let y = b.last();
        assert(b[b.len() - 1] == y);
        assert(b.contains(y));
        assert(a.contains(y));
        let i = choose|i: int| 0 <= i < a.len() && a[i] == y;
        if j < b.len() - 1 {
            assert(key_lt(edge_key(b[j]), edge_key(b[b.len() - 1])));
            key_order_is_total(edge_key(x), edge_key(y));
            if i < a.len() - 1 {
                assert(key_lt(edge_key(a[i]), edge_key(a[a.len() - 1])));
            }
            assert(false);
        }
        let p = a.drop_last();
        let q = b.drop_last();
        assert(x == y);
        assert forall|e: EdgeView| #[trigger] p.contains(e) == q.contains(e) by {
            if p.contains(e) {
                let k = choose|k: int| 0 <= k < p.len() && p[k] == e;
                assert(a[k] == e);
                assert(key_lt(edge_key(a[k]), edge_key(a[a.len() - 1])));
                key_order_is_total(edge_key(e), edge_key(x));
                assert(a.contains(e));
                let m = choose|m: int| 0 <= m < b.len() && b[m] == e;
                assert(m < b.len() - 1);
                assert(q[m] == e);
            }
            if q.contains(e) {
                let k = choose|k: int| 0 <= k < q.len() && q[k] == e;
                assert(b[k] == e);
                assert(key_lt(edge_key(b[k]), edge_key(b[b.len() - 1])));
                key_order_is_total(edge_key(e), edge_key(x));
                assert(b.contains(e));
                assert(a.contains(e));
                let m = choose|m: int| 0 <= m < a.len() && a[m] == e;
                assert(m < a.len() - 1);
                assert(p[m] == e);
            }
        }
        assert(relations_ordered(p)) by {
            assert forall|s: int, t: int| 0 <= s < t < p.len() implies key_lt(
                edge_key(#[trigger] p[s]),
                edge_key(#[trigger] p[t]),
            ) by {
                assert(p[s] == a[s] && p[t] == a[t]);
            }
        }
        assert(relations_ordered(q)) by {
            assert forall|s: int, t: int| 0 <= s < t < q.len() implies key_lt(
                edge_key(#[trigger] q[s]),
                edge_key(#[trigger] q[t]),
            ) by {
                assert(q[s] == b[s] && q[t] == b[t]);
            }
        }
        ordered_relations_are_determined(p, q);
        assert(a =~= p.push(x));
        assert(b =~= q.push(y));
    }
}

/// The order in which a graph lists its relations does not matter: two lists of the
/// same relations, once they are in the order of their keys, show the same.
pub proof fn input_order_does_not_matter(a: Seq<Edge>, b: Seq<Edge>)
    requires
        a.to_multiset() == b.to_multiset(),
        strictly_sorted_by_key(a),
        strictly_sorted_by_key(b),
    ensures
        edges_seen(a) == edges_seen(b),
{
    let x = edges_seen(a);
    let y = edges_seen(b);
    assert(relations_ordered(x)) by {
        assert forall|i: int, j: int| 0 <= i < j < x.len() implies key_lt(
            edge_key(#[trigger] x[i]),
            edge_key(#[trigger] x[j]),
        ) by {
            assert(key_lt(a[i].key(), a[j].key()));
        }
    }
    assert(relations_ordered(y)) by {
        assert forall|i: int, j: int| 0 <= i < j < y.len() implies key_lt(
            edge_key(#[trigger] y[i]),
            edge_key(#[trigger] y[j]),
        ) by {
            assert(key_lt(b[i].key(), b[j].key()));
        }
    }
    lemma_same_multiset(b, a);
    reveal(same_members);
    ordered_relations_are_determined(x, y);
}

/// Equal keys mean equal relations.
#[verifier::opaque]
spec fn keys_determine(v: Seq<EdgeView>) -> bool {
    forall|i: int, j: int|
        0 <= i < v.len() && 0 <= j < v.len() && edge_key(#[trigger] v[i]) == edge_key(
            #[trigger] v[j],
        ) ==> v[i] == v[j]
}

/// The two lists hold the same relations.
#[verifier::opaque]
spec fn same_members(a: Seq<EdgeView>, b: Seq<EdgeView>) -> bool {
    forall|e: EdgeView| #[trigger] a.contains(e) == b.contains(e)
}

proof fn lemma_same_multiset(start: Seq<Edge>, all: Seq<Edge>)
    requires
        start.to_multiset() == all.to_multiset(),
    ensures
        same_members(edges_seen(all), edges_seen(start)),
{
    reveal(same_members);
    start.to_multiset_ensures();
    all.to_multiset_ensures();
    let a = edges_seen(all);
    let b = edges_seen(start);
    assert forall|e: EdgeView| #[trigger] a.contains(e) == b.contains(e) by {
        if a.contains(e) {
            let i = choose|i: int| 0 <= i < a.len() && a[i] == e;
            assert(all.contains(all[i]));
            assert(start.to_multiset().count(all[i]) > 0);
            assert(start.contains(all[i]));
            let k = choose|k: int| 0 <= k < start.len() && start[k] == all[i];
            assert(b[k] == e);
        }
        if b.contains(e) {
            let i = choose|i: int| 0 <= i < b.len() && b[i] == e;
            assert(start.contains(start[i]));
            assert(all.to_multiset().count(start[i]) > 0);
            assert(all.contains(start[i]));
            let k = choose|k: int| 0 <= k < all.len() && all[k] == start[i];
            assert(a[k] == e);
        }
    }
}

proof fn lemma_keys_determine_members(a: Seq<EdgeView>, b: Seq<EdgeView>)
    requires
        keys_determine(a),
        same_members(b, a),
    ensures
        keys_determine(b),
{
    reveal(same_members);
    reveal(keys_determine);
    assert forall|i: int, j: int|
        0 <= i < b.len() && 0 <= j < b.len() && edge_key(#[trigger] b[i]) == edge_key(
            #[trigger] b[j],
        ) implies b[i] == b[j] by {
        assert(b.contains(b[i]) && b.contains(b[j]));
        assert(a.contains(b[i]) && a.contains(b[j]));
        let s = choose|s: int| 0 <= s < a.len() && a[s] == b[i];
        let t = choose|t: int| 0 <= t < a.len() && a[t] == b[j];
        assert(a[s] == a[t]);
    }
}

proof fn lemma_key_determines(v: Seq<EdgeView>, i: int, j: int)
    requires
        keys_determine(v),
        0 <= i < v.len(),
        0 <= j < v.len(),
        edge_key(v[i]) == edge_key(v[j]),
    ensures
        v[i] == v[j],
{
    reveal(keys_determine);
}

proof fn lemma_contains_push(a: Seq<EdgeView>, e: EdgeView, x: EdgeView)
    ensures
        a.push(e).contains(x) == (a.contains(x) || x == e),
{
    let b = a.push(e);
    if a.contains(x) {
        let k = choose|k: int| 0 <= k < a.len() && a[k] == x;
        assert(b[k] == x);
    }
    if x == e {
        assert(b[a.len() as int] == x);
    }
    if b.contains(x) && x != e {
        let k = choose|k: int| 0 <= k < b.len() && b[k] == x;
        assert(a[k] == x);
    }
}

proof fn lemma_same_members_push(a: Seq<EdgeView>, b: Seq<EdgeView>, e: EdgeView)
    requires
        same_members(a, b),
    ensures
        same_members(a.push(e), b.push(e)),
{
    reveal(same_members);
    assert forall|x: EdgeView| #[trigger] a.push(e).contains(x) == b.push(e).contains(x) by {
        lemma_contains_push(a, e, x);
        lemma_contains_push(b, e, x);
        assert(a.contains(x) == b.contains(x));
    }
}

proof fn lemma_same_members_again(a: Seq<EdgeView>, b: Seq<EdgeView>, e: EdgeView)
    requires
        same_members(a, b),
        b.contains(e),
    ensures
        same_members(a, b.push(e)),
{
    reveal(same_members);
    assert forall|x: EdgeView| #[trigger] a.contains(x) == b.push(e).contains(x) by {
        lemma_contains_push(b, e, x);
    }
}

/// The relations are ordered.
#[verifier::opaque]
spec fn in_order(v: Seq<EdgeView>) -> bool {
    relations_ordered(v)
}

/// No value comes before an earlier one.
#[verifier::opaque]
spec fn ascending(v: Seq<Edge>) -> bool {
    sorted_by_key(v)
}

proof fn lemma_neighbours_ascend(v: Seq<Edge>, i: int)
    requires
        ascending(v),
        0 < i < v.len(),
    ensures
        !key_lt(v[i].key(), v[i - 1].key()),
{
    reveal(ascending);
    assert(key_le(v[i - 1].key(), v[i].key()));
}

proof fn lemma_ordered_push(a: Seq<EdgeView>, e: EdgeView)
    requires
        in_order(a),
        a.len() > 0 ==> key_lt(edge_key(a[a.len() - 1]), edge_key(e)),
    ensures
        in_order(a.push(e)),
{
    reveal(in_order);
    let b = a.push(e);
    assert forall|s: int, t: int| 0 <= s < t < b.len() implies key_lt(
        edge_key(#[trigger] b[s]),
        edge_key(#[trigger] b[t]),
    ) by {
        assert(b[s] == a[s]);
        if t < a.len() {
            assert(b[t] == a[t]);
        } else {
            let l = a.len() - 1;
            if s < l {
                assert(key_lt(edge_key(a[s]), edge_key(a[l])));
                key_order_is_transitive(edge_key(a[s]), edge_key(a[l]), edge_key(e));
            }
        }
    }
}

/// Orders relations and keeps one of each key.
fn distinct_in_order(edges: Vec<Edge>) -> (r: Vec<Edge>)
    requires
        keys_determine(edges_seen(edges@)),
    ensures
        relations_ordered(edges_seen(r@)),
        forall|e: EdgeView| #[trigger]
            edges_seen(r@).contains(e) == edges_seen(edges@).contains(e),
{
    let ghost start = edges@;
    let sorted = stable_sort(edges);
    let ghost all = sorted@;
    let ghost seen = edges_seen(all);
    proof {
        reveal(ascending);
        reveal(in_order);
        reveal(same_members);
        lemma_same_multiset(start, all);
        lemma_keys_determine_members(edges_seen(start), seen);
    }
    let count = sorted.len();
    let mut rest = reversed(sorted);
    let mut kept: Vec<Edge> = Vec::new();
    let mut i: usize = 0;
    assert(edges_seen(kept@) =~= Seq::<EdgeView>::empty());
    while i < count
        invariant
            i <= count,
            count == all.len(),
            seen == edges_seen(all),
            ascending(all),
            keys_determine(seen),
            rest@ == all.skip(i as int).reverse(),
            kept@.len() <= i,
            i > 0 ==> kept@.len() > 0 && kept@.last()@ == seen[i - 1],
            in_order(edges_seen(kept@)),
            same_members(edges_seen(kept@), seen.take(i as int)),
        decreases count - i,
    {
        let edge = match rest.pop() {
            Some(edge) => edge,
            None => {
                assert(false);
                return kept;
            },
        };
        let ghost before = kept@;
        let ghost shown = edges_seen(before);
        let ghost e = edge@;
        proof {
            assert(edge == all[i as int]);
            assert(seen[i as int] == e);
            assert(rest@ =~= all.skip(i + 1).reverse());
            assert(seen.take(i + 1) =~= seen.take(i as int).push(e));
        }
        let repeated = if kept.len() > 0 {
            let last = kept[kept.len() - 1].sort_key();
            let here = edge.sort_key();
            proof {
                lemma_neighbours_ascend(all, i as int);
                assert(all[i - 1]@ == seen[i - 1]);
                key_order_is_total(last@, here@);
            }
            !key_less(&last, &here)
        } else {
            false
        };
        if repeated {
            proof {
                assert(edge_key(seen[i - 1]) == edge_key(seen[i as int]));
                lemma_key_determines(seen, i - 1, i as int);
                assert(seen.take(i as int)[i - 1] == e);
                lemma_same_members_again(shown, seen.take(i as int), e);
            }
        } else {
            kept.push(edge);
            proof {
                assert(edges_seen(kept@) =~= shown.push(e));
                lemma_same_members_push(shown, seen.take(i as int), e);
                if shown.len() > 0 {
                    assert(shown[shown.len() - 1] == before.last()@);
                }
                lemma_ordered_push(shown, e);
            }
        }
        i += 1;
    }
    proof {
        assert(seen.take(seen.len() as int) =~= seen);
        reveal(in_order);
        reveal(same_members);
    }
    kept
}

proof fn lemma_ordered_keys_determine(v: Seq<EdgeView>, all: Seq<EdgeView>)
    requires
        relations_ordered(all),
        forall|e: EdgeView| #[trigger] v.contains(e) ==> all.contains(e),
    ensures
        keys_determine(v),
{
    reveal(keys_determine);
    assert forall|i: int, j: int|
        0 <= i < v.len() && 0 <= j < v.len() && edge_key(#[trigger] v[i]) == edge_key(
            #[trigger] v[j],
        ) implies v[i] == v[j] by {
        assert(v.contains(v[i]) && v.contains(v[j]));
        let s = choose|s: int| 0 <= s < all.len() && all[s] == v[i];
        let t = choose|t: int| 0 <= t < all.len() && all[t] == v[j];
        key_order_is_total(edge_key(all[s]), edge_key(all[t]));
        if s < t {
            assert(key_lt(edge_key(all[s]), edge_key(all[t])));
        } else if t < s {
            assert(key_lt(edge_key(all[t]), edge_key(all[s])));
        }
    }
}

/// A relation is evidence exactly when it is one of the graph, touches one of the
/// symbols and passes the filter.
pub proof fn evidence_is_exact(
    relations: Seq<EdgeView>,
    ids: Seq<IdView>,
    direction: RelationDirection,
    filter: EdgeFilter,
    e: EdgeView,
)
    ensures
        evidence_of(relations, ids, direction, filter).contains(e) <==> (relations.contains(e)
            && ids.contains(looked_at(direction, e)) && filter.admits(e)),
    decreases relations.len(),
{
    reveal(Seq::filter);
    let all = evidence_of(relations, ids, direction, filter);
    if relations.len() > 0 {
        let rest = relations.drop_last();
        let last = relations.last();
        let kept = evidence_of(rest, ids, direction, filter);
        evidence_is_exact(rest, ids, direction, filter, e);
        let p = |e: EdgeView| ids.contains(looked_at(direction, e)) && filter.admits(e);
        assert(all == relations.filter(p) && kept == rest.filter(p));
        lemma_contains_push(rest, last, e);
        assert(relations =~= rest.push(last));
        if p(last) {
            assert(all == kept.push(last));
            lemma_contains_push(kept, last, e);
        }
    }
}

/// The relations of a symbol in a direction.
pub open spec fn scope_of(direction: RelationDirection, id: IdView) -> EdgeScopeView {
    match direction {
        RelationDirection::Incoming => EdgeScopeView::Into(id),
        RelationDirection::Outgoing => EdgeScopeView::From(id),
    }
}

/// Collects the relations of all symbols: a relation of several of them comes once,
/// and all of them stand in the order of their keys.
pub fn collect_relation_evidence_read<R: GraphRead>(
    graph: &R,
    ids: &Vec<SymbolId>,
    direction: RelationDirection,
    filter: EdgeFilter,
) -> (r: Result<Vec<Edge>, CliError>)
    ensures
        r matches Err(e) ==> graph.may_fail(e),
        r matches Ok(edges) ==> edges_seen(edges@) == evidence_of(
            graph.relations(),
            ids_seen(ids@),
            direction,
            filter,
        ),
{
    let ghost relations = graph.relations();
    let ghost wanted = ids_seen(ids@);
    let mut found: Vec<Edge> = Vec::new();
    let mut i: usize = 0;
    assert(edges_seen(found@) =~= Seq::<EdgeView>::empty());
    while i < ids.len()
        invariant
            i <= ids.len(),
            relations == graph.relations(),
            wanted == ids_seen(ids@),
            i > 0 ==> relations_ordered(relations),
            forall|e: EdgeView| #[trigger]
                edges_seen(found@).contains(e) <==> relations.contains(e) && filter.admits(e)
                    && wanted.take(i as int).contains(looked_at(direction, e)),
        decreases ids.len() - i,
    {
        let scope = match direction {
            RelationDirection::Incoming => EdgeScope::Into(&ids[i]),
            RelationDirection::Outgoing => EdgeScope::From(&ids[i]),
        };
        let mut more = match collect_edges(graph, scope, filter) {
            Ok(more) => more,
            Err(e) => {
                return Err(e);
            },
        };
        let ghost before = found@;
        let ghost added = more@;
        found.append(&mut more);
        proof {
            let id = wanted[i as int];
            assert(id == ids@[i as int]@);
            assert(edges_seen(found@) =~= edges_seen(before) + edges_seen(added));
            assert forall|e: EdgeView| #[trigger]
                edges_seen(found@).contains(e) <==> relations.contains(e) && filter.admits(e)
                    && wanted.take(i + 1).contains(looked_at(direction, e)) by {
                covered_relations_are_exact(relations, scope_of(direction, id), filter, e);
                lemma_contains_concat(edges_seen(before), edges_seen(added), e);
                let x = looked_at(direction, e);
                assert(wanted.take(i + 1) =~= wanted.take(i as int).push(id));
                let w = wanted.take(i as int);
                if w.contains(x) {
                    let k = choose|k: int| 0 <= k < w.len() && w[k] == x;
                    assert(w.push(id)[k] == x);
                }
                if x == id {
                    assert(w.push(id)[i as int] == x);
                }
                if w.push(id).contains(x) && x != id {
                    let k = choose|k: int| 0 <= k < w.push(id).len() && w.push(id)[k] == x;
                    assert(w[k] == x);
                }
            }
            // A read that succeeded tells that the relations are ordered.
            assert(relations_ordered(relations));
        }
        i += 1;
    }
    proof {
        assert(wanted.take(wanted.len() as int) =~= wanted);
    }
    let ghost evidence = evidence_of(relations, wanted, direction, filter);
    if ids.len() == 0 {
        proof {
            if evidence.len() > 0 {
                assert(evidence.contains(evidence[0]));
                evidence_is_exact(relations, wanted, direction, filter, evidence[0]);
            }
            assert(edges_seen(found@) =~= evidence) by {
                if edges_seen(found@).len() > 0 {
                    assert(edges_seen(found@).contains(edges_seen(found@)[0]));
                }
            }
        }
        return Ok(found);
    }
    proof {
        lemma_ordered_keys_determine(edges_seen(found@), relations);
    }
    let edges = distinct_in_order(found);
    proof {
        let p = |e: EdgeView| wanted.contains(looked_at(direction, e)) && filter.admits(e);
        assert(evidence == relations.filter(p));
        picked_relations_are_ordered(relations, p);
        assert forall|e: EdgeView| #[trigger] edges_seen(edges@).contains(e) == evidence.contains(
            e,
        ) by {
            evidence_is_exact(relations, wanted, direction, filter, e);
        }
        ordered_relations_are_determined(edges_seen(edges@), evidence);
    }
    Ok(edges)
}

proof fn lemma_contains_concat(a: Seq<EdgeView>, b: Seq<EdgeView>, e: EdgeView)
    ensures
        (a + b).contains(e) == (a.contains(e) || b.contains(e)),
{
    let c = a + b;
    if a.contains(e) {
        let k = choose|k: int| 0 <= k < a.len() && a[k] == e;
        assert(c[k] == e);
    }
    if b.contains(e) {
        let k = choose|k: int| 0 <= k < b.len() && b[k] == e;
        assert(c[a.len() + k] == e);
    }
    if c.contains(e) {
        let k = choose|k: int| 0 <= k < c.len() && c[k] == e;
        if k < a.len() {
            assert(a[k] == e);
        } else {
            assert(b[k - a.len()] == e);
        }
    }
}

/// The shown forms of relations, in their order.
pub fn relation_outputs(edges: &Vec<Edge>) -> (r: Vec<RelationOutput>)
    ensures
        relation_rows(r@) == rows_of(edges_seen(edges@)),
{
    let mut r: Vec<RelationOutput> = Vec::new();
    let mut i: usize = 0;
    while i < edges.len()
        invariant
            i <= edges.len(),
            r@.len() == i,
            forall|j: int| 0 <= j < i ==> (#[trigger] r@[j])@ == relation_row(edges@[j]@),
        decreases edges.len() - i,
    {
        r.push(relation_output(&edges[i]));
        i += 1;
    }
    assert(relation_rows(r@) =~= rows_of(edges_seen(edges@)));
    r
}

/// What a relation query asks for.
#[derive(Debug, Clone, Copy)]
pub struct RelationCommandRequest<'a> {
    pub file: Option<&'a str>,
    pub role: Option<RefRole>,
    pub direction: RelationDirection,
    pub result_limit: usize,
    pub min_confidence: Confidence,
}

/// The filter that a relation query applies.
pub open spec fn relation_filter(request: RelationCommandRequest<'_>) -> EdgeFilter {
    EdgeFilter { role: request.role, min_confidence: request.min_confidence, provenance: None }
}

/// The result answers a query for relations.
pub open spec fn is_relations_answer<R: GraphRead, C: Cancellation>(
    context: QueryCommandContext<'_, R, C>,
    request: RelationCommandRequest<'_>,
    resolution: SelectorResolution,
    r: Result<OutputEnvelope<Vec<RelationOutput>>, CliError>,
) -> bool {
    match r {
        Ok(e) => {
            &&& !file_refused(request.file)
            &&& is_query_envelope(e, *context.loaded)
            &&& e.selector is Some
            &&& is_selector_report(e.selector->0, resolution)
            &&& counts_told(
                e,
                relation_rows(e.results@),
                rows_of(
                    evidence_of(
                        context.index.relations(),
                        ids_seen(resolution.ids@),
                        request.direction,
                        relation_filter(request),
                    ),
                ),
                request.result_limit,
            )
        },
        Err(e) => context.interrupted_by(e) || is_refusal(e, request.file)
            || context.index.may_fail(e),
    }
}

/// Runs a query for callers, callees or usages over everything that the selector
/// resolved to.
pub fn execute_relations<R: GraphRead, C: Cancellation>(
    context: &QueryCommandContext<'_, R, C>,
    request: RelationCommandRequest<'_>,
    resolution: SelectorResolution,
) -> (r: Result<OutputEnvelope<Vec<RelationOutput>>, CliError>)
    ensures
        is_relations_answer(*context, request, resolution, r),
        context.heeds(failure_of(r)),
{
    context.deadline.check(context.cancellation)?;
    match requested_file(request.file) {
        Ok(_) => {},
        Err(e) => {
            return Err(e);
        },
    }
    let filter = EdgeFilter {
        role: request.role,
        min_confidence: request.min_confidence,
        provenance: None,
    };
    let edges = match collect_relation_evidence_read(
        context.index,
        &resolution.ids,
        request.direction,
        filter,
    ) {
        Ok(edges) => edges,
        Err(e) => {
            return Err(e);
        },
    };
    let mut results = relation_outputs(&edges);
    let ghost complete = results@;
    context.deadline.check(context.cancellation)?;
    let (total, truncated) = limit(&mut results, request.result_limit);
    let returned = results.len();
    proof {
        assert(relation_rows(complete).len() == complete.len());
        assert(relation_rows(results@) =~= first_rows(
            relation_rows(complete),
            request.result_limit,
        ));
    }
    let mut envelope = query_envelope(context.loaded, results);
    envelope.selector = Some(selector_output(resolution));
    envelope.total = total;
    envelope.returned = returned;
    envelope.truncated = truncated;
    Ok(envelope)
}

} // verus!
