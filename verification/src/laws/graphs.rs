//! Laws of graphs: an index holds what its graph holds, and tells apart what differs.

use vstd::prelude::*;
use vstd::string::*;
use crate::graph::{
    descriptors_key, edge_key, id_key, id_ok, kinds_ok, lemma_head_splits, lemma_id_ok,
    lemma_package_key_splits, lemma_text_key_splits, package_key, CodeGraph, DescriptorView, Edge,
    EdgeView, IdView, Symbol, SymbolView,
};
use crate::laws::dependencies::ends_are_valid;
use crate::laws::terms::defines_once;
use crate::ordering::{key_lt, key_order_is_total, strictly_sorted_by_key, Keyed};
use crate::query::index::{
    edges_seen, has_repeated_key, is_edge_page, symbols_seen, EdgeKey, GraphIndex, GraphIndexError,
    GraphPage, GraphRead,
};
use crate::text::text_key;

verus! {

proof fn lemma_descriptors_key_splits(
    a: Seq<DescriptorView>,
    b: Seq<DescriptorView>,
    x: Seq<u64>,
    y: Seq<u64>,
)
    requires
        kinds_ok(a),
        kinds_ok(b),
        descriptors_key(a) + x == descriptors_key(b) + y,
    ensures
        a == b,
        x == y,
    decreases a.len(),
{
    let s = descriptors_key(a) + x;
    let t = descriptors_key(b) + y;
    if a.len() == 0 && b.len() == 0 {
        assert(a =~= b);
        assert(x =~= s.skip(1));
        assert(y =~= t.skip(1));
    } else if a.len() == 0 {
        assert(s[0] == 0);
        assert(t[0] == b[0].kind);
    } else if b.len() == 0 {
        assert(t[0] == 0);
        assert(s[0] == a[0].kind);
    } else {
        let p = a.drop_first();
        let q = b.drop_first();
        assert(s =~= seq![a[0].kind] + (text_key(a[0].name) + (descriptors_key(p) + x)));
        assert(t =~= seq![b[0].kind] + (text_key(b[0].name) + (descriptors_key(q) + y)));
        lemma_head_splits(
            a[0].kind,
            b[0].kind,
            text_key(a[0].name) + (descriptors_key(p) + x),
            text_key(b[0].name) + (descriptors_key(q) + y),
        );
        lemma_text_key_splits(
            a[0].name,
            b[0].name,
            descriptors_key(p) + x,
            descriptors_key(q) + y,
        );
        assert(kinds_ok(p)) by {
            assert forall|i: int| 0 <= i < p.len() implies (#[trigger] p[i]).kind > 0 by {
                assert(a[i + 1].kind > 0);
            }
        }
        assert(kinds_ok(q)) by {
            assert forall|i: int| 0 <= i < q.len() implies (#[trigger] q[i]).kind > 0 by {
                assert(b[i + 1].kind > 0);
            }
        }
        lemma_descriptors_key_splits(p, q, x, y);
        assert(a =~= seq![a[0]] + p);
        assert(b =~= seq![b[0]] + q);
    }
}

proof fn lemma_id_key_splits(a: IdView, b: IdView, x: Seq<u64>, y: Seq<u64>)
    requires
        id_ok(a),
        id_ok(b),
        id_key(a) + x == id_key(b) + y,
    ensures
        a == b,
        x == y,
{
    let s = id_key(a) + x;
    let t = id_key(b) + y;
    assert(s[0] == id_key(a)[0] && t[0] == id_key(b)[0]);
    match (a, b) {
        (
            IdView::Global { language: l1, package: p1, descriptors: d1 },
            IdView::Global { language: l2, package: p2, descriptors: d2 },
        ) => {
            assert(s =~= seq![0u64] + (text_key(l1) + (package_key(p1) + (descriptors_key(d1)
                + x))));
            assert(t =~= seq![0u64] + (text_key(l2) + (package_key(p2) + (descriptors_key(d2)
                + y))));
            lemma_head_splits(
                0,
                0,
                text_key(l1) + (package_key(p1) + (descriptors_key(d1) + x)),
                text_key(l2) + (package_key(p2) + (descriptors_key(d2) + y)),
            );
            lemma_text_key_splits(
                l1,
                l2,
                package_key(p1) + (descriptors_key(d1) + x),
                package_key(p2) + (descriptors_key(d2) + y),
            );
            lemma_package_key_splits(p1, p2, descriptors_key(d1) + x, descriptors_key(d2) + y);
            lemma_descriptors_key_splits(d1, d2, x, y);
        },
        (IdView::Local { file: f1, id: i1 }, IdView::Local { file: f2, id: i2 }) => {
            assert(s =~= seq![1u64] + (text_key(f1) + (text_key(i1) + x)));
            assert(t =~= seq![1u64] + (text_key(f2) + (text_key(i2) + y)));
            lemma_head_splits(
                1,
                1,
                text_key(f1) + (text_key(i1) + x),
                text_key(f2) + (text_key(i2) + y),
            );
            lemma_text_key_splits(f1, f2, text_key(i1) + x, text_key(i2) + y);
            lemma_text_key_splits(i1, i2, x, y);
        },
        (IdView::Global { .. }, IdView::Local { .. }) => {
            assert(id_key(a)[0] == 0 && id_key(b)[0] == 1);
        },
        (IdView::Local { .. }, IdView::Global { .. }) => {
            assert(id_key(a)[0] == 1 && id_key(b)[0] == 0);
        },
    }
}

/// Relations are told apart by all that is evidence: their ends, their role, where they come
/// from, and the file, the line, the column and the byte at which they stand. Only how sure
/// they are is no part of it.
pub proof fn relations_are_told_apart(a: EdgeView, b: EdgeView)
    requires
        id_ok(a.from),
        id_ok(a.to),
        id_ok(b.from),
        id_ok(b.to),
        edge_key(a) == edge_key(b),
    ensures
        a.from == b.from,
        a.to == b.to,
        a.role == b.role,
        a.provenance == b.provenance,
        a.occ == b.occ,
{
    let pa = seq![a.occ.line as u64, a.occ.col as u64, a.occ.byte as u64, a.provenance.rank()];
    let pb = seq![b.occ.line as u64, b.occ.col as u64, b.occ.byte as u64, b.provenance.rank()];
    let ra = text_key(a.occ.file) + pa;
    let rb = text_key(b.occ.file) + pb;
    lemma_id_key_splits(
        a.from,
        b.from,
        id_key(a.to) + (seq![a.role.rank()] + ra),
        id_key(b.to) + (seq![b.role.rank()] + rb),
    );
    lemma_id_key_splits(a.to, b.to, seq![a.role.rank()] + ra, seq![b.role.rank()] + rb);
    lemma_head_splits(a.role.rank(), b.role.rank(), ra, rb);
    lemma_text_key_splits(a.occ.file, b.occ.file, pa, pb);
    assert(pa[0] == pb[0] && pa[1] == pb[1] && pa[2] == pb[2] && pa[3] == pb[3]);
}

/// An index holds what its graph holds: every definition and every relation, and no others; no
/// identity has two definitions in it. A graph is refused exactly where two of its definitions
/// have one identity, or two of its relations are the same evidence.
pub proof fn indexes_hold_their_graphs(graph: CodeGraph, r: Result<GraphIndex, GraphIndexError>)
    requires
        call_ensures(GraphIndex::from_graph, (graph,), r),
    ensures
        r matches Ok(index) ==> {
            &&& forall|s: SymbolView| #[trigger]
                index.definitions().contains(s) <==> symbols_seen(graph.symbols@).contains(s)
            &&& forall|e: EdgeView| #[trigger]
                index.relations().contains(e) <==> edges_seen(graph.edges@).contains(e)
            &&& index.definitions().len() == graph.symbols@.len()
            &&& index.relations().len() == graph.edges@.len()
            &&& defines_once(index.definitions())
            &&& ends_are_valid(index.relations())
        },
        r matches Err(GraphIndexError::DuplicateSymbol) ==> exists|i: int, j: int|
            0 <= i < j < graph.symbols@.len() && (#[trigger] graph.symbols@[i]).id@ == (
            #[trigger] graph.symbols@[j]).id@,
        r matches Err(GraphIndexError::DuplicateEdge) ==> exists|i: int, j: int|
            0 <= i < j < graph.edges@.len() && (#[trigger] graph.edges@[i])@.from == (
            #[trigger] graph.edges@[j])@.from && graph.edges@[i]@.to == graph.edges@[j]@.to
                && graph.edges@[i].role == graph.edges@[j].role && graph.edges@[i]@.occ
                == graph.edges@[j]@.occ,
        (exists|i: int, j: int|
            0 <= i < j < graph.symbols@.len() && (#[trigger] graph.symbols@[i]).id@ == (
            #[trigger] graph.symbols@[j]).id@) ==> r is Err,
{
    match r {
        Ok(index) => {
            let a = index.all_symbols();
            let b = graph.symbols@;
            let x = index.all_edges();
            let y = graph.edges@;
            a.to_multiset_ensures();
            b.to_multiset_ensures();
            x.to_multiset_ensures();
            y.to_multiset_ensures();
            assert forall|s: SymbolView| #[trigger]
                index.definitions().contains(s) <==> symbols_seen(b).contains(s) by {
                if symbols_seen(a).contains(s) {
                    lemma_seen_symbols(a, b, s);
                }
                if symbols_seen(b).contains(s) {
                    lemma_seen_symbols(b, a, s);
                }
            }
            assert forall|e: EdgeView| #[trigger]
                index.relations().contains(e) <==> edges_seen(y).contains(e) by {
                if edges_seen(x).contains(e) {
                    lemma_seen_edges(x, y, e);
                }
                if edges_seen(y).contains(e) {
                    lemma_seen_edges(y, x, e);
                }
            }
            lemma_sorted_defines_once(a);
            assert forall|i: int| 0 <= i < index.relations().len() implies id_ok(
                (#[trigger] index.relations()[i]).to,
            ) by {
                lemma_id_ok(x[i].to);
            }
            if exists|i: int, j: int|
                0 <= i < j < b.len() && (#[trigger] b[i]).id@ == (#[trigger] b[j]).id@ {
                let (i, j) = choose|i: int, j: int|
                    0 <= i < j < b.len() && (#[trigger] b[i]).id@ == (#[trigger] b[j]).id@;
                assert(b[i].key() == b[j].key());
                assert(has_repeated_key(b));
            }
        },
        Err(GraphIndexError::DuplicateSymbol) => {
            let b = graph.symbols@;
            let (i, j) = choose|i: int, j: int|
                0 <= i < j < b.len() && (#[trigger] b[i]).key() == (#[trigger] b[j]).key();
            lemma_id_ok(b[i].id);
            lemma_id_ok(b[j].id);
            crate::graph::id_key_is_lossless(b[i].id@, b[j].id@);
        },
        Err(GraphIndexError::DuplicateEdge) => {
            let y = graph.edges@;
            let (i, j) = choose|i: int, j: int|
                0 <= i < j < y.len() && (#[trigger] y[i]).key() == (#[trigger] y[j]).key();
            lemma_id_ok(y[i].from);
            lemma_id_ok(y[i].to);
            lemma_id_ok(y[j].from);
            lemma_id_ok(y[j].to);
            relations_are_told_apart(y[i]@, y[j]@);
        },
    }
}

proof fn lemma_seen_symbols(a: Seq<Symbol>, b: Seq<Symbol>, s: SymbolView)
    requires
        a.to_multiset() == b.to_multiset(),
        symbols_seen(a).contains(s),
    ensures
        symbols_seen(b).contains(s),
{
    a.to_multiset_ensures();
    b.to_multiset_ensures();
    let v = symbols_seen(a);
    let i = choose|i: int| 0 <= i < v.len() && v[i] == s;
    assert(a.contains(a[i]));
    assert(b.to_multiset().count(a[i]) > 0);
    assert(b.contains(a[i]));
    let j = choose|j: int| 0 <= j < b.len() && b[j] == a[i];
    assert(symbols_seen(b)[j] == s);
}

proof fn lemma_seen_edges(a: Seq<Edge>, b: Seq<Edge>, e: EdgeView)
    requires
        a.to_multiset() == b.to_multiset(),
        edges_seen(a).contains(e),
    ensures
        edges_seen(b).contains(e),
{
    a.to_multiset_ensures();
    b.to_multiset_ensures();
    let v = edges_seen(a);
    let i = choose|i: int| 0 <= i < v.len() && v[i] == e;
    assert(a.contains(a[i]));
    assert(b.to_multiset().count(a[i]) > 0);
    assert(b.contains(a[i]));
    let j = choose|j: int| 0 <= j < b.len() && b[j] == a[i];
    assert(edges_seen(b)[j] == e);
}

proof fn lemma_sorted_defines_once(a: Seq<Symbol>)
    requires
        strictly_sorted_by_key(a),
    ensures
        defines_once(symbols_seen(a)),
{
    let v = symbols_seen(a);
    assert forall|s: SymbolView, t: SymbolView| #[trigger]
        v.contains(s) && #[trigger] v.contains(t) && s.id == t.id implies s == t by {
        let i = choose|i: int| 0 <= i < v.len() && v[i] == s;
        let j = choose|j: int| 0 <= j < v.len() && v[j] == t;
        key_order_is_total(a[i].key(), a[j].key());
        if i < j {
            assert(key_lt(a[i].key(), a[j].key()));
        } else if j < i {
            assert(key_lt(a[j].key(), a[i].key()));
        }
    }
}

/// A page is never empty while there is more to read, holds no more than is asked for, and the
/// last page says that it is the last: reading on from where a page ends, page by page, comes
/// to an end.
pub proof fn pages_make_progress(
    page: GraphPage<Edge, EdgeKey>,
    all: Seq<EdgeView>,
    after: Option<Seq<u64>>,
    limit: usize,
)
    requires
        limit > 0,
        is_edge_page(page, all, after, limit),
    ensures
        page.items@.len() <= limit,
        page.next is Some ==> page.items@.len() == limit && page.next->0@ == edge_key(
            edges_seen(page.items@).last(),
        ),
        after is None && page.next is None ==> edges_seen(page.items@) == all,
{
    let rest = crate::query::index::edges_after(all, after);
    assert(edges_seen(page.items@).len() == page.items@.len());
    if after is None && page.next is None {
        assert(rest.take(rest.len() as int) =~= rest);
    }
}

} // verus!
