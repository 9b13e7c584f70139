//! Reading everything that a query asks for, page after page.

use vstd::prelude::*;
use crate::error::CliError;
use crate::graph::{edge_key, id_key, Edge, EdgeView, Symbol, SymbolId, SymbolView};
use crate::ordering::{key_lt, key_order_is_total};
use crate::query::index::{
    definitions_covered, definitions_ordered, edges_after, edges_seen, id_of, is_edge_page,
    is_symbol_page, key_of, relations_covered, relations_ordered, symbols_after, symbols_seen,
    EdgeFilter, EdgeKey, EdgeScope, GraphPage, GraphRead, SymbolScope,
};

verus! {

/// How many values one page holds at most.
pub const PAGE_LIMIT: usize = 256;

proof fn lemma_filter_within<A>(s: Seq<A>, p: spec_fn(A) -> bool, q: spec_fn(A) -> bool)
    requires
        forall|i: int| 0 <= i < s.len() ==> q(#[trigger] s[i]),
    ensures
        forall|i: int| 0 <= i < s.filter(p).len() ==> q(#[trigger] s.filter(p)[i]),
    decreases s.len(),
{
    reveal(Seq::filter);
    if s.len() > 0 {
        let rest = s.drop_last();
        assert forall|i: int| 0 <= i < rest.len() implies q(#[trigger] rest[i]) by {
            assert(rest[i] == s[i]);
        }
        lemma_filter_within(rest, p, q);
        assert(q(s[s.len() - 1]));
        let kept = rest.filter(p);
        assert forall|i: int| 0 <= i < s.filter(p).len() implies q(#[trigger] s.filter(p)[i]) by {
            if i < kept.len() {
                assert(s.filter(p)[i] == kept[i]);
            } else {
                assert(s.filter(p)[i] == s.last());
            }
        }
    }
}

/// Relations that were picked from an ordered list are ordered.
pub proof fn picked_relations_are_ordered(s: Seq<EdgeView>, p: spec_fn(EdgeView) -> bool)
    requires
        relations_ordered(s),
    ensures
        relations_ordered(s.filter(p)),
    decreases s.len(),
{
    reveal(Seq::filter);
    if s.len() > 0 {
        let rest = s.drop_last();
        let last = s.last();
        assert(relations_ordered(rest)) by {
            assert forall|i: int, j: int| 0 <= i < j < rest.len() implies key_lt(
                edge_key(#[trigger] rest[i]),
                edge_key(#[trigger] rest[j]),
            ) by {
                assert(rest[i] == s[i] && rest[j] == s[j]);
            }
        }
        picked_relations_are_ordered(rest, p);
        let q = |e: EdgeView| key_lt(edge_key(e), edge_key(last));
        assert forall|i: int| 0 <= i < rest.len() implies q(#[trigger] rest[i]) by {
            assert(rest[i] == s[i] && last == s[s.len() - 1]);
        }
        lemma_filter_within(rest, p, q);
        let kept = rest.filter(p);
        if p(last) {
            let all = kept.push(last);
            assert forall|i: int, j: int| 0 <= i < j < all.len() implies key_lt(
                edge_key(#[trigger] all[i]),
                edge_key(#[trigger] all[j]),
            ) by {
                assert(all[i] == kept[i]);
                assert(q(kept[i]));
                if j < kept.len() {
                    assert(all[j] == kept[j]);
                }
            }
        }
    }
}

/// Definitions that were picked from an ordered list are ordered.
pub proof fn picked_definitions_are_ordered(s: Seq<SymbolView>, p: spec_fn(SymbolView) -> bool)
    requires
        definitions_ordered(s),
    ensures
        definitions_ordered(s.filter(p)),
    decreases s.len(),
{
    reveal(Seq::filter);
    if s.len() > 0 {
        let rest = s.drop_last();
        let last = s.last();
        assert(definitions_ordered(rest)) by {
            assert forall|i: int, j: int| 0 <= i < j < rest.len() implies key_lt(
                id_key((#[trigger] rest[i]).id),
                id_key((#[trigger] rest[j]).id),
            ) by {
                assert(rest[i] == s[i] && rest[j] == s[j]);
            }
        }
        picked_definitions_are_ordered(rest, p);
        let q = |e: SymbolView| key_lt(id_key(e.id), id_key(last.id));
        assert forall|i: int| 0 <= i < rest.len() implies q(#[trigger] rest[i]) by {
            assert(rest[i] == s[i] && last == s[s.len() - 1]);
        }
        lemma_filter_within(rest, p, q);
        let kept = rest.filter(p);
        if p(last) {
            let all = kept.push(last);
            assert forall|i: int, j: int| 0 <= i < j < all.len() implies key_lt(
                id_key((#[trigger] all[i]).id),
                id_key((#[trigger] all[j]).id),
            ) by {
                assert(all[i] == kept[i]);
                assert(q(kept[i]));
                if j < kept.len() {
                    assert(all[j] == kept[j]);
                }
            }
        }
    }
}

proof fn lemma_filter_skips<A>(s: Seq<A>, n: int, q: spec_fn(A) -> bool)
    requires
        0 <= n <= s.len(),
        forall|i: int| 0 <= i < n ==> !q(#[trigger] s[i]),
        forall|i: int| n <= i < s.len() ==> q(#[trigger] s[i]),
    ensures
        s.filter(q) == s.skip(n),
    decreases s.len(),
{
    reveal(Seq::filter);
    if s.len() > 0 {
        let rest = s.drop_last();
        if n < s.len() {
            assert forall|i: int| 0 <= i < n implies !q(#[trigger] rest[i]) by {
                assert(rest[i] == s[i]);
            }
            assert forall|i: int| n <= i < rest.len() implies q(#[trigger] rest[i]) by {
                assert(rest[i] == s[i]);
            }
            lemma_filter_skips(rest, n, q);
            assert(q(s[s.len() - 1]));
            assert(s.skip(n) =~= rest.skip(n).push(s.last()));
        } else {
            assert forall|i: int| 0 <= i < n - 1 implies !q(#[trigger] rest[i]) by {
                assert(rest[i] == s[i]);
            }
            lemma_filter_skips(rest, n - 1, q);
            assert(!q(s[s.len() - 1]));
            assert(s.skip(n) =~= rest.skip(n - 1));
        }
    } else {
        assert(s.filter(q) =~= s.skip(n));
    }
}

/// What comes after the relation at a place of an ordered list is the rest of it.
proof fn lemma_edges_after(s: Seq<EdgeView>, n: int)
    requires
        relations_ordered(s),
        0 < n <= s.len(),
    ensures
        edges_after(s, Some(edge_key(s[n - 1]))) == s.skip(n),
{
    let key = edge_key(s[n - 1]);
    let q = |e: EdgeView| key_lt(key, edge_key(e));
    assert forall|i: int| 0 <= i < n implies !q(#[trigger] s[i]) by {
        key_order_is_total(edge_key(s[i]), key);
    }
    assert forall|i: int| n <= i < s.len() implies q(#[trigger] s[i]) by {}
    lemma_filter_skips(s, n, q);
}

/// What comes after the definition at a place of an ordered list is the rest of it.
proof fn lemma_symbols_after(s: Seq<SymbolView>, n: int)
    requires
        definitions_ordered(s),
        0 < n <= s.len(),
    ensures
        symbols_after(s, Some(s[n - 1].id)) == s.skip(n),
{
    let id = s[n - 1].id;
    let q = |e: SymbolView| key_lt(id_key(id), id_key(e.id));
    assert forall|i: int| 0 <= i < n implies !q(#[trigger] s[i]) by {
        key_order_is_total(id_key(s[i].id), id_key(id));
    }
    assert forall|i: int| n <= i < s.len() implies q(#[trigger] s[i]) by {}
    lemma_filter_skips(s, n, q);
}

/// Reads one page of relations.
fn read_edges<R: GraphRead>(
    graph: &R,
    scope: EdgeScope<'_>,
    filter: EdgeFilter,
    after: Option<&EdgeKey>,
) -> (r: Result<GraphPage<Edge, EdgeKey>, CliError>)
    ensures
        r matches Err(e) ==> graph.may_fail(e),
        r matches Ok(page) ==> relations_ordered(graph.relations()) && is_edge_page(
            page,
            relations_covered(graph.relations(), scope@, filter),
            key_of(after),
            PAGE_LIMIT,
        ),
{
    match scope {
        EdgeScope::All => graph.edges(filter, after, PAGE_LIMIT),
        EdgeScope::InFile(file) => graph.edges_in_file(file, filter, after, PAGE_LIMIT),
        EdgeScope::Into(id) => graph.incoming(id, filter, after, PAGE_LIMIT),
        EdgeScope::From(id) => graph.outgoing(id, filter, after, PAGE_LIMIT),
    }
}

/// Reads one page of definitions.
fn read_symbols<R: GraphRead>(
    graph: &R,
    scope: SymbolScope<'_>,
    after: Option<&SymbolId>,
) -> (r: Result<GraphPage<Symbol, SymbolId>, CliError>)
    ensures
        r matches Err(e) ==> graph.may_fail(e),
        r matches Ok(page) ==> definitions_ordered(graph.definitions()) && is_symbol_page(
            page,
            definitions_covered(graph.definitions(), scope@),
            id_of(after),
            PAGE_LIMIT,
        ),
{
    match scope {
        SymbolScope::All => graph.symbols(after, PAGE_LIMIT),
        SymbolScope::InFile(file) => graph.symbols_in_file(file, after, PAGE_LIMIT),
        SymbolScope::Named(name) => graph.symbols_named(name, after, PAGE_LIMIT),
        SymbolScope::Displayed(scip) => graph.symbols_with_scip(scip, after, PAGE_LIMIT),
    }
}

/// Reads all relations that are asked for, page after page: none is lost between two
/// pages and none comes twice.
pub fn collect_edges<R: GraphRead>(graph: &R, scope: EdgeScope<'_>, filter: EdgeFilter) -> (r:
    Result<Vec<Edge>, CliError>)
    ensures
        r matches Err(e) ==> graph.may_fail(e),
        r matches Ok(edges) ==> edges_seen(edges@) == relations_covered(
            graph.relations(),
            scope@,
            filter,
        ) && relations_ordered(edges_seen(edges@)) && relations_ordered(graph.relations()),
{
    let ghost covered = relations_covered(graph.relations(), scope@, filter);
    let mut edges: Vec<Edge> = Vec::new();
    let mut after: Option<EdgeKey> = None;
    assert(edges_seen(edges@) =~= covered.take(0));
    loop
        invariant
            covered == relations_covered(graph.relations(), scope@, filter),
            edges@.len() <= covered.len(),
            edges_seen(edges@) == covered.take(edges@.len() as int),
            after is None ==> edges@.len() == 0,
            after matches Some(key) ==> edges@.len() > 0 && relations_ordered(covered) && key@
                == edge_key(covered[edges@.len() - 1]),
        decreases covered.len() - edges@.len(),
    {
        let ghost done = edges@;
        let cursor = after.as_ref();
        let page = match read_edges(graph, scope, filter, cursor) {
            Ok(page) => page,
            Err(e) => {
                return Err(e);
            },
        };
        let GraphPage { items, next } = page;
        let ghost rest = edges_after(covered, key_of(cursor));
        proof {
            picked_relations_are_ordered(
                graph.relations(),
                |e: EdgeView|
                    crate::query::index::edge_covered(scope@, e) && filter.admits(e),
            );
            assert(relations_ordered(covered));
            match after {
                Some(key) => {
                    lemma_edges_after(covered, edges@.len() as int);
                },
                None => {
                    assert(covered.skip(0) =~= covered);
                },
            }
            assert(rest == covered.skip(done.len() as int));
            assert(edges_seen(items@).len() == items@.len());
        }
        let mut items = items;
        let ghost taken = items@;
        edges.append(&mut items);
        proof {
            assert(edges_seen(edges@) =~= edges_seen(done) + edges_seen(taken));
            assert(edges_seen(edges@) =~= covered.take(edges@.len() as int));
        }
        match next {
            Some(key) => {
                proof {
                    assert(rest[PAGE_LIMIT - 1] == covered[done.len() + PAGE_LIMIT - 1]);
                }
                after = Some(key);
            },
            None => {
                assert(covered.take(covered.len() as int) =~= covered);
                return Ok(edges);
            },
        }
    }
}

/// Reads all definitions that are asked for, page after page: none is lost between
/// two pages and none comes twice.
pub fn collect_symbols<R: GraphRead>(graph: &R, scope: SymbolScope<'_>) -> (r: Result<
    Vec<Symbol>,
    CliError,
>)
    ensures
        r matches Err(e) ==> graph.may_fail(e),
        r matches Ok(symbols) ==> symbols_seen(symbols@) == definitions_covered(
            graph.definitions(),
            scope@,
        ) && definitions_ordered(symbols_seen(symbols@)) && definitions_ordered(graph.definitions()),
{
    let ghost covered = definitions_covered(graph.definitions(), scope@);
    let mut symbols: Vec<Symbol> = Vec::new();
    let mut after: Option<SymbolId> = None;
    assert(symbols_seen(symbols@) =~= covered.take(0));
    loop
        invariant
            covered == definitions_covered(graph.definitions(), scope@),
            symbols@.len() <= covered.len(),
            symbols_seen(symbols@) == covered.take(symbols@.len() as int),
            after is None ==> symbols@.len() == 0,
            after matches Some(id) ==> symbols@.len() > 0 && definitions_ordered(covered) && id@
                == covered[symbols@.len() - 1].id,
        decreases covered.len() - symbols@.len(),
    {
        let ghost done = symbols@;
        let cursor = after.as_ref();
        let page = match read_symbols(graph, scope, cursor) {
            Ok(page) => page,
            Err(e) => {
                return Err(e);
            },
        };
        let GraphPage { items, next } = page;
        let ghost rest = symbols_after(covered, id_of(cursor));
        proof {
            picked_definitions_are_ordered(
                graph.definitions(),
                |s: SymbolView| crate::query::index::symbol_covered(scope@, s),
            );
            assert(definitions_ordered(covered));
            match after {
                Some(id) => {
                    lemma_symbols_after(covered, symbols@.len() as int);
                },
                None => {
                    assert(covered.skip(0) =~= covered);
                },
            }
            assert(rest == covered.skip(done.len() as int));
            assert(symbols_seen(items@).len() == items@.len());
        }
        let mut items = items;
        let ghost taken = items@;
        symbols.append(&mut items);
        proof {
            assert(symbols_seen(symbols@) =~= symbols_seen(done) + symbols_seen(taken));
            assert(symbols_seen(symbols@) =~= covered.take(symbols@.len() as int));
        }
        match next {
            Some(id) => {
                proof {
                    assert(rest[PAGE_LIMIT - 1] == covered[done.len() + PAGE_LIMIT - 1]);
                }
                after = Some(id);
            },
            None => {
                assert(covered.take(covered.len() as int) =~= covered);
                return Ok(symbols);
            },
        }
    }
}

} // verus!
