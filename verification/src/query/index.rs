//! An owned index over a resolved graph, and reading from it page by page.

use vstd::prelude::*;
use vstd::string::*;
use crate::error::CliError;
use crate::graph::{
    edge_key, id_display, id_key, CodeGraph, Confidence, Edge, EdgeView, IdView, Provenance,
    RefRole, Symbol, SymbolId, SymbolView,
};
use crate::ordering::{
    key_le, key_less, key_lt, key_order_is_total, key_order_is_transitive, is_stable_sort,
    reversed, sorted_by_key, stable_sort, strictly_sorted_by_key, with_key, Keyed,
};
use crate::text::same_text;

verus! {

/// Which relations a query sees.
#[derive(Debug, Clone, Copy, PartialEq, Eq, Structural)]
pub struct EdgeFilter {
    pub role: Option<RefRole>,
    pub min_confidence: Confidence,
    pub provenance: Option<Provenance>,
}

impl EdgeFilter {
    /// The relation passes the filter.
    pub open spec fn admits(self, e: EdgeView) -> bool {
        &&& self.role matches Some(role) ==> e.role == role
        &&& e.confidence.rank() >= self.min_confidence.rank()
        &&& self.provenance matches Some(provenance) ==> e.provenance == provenance
    }

    /// A filter by confidence alone.
    pub fn new(min_confidence: Confidence) -> (r: Self)
        ensures
            r == (EdgeFilter { role: None, min_confidence, provenance: None }),
    {
        EdgeFilter { role: None, min_confidence, provenance: None }
    }

    /// The filter for relations of one role.
    pub fn with_role(self, role: RefRole) -> (r: Self)
        ensures
            r == (EdgeFilter { role: Some(role), ..self }),
    {
        EdgeFilter {
            role: Some(role),
            min_confidence: self.min_confidence,
            provenance: self.provenance,
        }
    }

    /// Tells whether the relation passes the filter.
    pub fn matches(&self, e: &Edge) -> (r: bool)
        ensures
            r == self.admits(e@),
    {
        let role_fits = match self.role {
            Some(role) => e.role == role,
            None => true,
        };
        let provenance_fits = match self.provenance {
            Some(provenance) => e.provenance == provenance,
            None => true,
        };
        role_fits && e.confidence.at_least(self.min_confidence) && provenance_fits
    }
}

/// The definitions of a list.
pub open spec fn symbols_seen(v: Seq<Symbol>) -> Seq<SymbolView> {
    v.map_values(|s: Symbol| s@)
}

/// The relations of a list.
pub open spec fn edges_seen(v: Seq<Edge>) -> Seq<EdgeView> {
    v.map_values(|e: Edge| e@)
}

/// The definitions stand in the order of their identities, each once.
pub open spec fn definitions_ordered(v: Seq<SymbolView>) -> bool {
    forall|i: int, j: int|
        0 <= i < j < v.len() ==> key_lt(id_key((#[trigger] v[i]).id), id_key((#[trigger] v[j]).id))
}

/// The relations stand in the order of their keys, each once.
pub open spec fn relations_ordered(v: Seq<EdgeView>) -> bool {
    forall|i: int, j: int|
        0 <= i < j < v.len() ==> key_lt(edge_key(#[trigger] v[i]), edge_key(#[trigger] v[j]))
}

/// Two values of a list have one key.
pub open spec fn has_repeated_key<T: Keyed>(v: Seq<T>) -> bool {
    exists|i: int, j: int| 0 <= i < j < v.len() && (#[trigger] v[i]).key() == (#[trigger] v[j]).key()
}

/// Why a graph cannot be indexed.
#[derive(Debug, Clone, Copy, PartialEq, Eq, Structural)]
pub enum GraphIndexError {
    DuplicateSymbol,
    DuplicateEdge,
}

/// An owned, storage-free index over a resolved graph.
#[derive(Debug)]
pub struct GraphIndex {
    symbols: Vec<Symbol>,
    edges: Vec<Edge>,
}

proof fn lemma_repeated_key_survives<T: Keyed>(a: Seq<T>, b: Seq<T>)
    requires
        forall|k: Seq<u64>| #[trigger] with_key(a, k) == with_key(b, k),
        has_repeated_key(a),
    ensures
        has_repeated_key(b),
{
    let (i, j) = choose|i: int, j: int|
        0 <= i < j < a.len() && (#[trigger] a[i]).key() == (#[trigger] a[j]).key();
    let k = a[i].key();
    lemma_with_key_two(a, k, i, j);
    assert(with_key(b, k).len() >= 2);
    lemma_two_of_key(b, k);
}

proof fn lemma_with_key_one<T: Keyed>(s: Seq<T>, k: Seq<u64>, i: int)
    requires
        0 <= i < s.len(),
        s[i].key() == k,
    ensures
        with_key(s, k).len() >= 1,
    decreases s.len(),
{
    reveal(Seq::filter);
    if i == s.len() - 1 {
    } else {
        lemma_with_key_one(s.drop_last(), k, i);
    }
}

proof fn lemma_with_key_two<T: Keyed>(s: Seq<T>, k: Seq<u64>, i: int, j: int)
    requires
        0 <= i < j < s.len(),
        s[i].key() == k,
        s[j].key() == k,
    ensures
        with_key(s, k).len() >= 2,
    decreases s.len(),
{
    reveal(Seq::filter);
    if j == s.len() - 1 {
        lemma_with_key_one(s.drop_last(), k, i);
    } else {
        lemma_with_key_two(s.drop_last(), k, i, j);
    }
}

proof fn lemma_one_of_key<T: Keyed>(s: Seq<T>, k: Seq<u64>) -> (i: int)
    requires
        with_key(s, k).len() >= 1,
    ensures
        0 <= i < s.len(),
        s[i].key() == k,
    decreases s.len(),
{
    reveal(Seq::filter);
    if s.last().key() == k {
        s.len() - 1
    } else {
        lemma_one_of_key(s.drop_last(), k)
    }
}

proof fn lemma_two_of_key<T: Keyed>(s: Seq<T>, k: Seq<u64>)
    requires
        with_key(s, k).len() >= 2,
    ensures
        has_repeated_key(s),
    decreases s.len(),
{
    reveal(Seq::filter);
    let rest = s.drop_last();
    if s.last().key() == k {
        assert(with_key(rest, k).len() >= 1);
        let i = lemma_one_of_key(rest, k);
        assert(s[i] == rest[i]);
        assert(s[i].key() == s[s.len() - 1].key());
    } else {
        lemma_two_of_key(rest, k);
        let (i, j) = choose|i: int, j: int|
            0 <= i < j < rest.len() && (#[trigger] rest[i]).key() == (#[trigger] rest[j]).key();
        assert(s[i] == rest[i] && s[j] == rest[j]);
    }
}

/// Sorts values whose keys must differ.
fn sort_distinct<T: Keyed>(items: Vec<T>) -> (r: Option<Vec<T>>)
    ensures
        match r {
            Some(sorted) => strictly_sorted_by_key(sorted@) && sorted@.to_multiset()
                == items@.to_multiset() && !has_repeated_key(items@),
            None => has_repeated_key(items@),
        },
{
    let ghost start = items@;
    let sorted = stable_sort(items);
    let mut i: usize = 1;
    if sorted.len() == 0 {
        assert(!has_repeated_key(start)) by {
            if has_repeated_key(start) {
                lemma_repeated_key_survives(start, sorted@);
            }
        }
        return Some(sorted);
    }
    while i < sorted.len()
        invariant
            1 <= i <= sorted.len(),
            items@ == start,
            is_stable_sort(start, sorted@),
            forall|a: int, b: int|
                0 <= a < b < i ==> key_lt((#[trigger] sorted@[a]).key(), (#[trigger] sorted@[b]).key()),
        decreases sorted.len() - i,
    {
        let before = sorted[i - 1].sort_key();
        let here = sorted[i].sort_key();
        if !key_less(&before, &here) {
            proof {
                assert(key_le(sorted@[i - 1].key(), sorted@[i as int].key()));
                key_order_is_total(sorted@[i - 1].key(), sorted@[i as int].key());
                assert(sorted@[i - 1].key() == sorted@[i as int].key());
                lemma_repeated_key_survives(sorted@, start);
            }
            return None;
        }
        proof {
            assert forall|a: int, b: int| 0 <= a < b < i + 1 implies key_lt(
                (#[trigger] sorted@[a]).key(),
                (#[trigger] sorted@[b]).key(),
            ) by {
                if b == i && a < i - 1 {
                    key_order_is_transitive(
                        sorted@[a].key(),
                        sorted@[i - 1].key(),
                        sorted@[b].key(),
                    );
                }
            }
        }
        i += 1;
    }
    proof {
        if has_repeated_key(start) {
            lemma_repeated_key_survives(start, sorted@);
            let (a, b) = choose|a: int, b: int|
                0 <= a < b < sorted@.len() && (#[trigger] sorted@[a]).key() == (
                #[trigger] sorted@[b]).key();
            key_order_is_total(sorted@[a].key(), sorted@[b].key());
        }
    }
    Some(sorted)
}

/// Sorts values and keeps the first one of each key.
pub fn distinct_sorted<T: Keyed>(items: Vec<T>) -> (r: Vec<T>)
    ensures
        strictly_sorted_by_key(r@),
        forall|i: int| 0 <= i < r@.len() ==> items@.contains(#[trigger] r@[i]),
        forall|i: int| 0 <= i < items@.len() ==> has_key(r@, (#[trigger] items@[i]).key()),
{
    let ghost start = items@;
    let sorted = stable_sort(items);
    let ghost all = sorted@;
    proof {
        start.to_multiset_ensures();
        all.to_multiset_ensures();
    }
    let count = sorted.len();
    let mut rest = reversed(sorted);
    let mut kept: Vec<T> = Vec::new();
    let mut i: usize = 0;
    while i < count
        invariant
            i <= count,
            count == all.len(),
            sorted_by_key(all),
            rest@ == all.skip(i as int).reverse(),
            i > 0 ==> kept@.len() > 0 && kept@.last().key() == all[i - 1].key(),
            i == 0 ==> kept@.len() == 0,
            strictly_sorted_by_key(kept@),
            forall|j: int| 0 <= j < kept@.len() ==> all.contains(#[trigger] kept@[j]),
            forall|j: int| 0 <= j < i ==> has_key(kept@, (#[trigger] all[j]).key()),
        decreases count - i,
    {
        let item = match rest.pop() {
            Some(item) => item,
            None => {
                assert(false);
                return kept;
            },
        };
        let ghost before = kept@;
        proof {
            assert(item == all[i as int]);
            assert(all.contains(all[i as int]));
            assert(rest@ =~= all.skip(i + 1).reverse());
        }
        let repeated = if kept.len() > 0 {
            let last = kept[kept.len() - 1].sort_key();
            let here = item.sort_key();
            proof {
                assert(key_le(all[i - 1].key(), all[i as int].key()));
                key_order_is_total(last@, here@);
            }
            !key_less(&last, &here)
        } else {
            false
        };
        if repeated {
            assert(before[before.len() - 1].key() == all[i as int].key());
            assert(has_key(kept@, all[i as int].key()));
        } else {
            kept.push(item);
            proof {
                lemma_sorted_push(before, item);
                assert forall|j: int| 0 <= j < i + 1 implies has_key(
                    kept@,
                    (#[trigger] all[j]).key(),
                ) by {
                    if j < i {
                        let m = choose|m: int|
                            0 <= m < before.len() && (#[trigger] before[m]).key() == all[j].key();
                        assert(kept@[m].key() == all[j].key());
                    } else {
                        assert(kept@[before.len() as int].key() == all[j].key());
                    }
                }
                assert forall|j: int| 0 <= j < kept@.len() implies all.contains(
                    #[trigger] kept@[j],
                ) by {
                    if j < before.len() {
                        assert(kept@[j] == before[j]);
                    }
                }
            }
        }
        i += 1;
    }
    proof {
        assert forall|j: int| 0 <= j < kept@.len() implies start.contains(#[trigger] kept@[j]) by {
            assert(all.contains(kept@[j]));
            assert(all.to_multiset().count(kept@[j]) > 0);
        }
        assert forall|j: int| 0 <= j < start.len() implies has_key(
            kept@,
            (#[trigger] start[j]).key(),
        ) by {
            assert(start.contains(start[j]));
            assert(start.to_multiset().count(start[j]) > 0);
            assert(all.contains(start[j]));
            let m = choose|m: int| 0 <= m < all.len() && all[m] == start[j];
            assert(has_key(kept@, all[m].key()));
        }
    }
    kept
}

/// Some value has the key.
pub open spec fn has_key<T: Keyed>(v: Seq<T>, key: Seq<u64>) -> bool {
    exists|i: int| 0 <= i < v.len() && (#[trigger] v[i]).key() == key
}

proof fn lemma_sorted_push<T: Keyed>(v: Seq<T>, x: T)
    requires
        strictly_sorted_by_key(v),
        v.len() > 0 ==> key_lt(v[v.len() - 1].key(), x.key()),
    ensures
        strictly_sorted_by_key(v.push(x)),
{
    let w = v.push(x);
    assert forall|a: int, b: int| 0 <= a < b < w.len() implies key_lt(
        (#[trigger] w[a]).key(),
        (#[trigger] w[b]).key(),
    ) by {
        assert(w[a] == v[a]);
        if b < v.len() {
            assert(w[b] == v[b]);
        } else {
            let l = v.len() - 1;
            if a < l {
                assert(key_lt(v[a].key(), v[l].key()));
                key_order_is_transitive(v[a].key(), v[l].key(), x.key());
            }
        }
    }
}

/// How many of the values come before the key; they are the first ones.
pub fn lower_bound<T: Keyed>(items: &Vec<T>, key: &Vec<u64>) -> (r: usize)
    requires
        strictly_sorted_by_key(items@),
    ensures
        r <= items@.len(),
        forall|i: int| 0 <= i < r ==> key_lt((#[trigger] items@[i]).key(), key@),
        forall|i: int| r <= i < items@.len() ==> key_le(key@, (#[trigger] items@[i]).key()),
{
    let mut low: usize = 0;
    let mut high: usize = items.len();
    while low < high
        invariant
            low <= high <= items.len(),
            strictly_sorted_by_key(items@),
            forall|i: int| 0 <= i < low ==> key_lt((#[trigger] items@[i]).key(), key@),
            forall|i: int| high <= i < items@.len() ==> key_le(key@, (#[trigger] items@[i]).key()),
        decreases high - low,
    {
        let middle: usize = low + (high - low) / 2;
        let here = items[middle].sort_key();
        if key_less(&here, key) {
            proof {
                assert forall|i: int| 0 <= i < middle + 1 implies key_lt(
                    (#[trigger] items@[i]).key(),
                    key@,
                ) by {
                    if i < middle {
                        key_order_is_transitive(
                            items@[i].key(),
                            items@[middle as int].key(),
                            key@,
                        );
                    }
                }
            }
            low = middle + 1;
        } else {
            proof {
                key_order_is_total(here@, key@);
                assert(key_le(key@, items@[middle as int].key()));
                assert forall|i: int| middle <= i < items@.len() implies key_le(
                    key@,
                    (#[trigger] items@[i]).key(),
                ) by {
                    if i > middle {
                        assert(key_lt(items@[middle as int].key(), items@[i].key()));
                        key_order_is_transitive(
                            key@,
                            items@[middle as int].key(),
                            items@[i].key(),
                        );
                        key_order_is_total(key@, items@[i].key());
                    }
                }
            }
            high = middle;
        }
    }
    low
}

/// A part of an ordered list: the next values, and where more of them follow.
#[derive(Debug)]
pub struct GraphPage<T, K> {
    pub items: Vec<T>,
    pub next: Option<K>,
}

/// The key of a relation, which is where a page ends.
#[derive(Debug, Clone, PartialEq, Eq, PartialOrd, Ord)]
pub struct EdgeKey {
    words: Vec<u64>,
}

impl EdgeKey {
    /// The key.
    pub closed spec fn view(self) -> Seq<u64> {
        self.words@
    }

    /// The key of a relation.
    pub fn of(edge: &Edge) -> (r: Self)
        ensures
            r@ == edge_key(edge@),
    {
        EdgeKey { words: edge.sort_key() }
    }
}

/// The definitions of an ordered list that come after the identity.
pub open spec fn symbols_after(all: Seq<SymbolView>, after: Option<IdView>) -> Seq<SymbolView> {
    match after {
        Some(id) => all.filter(|s: SymbolView| key_lt(id_key(id), id_key(s.id))),
        None => all,
    }
}

/// The relations of an ordered list that come after the key.
pub open spec fn edges_after(all: Seq<EdgeView>, after: Option<Seq<u64>>) -> Seq<EdgeView> {
    match after {
        Some(key) => all.filter(|e: EdgeView| key_lt(key, edge_key(e))),
        None => all,
    }
}

/// The smaller of two numbers.
pub open spec fn smaller(a: int, b: int) -> int {
    if a < b {
        a
    } else {
        b
    }
}

/// The page holds the first definitions that come after the identity, and tells
/// where it ends when there are more.
pub open spec fn is_symbol_page(
    page: GraphPage<Symbol, SymbolId>,
    all: Seq<SymbolView>,
    after: Option<IdView>,
    limit: usize,
) -> bool {
    let rest = symbols_after(all, after);
    &&& symbols_seen(page.items@) == rest.take(smaller(limit as int, rest.len() as int))
    &&& (page.next is Some <==> rest.len() > limit)
    &&& page.next matches Some(next) ==> next@ == rest[limit - 1].id
}

/// The page holds the first relations that come after the key, and tells where it
/// ends when there are more.
pub open spec fn is_edge_page(
    page: GraphPage<Edge, EdgeKey>,
    all: Seq<EdgeView>,
    after: Option<Seq<u64>>,
    limit: usize,
) -> bool {
    let rest = edges_after(all, after);
    &&& edges_seen(page.items@) == rest.take(smaller(limit as int, rest.len() as int))
    &&& (page.next is Some <==> rest.len() > limit)
    &&& page.next matches Some(next) ==> next@ == edge_key(rest[limit - 1])
}

/// The identity of an optional one.
pub open spec fn id_of(id: Option<&SymbolId>) -> Option<IdView> {
    match id {
        Some(id) => Some(id@),
        None => None,
    }
}

/// The key of an optional one.
pub open spec fn key_of(key: Option<&EdgeKey>) -> Option<Seq<u64>> {
    match key {
        Some(key) => Some(key@),
        None => None,
    }
}

/// The definition of the identity.
pub open spec fn definition(all: Seq<SymbolView>, id: IdView, found: Option<SymbolView>) -> bool {
    match found {
        Some(s) => all.contains(s) && s.id == id,
        None => forall|i: int| 0 <= i < all.len() ==> (#[trigger] all[i]).id != id,
    }
}

/// The definition of the identity, if there is one.
pub open spec fn definition_of(all: Seq<SymbolView>, id: IdView) -> Option<SymbolView> {
    if exists|i: int| 0 <= i < all.len() && (#[trigger] all[i]).id == id {
        Some(all[choose|i: int| 0 <= i < all.len() && (#[trigger] all[i]).id == id])
    } else {
        None
    }
}

/// Among ordered definitions an identity has at most one: what is found for it is the
/// definition.
pub proof fn definitions_are_determined(
    all: Seq<SymbolView>,
    id: IdView,
    found: Option<SymbolView>,
)
    requires
        definitions_ordered(all),
        definition(all, id, found),
    ensures
        definition_of(all, id) == found,
{
    match found {
        Some(s) => {
            let j = choose|j: int| 0 <= j < all.len() && all[j] == s;
            assert(all[j].id == id);
            let i = choose|i: int| 0 <= i < all.len() && (#[trigger] all[i]).id == id;
            key_order_is_total(id_key(id), id_key(id));
            if i < j {
                assert(key_lt(id_key(all[i].id), id_key(all[j].id)));
            } else if j < i {
                assert(key_lt(id_key(all[j].id), id_key(all[i].id)));
            }
        },
        None => {},
    }
}

/// The identity is that of a definition or of an end of a relation.
pub open spec fn is_known(symbols: Seq<SymbolView>, edges: Seq<EdgeView>, id: IdView) -> bool {
    ||| exists|i: int| 0 <= i < symbols.len() && (#[trigger] symbols[i]).id == id
    ||| exists|i: int|
        0 <= i < edges.len() && ((#[trigger] edges[i]).from == id || edges[i].to == id)
}

/// Which definitions a query asks for.
pub enum SymbolScopeView {
    All,
    InFile(Seq<char>),
    Named(Seq<char>),
    Displayed(Seq<char>),
}

/// Which definitions a query asks for.
#[derive(Debug, Clone, Copy)]
pub enum SymbolScope<'a> {
    All,
    InFile(&'a str),
    Named(&'a str),
    Displayed(&'a str),
}

impl<'a> SymbolScope<'a> {
    /// The scope.
    pub open spec fn view(self) -> SymbolScopeView {
        match self {
            SymbolScope::All => SymbolScopeView::All,
            SymbolScope::InFile(s) => SymbolScopeView::InFile(s@),
            SymbolScope::Named(s) => SymbolScopeView::Named(s@),
            SymbolScope::Displayed(s) => SymbolScopeView::Displayed(s@),
        }
    }

    /// Tells whether the definition is asked for.
    pub fn covers(&self, symbol: &Symbol) -> (r: bool)
        ensures
            r == symbol_covered(self@, symbol@),
    {
        match self {
            SymbolScope::All => true,
            SymbolScope::InFile(file) => same_text(symbol.file.as_str(), file),
            SymbolScope::Named(name) => same_text(symbol.name.as_str(), name),
            SymbolScope::Displayed(scip) => {
                let display = symbol.id.to_scip_string();
                same_text(display.as_str(), scip)
            },
        }
    }
}

/// The definition is asked for.
pub open spec fn symbol_covered(scope: SymbolScopeView, s: SymbolView) -> bool {
    match scope {
        SymbolScopeView::All => true,
        SymbolScopeView::InFile(file) => s.file == file,
        SymbolScopeView::Named(name) => s.name == name,
        SymbolScopeView::Displayed(scip) => id_display(s.id) == scip,
    }
}

/// The definitions that are asked for.
pub open spec fn definitions_covered(all: Seq<SymbolView>, scope: SymbolScopeView) -> Seq<
    SymbolView,
> {
    all.filter(|s: SymbolView| symbol_covered(scope, s))
}

/// Which relations a query asks for.
pub enum EdgeScopeView {
    All,
    InFile(Seq<char>),
    Into(IdView),
    From(IdView),
}

/// Which relations a query asks for.
#[derive(Debug, Clone, Copy)]
pub enum EdgeScope<'a> {
    All,
    InFile(&'a str),
    Into(&'a SymbolId),
    From(&'a SymbolId),
}

impl<'a> EdgeScope<'a> {
    /// The scope.
    pub open spec fn view(self) -> EdgeScopeView {
        match self {
            EdgeScope::All => EdgeScopeView::All,
            EdgeScope::InFile(s) => EdgeScopeView::InFile(s@),
            EdgeScope::Into(id) => EdgeScopeView::Into(id@),
            EdgeScope::From(id) => EdgeScopeView::From(id@),
        }
    }

    /// Tells whether the relation is asked for.
    pub fn covers(&self, edge: &Edge) -> (r: bool)
        ensures
            r == edge_covered(self@, edge@),
    {
        match self {
            EdgeScope::All => true,
            EdgeScope::InFile(file) => same_text(edge.occ.file.as_str(), file),
            EdgeScope::Into(id) => edge.to.same(id),
            EdgeScope::From(id) => edge.from.same(id),
        }
    }
}

/// The relation is asked for.
pub open spec fn edge_covered(scope: EdgeScopeView, e: EdgeView) -> bool {
    match scope {
        EdgeScopeView::All => true,
        EdgeScopeView::InFile(file) => e.occ.file == file,
        EdgeScopeView::Into(id) => e.to == id,
        EdgeScopeView::From(id) => e.from == id,
    }
}

/// The relations that are asked for and pass the filter.
pub open spec fn relations_covered(
    all: Seq<EdgeView>,
    scope: EdgeScopeView,
    filter: EdgeFilter,
) -> Seq<EdgeView> {
    all.filter(|e: EdgeView| edge_covered(scope, e) && filter.admits(e))
}

/// A relation is among those that are asked for exactly when it is one of the graph,
/// lies in the scope and passes the filter.
pub proof fn covered_relations_are_exact(
    relations: Seq<EdgeView>,
    scope: EdgeScopeView,
    filter: EdgeFilter,
    e: EdgeView,
)
    ensures
        relations_covered(relations, scope, filter).contains(e) <==> (relations.contains(e)
            && filter.admits(e) && edge_covered(scope, e)),
    decreases relations.len(),
{
    reveal(Seq::filter);
    let all = relations_covered(relations, scope, filter);
    if relations.len() > 0 {
        let rest = relations.drop_last();
        let last = relations.last();
        let kept = relations_covered(rest, scope, filter);
        covered_relations_are_exact(rest, scope, filter, e);
        let p = |e: EdgeView| edge_covered(scope, e) && filter.admits(e);
        assert(all == relations.filter(p) && kept == rest.filter(p));
        if p(last) {
            assert(all == kept.push(last));
            assert(all[kept.len() as int] == last);
        }
        if rest.contains(e) {
            let i = choose|i: int| 0 <= i < rest.len() && rest[i] == e;
            assert(relations[i] == e);
        }
        if relations.contains(e) && !rest.contains(e) {
            let i = choose|i: int| 0 <= i < relations.len() && relations[i] == e;
            if i < rest.len() {
                assert(rest[i] == e);
            }
            assert(e == last);
        }
        if e == last {
            assert(relations[relations.len() - 1] == e);
        }
        if kept.contains(e) {
            let i = choose|i: int| 0 <= i < kept.len() && kept[i] == e;
            assert(all[i] == e);
        }
        if all.contains(e) && e != last {
            let i = choose|i: int| 0 <= i < all.len() && all[i] == e;
            assert(i < kept.len());
            assert(kept[i] == e);
        }
    }
}

/// A graph that is read page by page. A read may fail; one that succeeds tells the
/// truth about one fixed graph, whose definitions and relations are ordered.
pub trait GraphRead: Sized {
    /// The definitions of the graph.
    spec fn definitions(&self) -> Seq<SymbolView>;

    /// The relations of the graph.
    spec fn relations(&self) -> Seq<EdgeView>;

    /// A read may fail this way.
    spec fn may_fail(&self, e: CliError) -> bool;

    /// Returns the definition of the identity.
    fn symbol(&self, id: &SymbolId) -> (r: Result<Option<Symbol>, CliError>)
        ensures
            r matches Err(e) ==> self.may_fail(e),
            r matches Ok(found) ==> definitions_ordered(self.definitions()) && definition(
                self.definitions(),
                id@,
                match found {
                    Some(s) => Some(s@),
                    None => None,
                },
            ),
    ;

    /// Tells whether the identity is that of a definition or of an end of a relation.
    fn contains_id(&self, id: &SymbolId) -> (r: Result<bool, CliError>)
        ensures
            r matches Err(e) ==> self.may_fail(e),
            r matches Ok(known) ==> known == is_known(self.definitions(), self.relations(), id@),
    ;

    /// Returns the next definitions.
    fn symbols(&self, after: Option<&SymbolId>, limit: usize) -> (r: Result<
        GraphPage<Symbol, SymbolId>,
        CliError,
    >)
        requires
            limit > 0,
        ensures
            r matches Err(e) ==> self.may_fail(e),
            r matches Ok(page) ==> definitions_ordered(self.definitions()) && is_symbol_page(
                page,
                definitions_covered(self.definitions(), SymbolScopeView::All),
                id_of(after),
                limit,
            ),
    ;

    /// Returns the next definitions of a bare name.
    fn symbols_named(&self, name: &str, after: Option<&SymbolId>, limit: usize) -> (r: Result<
        GraphPage<Symbol, SymbolId>,
        CliError,
    >)
        requires
            limit > 0,
        ensures
            r matches Err(e) ==> self.may_fail(e),
            r matches Ok(page) ==> definitions_ordered(self.definitions()) && is_symbol_page(
                page,
                definitions_covered(self.definitions(), SymbolScopeView::Named(name@)),
                id_of(after),
                limit,
            ),
    ;

    /// Returns the next definitions of a display text.
    fn symbols_with_scip(&self, scip: &str, after: Option<&SymbolId>, limit: usize) -> (r: Result<
        GraphPage<Symbol, SymbolId>,
        CliError,
    >)
        requires
            limit > 0,
        ensures
            r matches Err(e) ==> self.may_fail(e),
            r matches Ok(page) ==> definitions_ordered(self.definitions()) && is_symbol_page(
                page,
                definitions_covered(self.definitions(), SymbolScopeView::Displayed(scip@)),
                id_of(after),
                limit,
            ),
    ;

    /// Returns the next definitions of a file.
    fn symbols_in_file(&self, file: &str, after: Option<&SymbolId>, limit: usize) -> (r: Result<
        GraphPage<Symbol, SymbolId>,
        CliError,
    >)
        requires
            limit > 0,
        ensures
            r matches Err(e) ==> self.may_fail(e),
            r matches Ok(page) ==> definitions_ordered(self.definitions()) && is_symbol_page(
                page,
                definitions_covered(self.definitions(), SymbolScopeView::InFile(file@)),
                id_of(after),
                limit,
            ),
    ;

    /// Returns the next relations that pass the filter.
    fn edges(&self, filter: EdgeFilter, after: Option<&EdgeKey>, limit: usize) -> (r: Result<
        GraphPage<Edge, EdgeKey>,
        CliError,
    >)
        requires
            limit > 0,
        ensures
            r matches Err(e) ==> self.may_fail(e),
            r matches Ok(page) ==> relations_ordered(self.relations()) && is_edge_page(
                page,
                relations_covered(self.relations(), EdgeScopeView::All, filter),
                key_of(after),
                limit,
            ),
    ;

    /// Returns the next relations in a file that pass the filter.
    fn edges_in_file(
        &self,
        file: &str,
        filter: EdgeFilter,
        after: Option<&EdgeKey>,
        limit: usize,
    ) -> (r: Result<GraphPage<Edge, EdgeKey>, CliError>)
        requires
            limit > 0,
        ensures
            r matches Err(e) ==> self.may_fail(e),
            r matches Ok(page) ==> relations_ordered(self.relations()) && is_edge_page(
                page,
                relations_covered(self.relations(), EdgeScopeView::InFile(file@), filter),
                key_of(after),
                limit,
            ),
    ;

    /// Returns the next relations to a symbol that pass the filter.
    fn incoming(
        &self,
        id: &SymbolId,
        filter: EdgeFilter,
        after: Option<&EdgeKey>,
        limit: usize,
    ) -> (r: Result<GraphPage<Edge, EdgeKey>, CliError>)
        requires
            limit > 0,
        ensures
            r matches Err(e) ==> self.may_fail(e),
            r matches Ok(page) ==> relations_ordered(self.relations()) && is_edge_page(
                page,
                relations_covered(self.relations(), EdgeScopeView::Into(id@), filter),
                key_of(after),
                limit,
            ),
    ;

    /// Returns the next relations from a symbol that pass the filter.
    fn outgoing(
        &self,
        id: &SymbolId,
        filter: EdgeFilter,
        after: Option<&EdgeKey>,
        limit: usize,
    ) -> (r: Result<GraphPage<Edge, EdgeKey>, CliError>)
        requires
            limit > 0,
        ensures
            r matches Err(e) ==> self.may_fail(e),
            r matches Ok(page) ==> relations_ordered(self.relations()) && is_edge_page(
                page,
                relations_covered(self.relations(), EdgeScopeView::From(id@), filter),
                key_of(after),
                limit,
            ),
    ;
}

proof fn lemma_filter_none<A>(s: Seq<A>, p: spec_fn(A) -> bool, q: spec_fn(A) -> bool)
    requires
        forall|i: int| 0 <= i < s.len() ==> !q(#[trigger] s[i]),
    ensures
        s.filter(p).filter(q) == Seq::<A>::empty(),
    decreases s.len(),
{
    reveal(Seq::filter);
    if s.len() > 0 {
        let rest = s.drop_last();
        assert forall|i: int| 0 <= i < rest.len() implies !q(#[trigger] rest[i]) by {
            assert(rest[i] == s[i]);
        }
        lemma_filter_none(rest, p, q);
        let kept = rest.filter(p);
        if p(s.last()) {
            assert(kept.push(s.last()).drop_last() =~= kept);
            assert(!q(s[s.len() - 1]));
        }
    }
}

proof fn lemma_filter_every<A>(s: Seq<A>, p: spec_fn(A) -> bool, q: spec_fn(A) -> bool)
    requires
        forall|i: int| 0 <= i < s.len() ==> q(#[trigger] s[i]),
    ensures
        s.filter(p).filter(q) == s.filter(p),
    decreases s.len(),
{
    reveal(Seq::filter);
    if s.len() > 0 {
        let rest = s.drop_last();
        assert forall|i: int| 0 <= i < rest.len() implies q(#[trigger] rest[i]) by {
            assert(rest[i] == s[i]);
        }
        lemma_filter_every(rest, p, q);
        let kept = rest.filter(p);
        if p(s.last()) {
            assert(kept.push(s.last()).drop_last() =~= kept);
            assert(q(s[s.len() - 1]));
        }
    }
}

/// What passes `p` of a list, and after the first `n` values passes `q`, when `q`
/// holds of exactly the values after those.
proof fn lemma_filter_rest<A>(s: Seq<A>, n: int, p: spec_fn(A) -> bool, q: spec_fn(A) -> bool)
    requires
        0 <= n <= s.len(),
        forall|i: int| 0 <= i < n ==> !q(#[trigger] s[i]),
        forall|i: int| n <= i < s.len() ==> q(#[trigger] s[i]),
    ensures
        s.filter(p).filter(q) == s.skip(n).filter(p),
{
    let a = s.take(n);
    let b = s.skip(n);
    assert(s =~= a + b);
    Seq::filter_distributes_over_add(a, b, p);
    Seq::filter_distributes_over_add(a.filter(p), b.filter(p), q);
    assert forall|i: int| 0 <= i < a.len() implies !q(#[trigger] a[i]) by {
        assert(a[i] == s[i]);
    }
    assert forall|i: int| 0 <= i < b.len() implies q(#[trigger] b[i]) by {
        assert(b[i] == s[n + i]);
    }
    lemma_filter_none(a, p, q);
    lemma_filter_every(b, p, q);
    assert(s.filter(p).filter(q) =~= b.filter(p));
}

proof fn lemma_filter_step<A>(s: Seq<A>, i: int, p: spec_fn(A) -> bool)
    requires
        0 <= i < s.len(),
    ensures
        s.take(i + 1).filter(p) == (if p(s[i]) {
            s.take(i).filter(p).push(s[i])
        } else {
            s.take(i).filter(p)
        }),
        s.filter(p).len() >= s.take(i + 1).filter(p).len(),
        s.filter(p).take(s.take(i + 1).filter(p).len() as int) == s.take(i + 1).filter(p),
{
    reveal(Seq::filter);
    assert(s.take(i + 1).drop_last() =~= s.take(i));
    assert(s =~= s.take(i + 1) + s.skip(i + 1));
    Seq::filter_distributes_over_add(s.take(i + 1), s.skip(i + 1), p);
    assert(s.filter(p).take(s.take(i + 1).filter(p).len() as int) =~= s.take(i + 1).filter(p));
}

/// The ends of a relation with the display text have their keys in the list.
pub open spec fn ends_found(v: Seq<SymbolId>, e: EdgeView, scip: Seq<char>) -> bool {
    &&& id_display(e.from) == scip ==> has_key(v, id_key(e.from))
    &&& id_display(e.to) == scip ==> has_key(v, id_key(e.to))
}

proof fn lemma_keys_stay(a: Seq<SymbolId>, b: Seq<SymbolId>)
    requires
        a.len() <= b.len(),
        forall|i: int| 0 <= i < a.len() ==> a[i] == b[i],
    ensures
        forall|k: Seq<u64>| #[trigger] has_key(a, k) ==> has_key(b, k),
{
    assert forall|k: Seq<u64>| #[trigger] has_key(a, k) implies has_key(b, k) by {
        let m = choose|m: int| 0 <= m < a.len() && (#[trigger] a[m]).key() == k;
        assert(b[m].key() == k);
    }
}

impl GraphIndex {
    #[verifier::type_invariant]
    spec fn ordered(self) -> bool {
        strictly_sorted_by_key(self.symbols@) && strictly_sorted_by_key(self.edges@)
    }

    /// The definitions, in the order of their identities.
    pub closed spec fn all_symbols(self) -> Seq<Symbol> {
        self.symbols@
    }

    /// The relations, in the order of their keys.
    pub closed spec fn all_edges(self) -> Seq<Edge> {
        self.edges@
    }

    /// Indexes a graph; two definitions of one identity, or two relations of one key,
    /// are refused.
    pub fn from_graph(graph: CodeGraph) -> (r: Result<Self, GraphIndexError>)
        ensures
            match r {
                Ok(index) => {
                    &&& !has_repeated_key(graph.symbols@)
                    &&& !has_repeated_key(graph.edges@)
                    &&& strictly_sorted_by_key(index.all_symbols())
                    &&& strictly_sorted_by_key(index.all_edges())
                    &&& index.all_symbols().to_multiset() == graph.symbols@.to_multiset()
                    &&& index.all_edges().to_multiset() == graph.edges@.to_multiset()
                },
                Err(GraphIndexError::DuplicateSymbol) => has_repeated_key(graph.symbols@),
                Err(GraphIndexError::DuplicateEdge) => !has_repeated_key(graph.symbols@)
                    && has_repeated_key(graph.edges@),
            },
    {
        let symbols = match sort_distinct(graph.symbols) {
            Some(symbols) => symbols,
            None => {
                return Err(GraphIndexError::DuplicateSymbol);
            },
        };
        let edges = match sort_distinct(graph.edges) {
            Some(edges) => edges,
            None => {
                return Err(GraphIndexError::DuplicateEdge);
            },
        };
        Ok(GraphIndex { symbols, edges })
    }

    /// The definitions, in the order of their identities.
    pub fn symbols_in_order(&self) -> (r: &Vec<Symbol>)
        ensures
            r@ == self.all_symbols(),
            strictly_sorted_by_key(r@),
    {
        proof {
            use_type_invariant(self);
        }
        &self.symbols
    }

    /// The relations, in the order of their keys.
    pub fn edges_in_order(&self) -> (r: &Vec<Edge>)
        ensures
            r@ == self.all_edges(),
            strictly_sorted_by_key(r@),
    {
        proof {
            use_type_invariant(self);
        }
        &self.edges
    }

    /// The place of the definition of the identity.
    fn position(&self, id: &SymbolId) -> (r: Option<usize>)
        ensures
            match r {
                Some(i) => i < self.all_symbols().len() && self.all_symbols()[i as int].id@ == id@,
                None => forall|i: int|
                    0 <= i < self.all_symbols().len() ==> (#[trigger] self.all_symbols()[i]).id@
                        != id@,
            },
    {
        proof {
            use_type_invariant(self);
        }
        let key = id.sort_key();
        let at = lower_bound(&self.symbols, &key);
        proof {
            assert forall|i: int| 0 <= i < self.symbols@.len() && i != at implies (
            #[trigger] self.symbols@[i]).id@ != id@ by {
                key_order_is_total(self.symbols@[i].key(), key@);
                if i > at {
                    assert(key_lt(self.symbols@[at as int].key(), self.symbols@[i].key()));
                    key_order_is_transitive(
                        key@,
                        self.symbols@[at as int].key(),
                        self.symbols@[i].key(),
                    );
                }
            }
        }
        if at < self.symbols.len() && self.symbols[at].id.same(id) {
            Some(at)
        } else {
            None
        }
    }

    /// Returns the definition of the identity.
    pub fn find(&self, id: &SymbolId) -> (r: Option<&Symbol>)
        ensures
            match r {
                Some(s) => self.all_symbols().contains(*s) && s.id@ == id@,
                None => forall|i: int|
                    0 <= i < self.all_symbols().len() ==> (#[trigger] self.all_symbols()[i]).id@
                        != id@,
            },
    {
        match self.position(id) {
            Some(i) => {
                assert(self.all_symbols()[i as int] == self.symbols@[i as int]);
                Some(&self.symbols[i])
            },
            None => None,
        }
    }

    /// Returns every identity with the display text, those of ends of relations among
    /// them, in the order of their keys.
    pub fn ids_with_scip(&self, scip: &str) -> (r: Vec<SymbolId>)
        ensures
            strictly_sorted_by_key(r@),
            forall|i: int|
                0 <= i < r@.len() ==> is_known(
                    self.definitions(),
                    self.relations(),
                    (#[trigger] r@[i])@,
                ) && id_display(r@[i]@) == scip@,
            forall|id: IdView| #[trigger]
                is_known(self.definitions(), self.relations(), id) && id_display(id) == scip@
                    ==> has_key(r@, id_key(id)),
    {
        let ghost symbols = self.definitions();
        let ghost edges = self.relations();
        let mut found: Vec<SymbolId> = Vec::new();
        let mut i: usize = 0;
        while i < self.symbols.len()
            invariant
                i <= self.symbols.len(),
                symbols == symbols_seen(self.symbols@),
                edges == edges_seen(self.edges@),
                forall|j: int|
                    0 <= j < found@.len() ==> is_known(symbols, edges, (#[trigger] found@[j])@)
                        && id_display(found@[j]@) == scip@,
                forall|j: int|
                    0 <= j < i && id_display((#[trigger] symbols[j]).id) == scip@ ==> has_key(
                        found@,
                        id_key(symbols[j].id),
                    ),
            decreases self.symbols.len() - i,
        {
            let id = &self.symbols[i].id;
            assert(symbols[i as int].id == id@);
            let display = id.to_scip_string();
            if same_text(display.as_str(), scip) {
                let ghost before = found@;
                found.push(id.copied());
                proof {
                    lemma_keys_stay(before, found@);
                    assert(found@[before.len() as int].key() == id_key(id@));
                }
            }
            i += 1;
        }
        let mut k: usize = 0;
        while k < self.edges.len()
            invariant
                k <= self.edges.len(),
                symbols == symbols_seen(self.symbols@),
                edges == edges_seen(self.edges@),
                forall|j: int|
                    0 <= j < found@.len() ==> is_known(symbols, edges, (#[trigger] found@[j])@)
                        && id_display(found@[j]@) == scip@,
                forall|j: int|
                    0 <= j < symbols.len() && id_display((#[trigger] symbols[j]).id) == scip@
                        ==> has_key(found@, id_key(symbols[j].id)),
                forall|j: int|
                    0 <= j < k ==> ends_found(found@, #[trigger] edges[j], scip@),
            decreases self.edges.len() - k,
        {
            let edge = &self.edges[k];
            assert(edges[k as int] == edge@);
            let ghost before = found@;
            let from = edge.from.to_scip_string();
            if same_text(from.as_str(), scip) {
                found.push(edge.from.copied());
                assert(found@[before.len() as int].key() == id_key(edge@.from));
                assert(has_key(found@, id_key(edge@.from)));
            }
            proof {
                lemma_keys_stay(before, found@);
            }
            let ghost middle = found@;
            let to = edge.to.to_scip_string();
            if same_text(to.as_str(), scip) {
                found.push(edge.to.copied());
                assert(found@[middle.len() as int].key() == id_key(edge@.to));
                assert(has_key(found@, id_key(edge@.to)));
            }
            proof {
                lemma_keys_stay(middle, found@);
                assert forall|j: int| 0 <= j < k + 1 implies ends_found(
                    found@,
                    #[trigger] edges[j],
                    scip@,
                ) by {
                    if j < k {
                        assert(ends_found(before, edges[j], scip@));
                    } else {
                        assert(id_display(edge@.from) == scip@ ==> has_key(
                            middle,
                            id_key(edge@.from),
                        ));
                    }
                }
            }
            k += 1;
        }
        let ghost all = found@;
        let r = distinct_sorted(found);
        proof {
            assert forall|j: int| 0 <= j < r@.len() implies is_known(
                symbols,
                edges,
                (#[trigger] r@[j])@,
            ) && id_display(r@[j]@) == scip@ by {
                assert(all.contains(r@[j]));
                let m = choose|m: int| 0 <= m < all.len() && all[m] == r@[j];
                assert(is_known(symbols, edges, all[m]@));
            }
            assert forall|id: IdView| #[trigger] is_known(symbols, edges, id) && id_display(id)
                == scip@ implies has_key(r@, id_key(id)) by {
                if exists|j: int| 0 <= j < symbols.len() && (#[trigger] symbols[j]).id == id {
                    let j = choose|j: int|
                        0 <= j < symbols.len() && (#[trigger] symbols[j]).id == id;
                    assert(has_key(all, id_key(symbols[j].id)));
                } else {
                    let j = choose|j: int|
                        0 <= j < edges.len() && ((#[trigger] edges[j]).from == id || edges[j].to
                            == id);
                    assert(ends_found(all, edges[j], scip@));
                }
                assert(has_key(all, id_key(id)));
                let m = choose|m: int|
                    0 <= m < all.len() && (#[trigger] all[m]).key() == id_key(id);
                assert(has_key(r@, all[m].key()));
            }
        }
        r
    }

    /// The next relations that are asked for.
    pub fn edge_page(
        &self,
        scope: EdgeScope<'_>,
        filter: EdgeFilter,
        after: Option<&EdgeKey>,
        limit: usize,
    ) -> (r: GraphPage<Edge, EdgeKey>)
        requires
            limit > 0,
        ensures
            relations_ordered(edges_seen(self.all_edges())),
            is_edge_page(
                r,
                relations_covered(edges_seen(self.all_edges()), scope@, filter),
                key_of(after),
                limit,
            ),
    {
        proof {
            use_type_invariant(self);
        }
        let ghost seen = edges_seen(self.edges@);
        let ghost p = |e: EdgeView| edge_covered(scope@, e) && filter.admits(e);
        let ghost covered = relations_covered(seen, scope@, filter);
        assert(covered == seen.filter(p));
        assert(relations_ordered(seen)) by {
            assert forall|i: int, j: int| 0 <= i < j < seen.len() implies key_lt(
                edge_key(#[trigger] seen[i]),
                edge_key(#[trigger] seen[j]),
            ) by {
                assert(key_lt(self.edges@[i].key(), self.edges@[j].key()));
            }
        }
        let start: usize = match after {
            None => 0,
            Some(key) => {
                let at = lower_bound(&self.edges, &key.words);
                if at < self.edges.len() && !key_less(&key.words, &self.edges[at].sort_key()) {
                    at + 1
                } else {
                    at
                }
            },
        };
        let ghost rest = edges_after(covered, key_of(after));
        let ghost tail = seen.skip(start as int);
        proof {
            match after {
                None => {
                    assert(tail =~= seen);
                },
                Some(key) => {
                    let q = |e: EdgeView| key_lt(key@, edge_key(e));
                    assert(rest == seen.filter(p).filter(q));
                    assert forall|i: int| 0 <= i < start implies !q(#[trigger] seen[i]) by {
                        assert(seen[i] == self.edges@[i]@);
                        key_order_is_total(self.edges@[i].key(), key@);
                    }
                    assert forall|i: int| start <= i < seen.len() implies q(
                        #[trigger] seen[i],
                    ) by {
                        assert(seen[i] == self.edges@[i]@);
                        assert(key_le(key@, self.edges@[i].key()));
                        key_order_is_total(self.edges@[i].key(), key@);
                        if start > 0 && !key_lt(key@, self.edges@[start - 1].key()) && key_le(
                            key@,
                            self.edges@[start - 1].key(),
                        ) {
                            assert(key_lt(self.edges@[start - 1].key(), self.edges@[i].key()));
                            key_order_is_transitive(
                                key@,
                                self.edges@[start - 1].key(),
                                self.edges@[i].key(),
                            );
                        }
                    }
                    lemma_filter_rest(seen, start as int, p, q);
                },
            }
        }
        assert(rest == tail.filter(p));
        let mut items: Vec<Edge> = Vec::new();
        let mut i: usize = start;
        reveal(Seq::filter);
        assert(tail.take(0).filter(p) =~= Seq::<EdgeView>::empty());
        assert(edges_seen(items@) =~= tail.take(0).filter(p));
        while i < self.edges.len()
            invariant
                start <= i <= self.edges.len(),
                limit > 0,
                seen == edges_seen(self.edges@),
                p == (|e: EdgeView| edge_covered(scope@, e) && filter.admits(e)),
                relations_ordered(edges_seen(self.all_edges())),
                covered == relations_covered(edges_seen(self.all_edges()), scope@, filter),
                tail == seen.skip(start as int),
                rest == edges_after(covered, key_of(after)),
                rest == tail.filter(p),
                items@.len() <= limit,
                edges_seen(items@) == tail.take(i - start).filter(p),
            decreases self.edges.len() - i,
        {
            let edge = &self.edges[i];
            proof {
                assert(tail[i - start] == edge@);
                lemma_filter_step(tail, i - start, p);
                assert(edges_seen(items@).len() == items@.len());
            }
            if scope.covers(edge) && filter.matches(edge) {
                if items.len() == limit {
                    let next = EdgeKey::of(&items[limit - 1]);
                    proof {
                        assert(tail.take(i - start + 1).filter(p).len() == limit + 1);
                        assert(rest.take(limit as int) =~= rest.take(limit + 1).take(limit as int));
                        assert(rest.take(limit + 1).take(limit as int) =~= edges_seen(items@));
                        assert(rest[limit - 1] == edges_seen(items@)[limit - 1]);
                        assert(edges_seen(items@)[limit - 1] == items@[limit - 1]@);
                    }
                    return GraphPage { items, next: Some(next) };
                }
                let ghost before = items@;
                items.push(edge.copied());
                assert(edges_seen(items@) =~= edges_seen(before).push(edge@));
            }
            i += 1;
        }
        proof {
            assert(tail.take(i - start) =~= tail);
            assert(edges_seen(items@).len() == items@.len());
            assert(rest.take(rest.len() as int) =~= rest);
        }
        GraphPage { items, next: None }
    }

    /// The next definitions that are asked for.
    pub fn symbol_page(
        &self,
        scope: SymbolScope<'_>,
        after: Option<&SymbolId>,
        limit: usize,
    ) -> (r: GraphPage<Symbol, SymbolId>)
        requires
            limit > 0,
        ensures
            definitions_ordered(symbols_seen(self.all_symbols())),
            is_symbol_page(
                r,
                definitions_covered(symbols_seen(self.all_symbols()), scope@),
                id_of(after),
                limit,
            ),
    {
        proof {
            use_type_invariant(self);
        }
        let ghost seen = symbols_seen(self.symbols@);
        let ghost p = |e: SymbolView| symbol_covered(scope@, e);
        let ghost covered = definitions_covered(seen, scope@);
        assert(covered == seen.filter(p));
        assert(definitions_ordered(seen)) by {
            assert forall|i: int, j: int| 0 <= i < j < seen.len() implies key_lt(
                id_key((#[trigger] seen[i]).id),
                id_key((#[trigger] seen[j]).id),
            ) by {
                assert(key_lt(self.symbols@[i].key(), self.symbols@[j].key()));
            }
        }
        let start: usize = match after {
            None => 0,
            Some(id) => {
                let key = id.sort_key();
                let at = lower_bound(&self.symbols, &key);
                if at < self.symbols.len() && !key_less(&key, &self.symbols[at].sort_key()) {
                    at + 1
                } else {
                    at
                }
            },
        };
        let ghost rest = symbols_after(covered, id_of(after));
        let ghost tail = seen.skip(start as int);
        proof {
            match after {
                None => {
                    assert(tail =~= seen);
                },
                Some(id) => {
                    let key = id_key(id@);
                    let q = |e: SymbolView| key_lt(id_key(id@), id_key(e.id));
                    assert(rest == seen.filter(p).filter(q));
                    assert forall|i: int| 0 <= i < start implies !q(#[trigger] seen[i]) by {
                        assert(seen[i] == self.symbols@[i]@);
                        key_order_is_total(self.symbols@[i].key(), key);
                    }
                    assert forall|i: int| start <= i < seen.len() implies q(
                        #[trigger] seen[i],
                    ) by {
                        assert(seen[i] == self.symbols@[i]@);
                        assert(key_le(key, self.symbols@[i].key()));
                        key_order_is_total(self.symbols@[i].key(), key);
                        if start > 0 && !key_lt(key, self.symbols@[start - 1].key()) && key_le(
                            key,
                            self.symbols@[start - 1].key(),
                        ) {
                            assert(key_lt(self.symbols@[start - 1].key(), self.symbols@[i].key()));
                            key_order_is_transitive(
                                key,
                                self.symbols@[start - 1].key(),
                                self.symbols@[i].key(),
                            );
                        }
                    }
                    lemma_filter_rest(seen, start as int, p, q);
                },
            }
        }
        assert(rest == tail.filter(p));
        let mut items: Vec<Symbol> = Vec::new();
        let mut i: usize = start;
        reveal(Seq::filter);
        assert(tail.take(0).filter(p) =~= Seq::<SymbolView>::empty());
        assert(symbols_seen(items@) =~= tail.take(0).filter(p));
        while i < self.symbols.len()
            invariant
                start <= i <= self.symbols.len(),
                limit > 0,
                seen == symbols_seen(self.symbols@),
                p == (|e: SymbolView| symbol_covered(scope@, e)),
                definitions_ordered(symbols_seen(self.all_symbols())),
                covered == definitions_covered(symbols_seen(self.all_symbols()), scope@),
                tail == seen.skip(start as int),
                rest == symbols_after(covered, id_of(after)),
                rest == tail.filter(p),
                items@.len() <= limit,
                symbols_seen(items@) == tail.take(i - start).filter(p),
            decreases self.symbols.len() - i,
        {
            let symbol = &self.symbols[i];
            proof {
                assert(tail[i - start] == symbol@);
                lemma_filter_step(tail, i - start, p);
                assert(symbols_seen(items@).len() == items@.len());
            }
            if scope.covers(symbol) {
                if items.len() == limit {
                    let next = items[limit - 1].id.copied();
                    proof {
                        assert(tail.take(i - start + 1).filter(p).len() == limit + 1);
                        assert(rest.take(limit as int) =~= rest.take(limit + 1).take(limit as int));
                        assert(rest.take(limit + 1).take(limit as int) =~= symbols_seen(items@));
                        assert(rest[limit - 1] == symbols_seen(items@)[limit - 1]);
                        assert(symbols_seen(items@)[limit - 1] == items@[limit - 1]@);
                    }
                    return GraphPage { items, next: Some(next) };
                }
                let ghost before = items@;
                items.push(symbol.copied());
                assert(symbols_seen(items@) =~= symbols_seen(before).push(symbol@));
            }
            i += 1;
        }
        proof {
            assert(tail.take(i - start) =~= tail);
            assert(symbols_seen(items@).len() == items@.len());
            assert(rest.take(rest.len() as int) =~= rest);
        }
        GraphPage { items, next: None }
    }
}

impl GraphRead for GraphIndex {
    open spec fn definitions(&self) -> Seq<SymbolView> {
        symbols_seen(self.all_symbols())
    }

    open spec fn relations(&self) -> Seq<EdgeView> {
        edges_seen(self.all_edges())
    }

    open spec fn may_fail(&self, e: CliError) -> bool {
        false
    }

    fn symbol(&self, id: &SymbolId) -> (r: Result<Option<Symbol>, CliError>)
    {
        proof {
            use_type_invariant(self);
            let seen = self.definitions();
            assert forall|i: int, j: int| 0 <= i < j < seen.len() implies key_lt(
                id_key((#[trigger] seen[i]).id),
                id_key((#[trigger] seen[j]).id),
            ) by {
                assert(key_lt(self.symbols@[i].key(), self.symbols@[j].key()));
            }
        }
        match self.position(id) {
            Some(i) => {
                assert(self.definitions()[i as int] == self.symbols@[i as int]@);
                Ok(Some(self.symbols[i].copied()))
            },
            None => {
                assert forall|i: int| 0 <= i < self.definitions().len() implies (
                #[trigger] self.definitions()[i]).id != id@ by {
                    assert(self.definitions()[i] == self.all_symbols()[i]@);
                }
                Ok(None)
            },
        }
    }

    fn contains_id(&self, id: &SymbolId) -> (r: Result<bool, CliError>)
    {
        let ghost symbols = self.definitions();
        let ghost edges = self.relations();
        match self.position(id) {
            Some(i) => {
                assert(symbols[i as int] == self.symbols@[i as int]@);
                return Ok(true);
            },
            None => {
                assert forall|i: int| 0 <= i < symbols.len() implies (#[trigger] symbols[i]).id
                    != id@ by {
                    assert(symbols[i] == self.all_symbols()[i]@);
                }
            },
        }
        let mut i: usize = 0;
        while i < self.edges.len()
            invariant
                i <= self.edges.len(),
                symbols == self.definitions(),
                edges == self.relations(),
                edges == edges_seen(self.edges@),
                forall|j: int| 0 <= j < symbols.len() ==> (#[trigger] symbols[j]).id != id@,
                forall|j: int|
                    0 <= j < i ==> (#[trigger] edges[j]).from != id@ && edges[j].to != id@,
            decreases self.edges.len() - i,
        {
            assert(edges[i as int] == self.edges@[i as int]@);
            if self.edges[i].from.same(id) || self.edges[i].to.same(id) {
                return Ok(true);
            }
            i += 1;
        }
        Ok(false)
    }

    fn symbols(&self, after: Option<&SymbolId>, limit: usize) -> (r: Result<
        GraphPage<Symbol, SymbolId>,
        CliError,
    >)
    {
        Ok(self.symbol_page(SymbolScope::All, after, limit))
    }

    fn symbols_named(&self, name: &str, after: Option<&SymbolId>, limit: usize) -> (r: Result<
        GraphPage<Symbol, SymbolId>,
        CliError,
    >)
    {
        Ok(self.symbol_page(SymbolScope::Named(name), after, limit))
    }

    fn symbols_with_scip(&self, scip: &str, after: Option<&SymbolId>, limit: usize) -> (r: Result<
        GraphPage<Symbol, SymbolId>,
        CliError,
    >)
    {
        Ok(self.symbol_page(SymbolScope::Displayed(scip), after, limit))
    }

    fn symbols_in_file(&self, file: &str, after: Option<&SymbolId>, limit: usize) -> (r: Result<
        GraphPage<Symbol, SymbolId>,
        CliError,
    >)
    {
        Ok(self.symbol_page(SymbolScope::InFile(file), after, limit))
    }

    fn edges(&self, filter: EdgeFilter, after: Option<&EdgeKey>, limit: usize) -> (r: Result<
        GraphPage<Edge, EdgeKey>,
        CliError,
    >)
    {
        Ok(self.edge_page(EdgeScope::All, filter, after, limit))
    }

    fn edges_in_file(
        &self,
        file: &str,
        filter: EdgeFilter,
        after: Option<&EdgeKey>,
        limit: usize,
    ) -> (r: Result<GraphPage<Edge, EdgeKey>, CliError>)
    {
        Ok(self.edge_page(EdgeScope::InFile(file), filter, after, limit))
    }

    fn incoming(
        &self,
        id: &SymbolId,
        filter: EdgeFilter,
        after: Option<&EdgeKey>,
        limit: usize,
    ) -> (r: Result<GraphPage<Edge, EdgeKey>, CliError>)
    {
        Ok(self.edge_page(EdgeScope::Into(id), filter, after, limit))
    }

    fn outgoing(
        &self,
        id: &SymbolId,
        filter: EdgeFilter,
        after: Option<&EdgeKey>,
        limit: usize,
    ) -> (r: Result<GraphPage<Edge, EdgeKey>, CliError>)
    {
        Ok(self.edge_page(EdgeScope::From(id), filter, after, limit))
    }
}

} // verus!
