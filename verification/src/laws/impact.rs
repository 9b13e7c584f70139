//! Laws of impact: what reaches a symbol, over which relations, how far away and how surely.

use vstd::prelude::*;
use crate::commands::impact::{
    answers_impact, extends_rows, impact_row, is_impact_answer, is_impact_listing, is_impact_of_all,
    left_of, rows_from, rows_show, seed_filter, ImpactBounds, ImpactCommandRequest, ImpactRow,
    ImpactRowView,
};
use crate::commands::shared::{ids_seen, QueryCommandContext, SelectorResolution};
use crate::deadline::Cancellation;
use crate::graph::{edge_key, id_key, Confidence, EdgeView, IdView, RefRole, SymbolKind, SymbolView};
use crate::laws::terms::{defines_once, is_as_sure_as, says_confidence, tells_of};
use crate::ordering::{is_stable_sort, key_le, key_lt, Keyed};
use crate::query::impact::{
    followed, is_impact, left_out, place, step_ok, taken_into_account, visited, ImpactOptions,
    StepView,
};
use crate::query::index::{definition_of, GraphRead};
use crate::result::{ImpactOutput, ImpactView, OutputEnvelope};

verus! {

/// A relation may be followed from a seed: it is sure enough, and of the role that is asked
/// for. Where none is asked for, it may be of any role if the seed is a struct, an enum, a
/// trait, a class, an interface or a type alias, and is a call otherwise.
pub open spec fn may_be_followed(
    definitions: Seq<SymbolView>,
    role: Option<RefRole>,
    min_confidence: Confidence,
    seed: IdView,
    e: EdgeView,
) -> bool {
    &&& is_as_sure_as(e.confidence, min_confidence)
    &&& match role {
        Some(asked) => e.role == asked,
        None => {
            ||| e.role == RefRole::Call
            ||| exists|s: SymbolView| #[trigger]
                definitions.contains(s) && s.id == seed && match s.kind {
                    SymbolKind::Struct => true,
                    SymbolKind::Enum => true,
                    SymbolKind::Trait => true,
                    SymbolKind::Class => true,
                    SymbolKind::Interface => true,
                    SymbolKind::TypeAlias => true,
                    _ => false,
                }
        },
    }
}

proof fn lemma_filter(
    definitions: Seq<SymbolView>,
    bounds: ImpactBounds,
    seed: IdView,
    e: EdgeView,
)
    requires
        defines_once(definitions),
    ensures
        seed_filter(definitions, bounds, seed).admits(e) <==> may_be_followed(
            definitions,
            bounds.role,
            bounds.min_confidence,
            seed,
            e,
        ),
{
    match definition_of(definitions, seed) {
        Some(d) => {
            let i = choose|i: int|
                0 <= i < definitions.len() && (#[trigger] definitions[i]).id == seed;
            assert(definitions[i] == d);
            assert(definitions.contains(d));
        },
        None => {
            assert forall|s: SymbolView| #[trigger] definitions.contains(s) implies s.id
                != seed by {
                let i = choose|i: int| 0 <= i < definitions.len() && definitions[i] == s;
                assert(definitions[i].id != seed);
            }
        },
    }
}

/// The rows of one seed: `before` is what stands in front of them.
spec fn is_part(
    definitions: Seq<SymbolView>,
    relations: Seq<EdgeView>,
    bounds: ImpactBounds,
    seed: IdView,
    rows: Seq<ImpactRowView>,
    before: int,
    steps: Seq<StepView>,
    t: bool,
) -> bool {
    &&& 0 <= before
    &&& before + steps.len() <= rows.len()
    &&& rows.subrange(before, before + steps.len()) == rows_from(seed, steps)
    &&& is_impact(
        relations,
        ImpactOptions {
            filter: seed_filter(definitions, bounds, seed),
            max_depth: bounds.depth,
            max_nodes: left_of(bounds.max_nodes, before as nat),
        },
        seed,
        steps,
        t,
    )
}

proof fn lemma_part(
    definitions: Seq<SymbolView>,
    relations: Seq<EdgeView>,
    bounds: ImpactBounds,
    seeds: Seq<IdView>,
    n: nat,
    rows: Seq<ImpactRowView>,
    truncated: bool,
    k: int,
) -> (r: (int, Seq<StepView>, bool))
    requires
        is_impact_of_all(definitions, relations, bounds, seeds, n, rows, truncated),
        0 <= k < n,
    ensures
        is_part(definitions, relations, bounds, seeds[k], rows, r.0, r.1, r.2),
        r.2 ==> truncated,
    decreases n,
{
    let (before, t0, steps, t1) = choose|
        before: Seq<ImpactRowView>,
        t0: bool,
        steps: Seq<StepView>,
        t1: bool,
    | #[trigger]
        extends_rows(
            definitions,
            relations,
            bounds,
            seeds[n - 1],
            before,
            t0,
            rows,
            truncated,
            steps,
            t1,
        ) && is_impact_of_all(definitions, relations, bounds, seeds, (n - 1) as nat, before, t0);
    assert(rows_from(seeds[n - 1], steps).len() == steps.len());
    if k == n - 1 {
        let at = before.len() as int;
        assert(rows.subrange(at, at + steps.len()) =~= rows_from(seeds[k], steps));
        (at, steps, t1)
    } else {
        let r = lemma_part(
            definitions,
            relations,
            bounds,
            seeds,
            (n - 1) as nat,
            before,
            t0,
            k,
        );
        assert(rows.subrange(r.0, r.0 + r.1.len()) =~= before.subrange(r.0, r.0 + r.1.len()));
        r
    }
}

proof fn lemma_part_of_row(
    definitions: Seq<SymbolView>,
    relations: Seq<EdgeView>,
    bounds: ImpactBounds,
    seeds: Seq<IdView>,
    n: nat,
    rows: Seq<ImpactRowView>,
    truncated: bool,
    i: int,
) -> (r: (int, int, Seq<StepView>, bool))
    requires
        is_impact_of_all(definitions, relations, bounds, seeds, n, rows, truncated),
        0 <= i < rows.len(),
    ensures
        0 <= r.0 < n,
        is_part(definitions, relations, bounds, seeds[r.0], rows, r.1, r.2, r.3),
        r.1 <= i < r.1 + r.2.len(),
        r.3 ==> truncated,
    decreases n,
{
    let (before, t0, steps, t1) = choose|
        before: Seq<ImpactRowView>,
        t0: bool,
        steps: Seq<StepView>,
        t1: bool,
    | #[trigger]
        extends_rows(
            definitions,
            relations,
            bounds,
            seeds[n - 1],
            before,
            t0,
            rows,
            truncated,
            steps,
            t1,
        ) && is_impact_of_all(definitions, relations, bounds, seeds, (n - 1) as nat, before, t0);
    assert(rows_from(seeds[n - 1], steps).len() == steps.len());
    let at = before.len() as int;
    if i >= at {
        assert(rows.subrange(at, at + steps.len()) =~= rows_from(seeds[n - 1], steps));
        (n - 1, at, steps, t1)
    } else {
        let r = lemma_part_of_row(
            definitions,
            relations,
            bounds,
            seeds,
            (n - 1) as nat,
            before,
            t0,
            i,
        );
        assert(rows.subrange(r.1, r.1 + r.2.len()) =~= before.subrange(r.1, r.1 + r.2.len()));
        r
    }
}

proof fn lemma_truncated_part(
    definitions: Seq<SymbolView>,
    relations: Seq<EdgeView>,
    bounds: ImpactBounds,
    seeds: Seq<IdView>,
    n: nat,
    rows: Seq<ImpactRowView>,
) -> (r: (int, int, Seq<StepView>))
    requires
        is_impact_of_all(definitions, relations, bounds, seeds, n, rows, true),
    ensures
        0 <= r.0 < n,
        is_part(definitions, relations, bounds, seeds[r.0], rows, r.1, r.2, true),
        seeds.no_duplicates() && n <= seeds.len() ==> forall|i: int|
            0 <= i < rows.len() && (#[trigger] rows[i]).seed == seeds[r.0] ==> r.1 <= i < r.1
                + r.2.len(),
    decreases n,
{
    let (before, t0, steps, t1) = choose|
        before: Seq<ImpactRowView>,
        t0: bool,
        steps: Seq<StepView>,
        t1: bool,
    | #[trigger]
        extends_rows(
            definitions,
            relations,
            bounds,
            seeds[n - 1],
            before,
            t0,
            rows,
            true,
            steps,
            t1,
        ) && is_impact_of_all(definitions, relations, bounds, seeds, (n - 1) as nat, before, t0);
    assert(rows_from(seeds[n - 1], steps).len() == steps.len());
    let at = before.len() as int;
    if t1 {
        assert(rows.subrange(at, at + steps.len()) =~= rows_from(seeds[n - 1], steps));
        if seeds.no_duplicates() && n <= seeds.len() {
            assert forall|i: int| 0 <= i < rows.len() && (#[trigger] rows[i]).seed == seeds[n
                - 1] implies at <= i < at + steps.len() by {
                if i < at {
                    assert(before[i] == rows[i]);
                    let r = lemma_part_of_row(
                        definitions,
                        relations,
                        bounds,
                        seeds,
                        (n - 1) as nat,
                        before,
                        t0,
                        i,
                    );
                    assert(before.subrange(r.1, r.1 + r.2.len())[i - r.1] == before[i]);
                    assert(before[i].seed == seeds[r.0]);
                }
            }
        }
        (n - 1, at, steps)
    } else {
        let r = lemma_truncated_part(
            definitions,
            relations,
            bounds,
            seeds,
            (n - 1) as nat,
            before,
        );
        assert(rows.subrange(r.1, r.1 + r.2.len()) =~= before.subrange(r.1, r.1 + r.2.len()));
        if seeds.no_duplicates() && n <= seeds.len() {
            assert forall|i: int| 0 <= i < rows.len() && (#[trigger] rows[i]).seed
                == seeds[r.0] implies r.1 <= i < r.1 + r.2.len() by {
                if i < at {
                    assert(before[i] == rows[i]);
                } else {
                    assert(rows[i] == rows_from(seeds[n - 1], steps)[i - at]);
                }
            }
        }
        r
    }
}

/// The results list a row that is shown like this.
pub open spec fn lists(results: Seq<ImpactOutput>, row: ImpactView) -> bool {
    exists|j: int| 0 <= j < results.len() && (#[trigger] results[j])@ == row
}

proof fn lemma_listed(results: Seq<ImpactOutput>, views: Seq<ImpactRowView>)
    requires
        is_impact_listing(results, views),
    ensures
        results.len() == views.len(),
        forall|i: int| 0 <= i < views.len() ==> lists(results, impact_row(#[trigger] views[i])),
        forall|j: int|
            0 <= j < results.len() ==> exists|i: int|
                0 <= i < views.len() && (#[trigger] results[j])@ == impact_row(#[trigger] views[i]),
{
    let (rows, sorted) = choose|rows: Seq<ImpactRow>, sorted: Seq<ImpactRow>| #[trigger]
        is_stable_sort(rows, sorted) && rows_show(rows, views) && results == sorted.map_values(
            |r: ImpactRow| r.output,
        );
    rows.to_multiset_ensures();
    sorted.to_multiset_ensures();
    assert forall|i: int| 0 <= i < views.len() implies lists(
        results,
        impact_row(#[trigger] views[i]),
    ) by {
        assert(rows[i].shows(views[i]));
        assert(rows.contains(rows[i]));
        assert(sorted.to_multiset().count(rows[i]) > 0);
        assert(sorted.contains(rows[i]));
        let j = choose|j: int| 0 <= j < sorted.len() && sorted[j] == rows[i];
        assert(results[j]@ == impact_row(views[i]));
    }
    assert forall|j: int| 0 <= j < results.len() implies exists|i: int|
        0 <= i < views.len() && (#[trigger] results[j])@ == impact_row(#[trigger] views[i]) by {
        assert(sorted.contains(sorted[j]));
        assert(rows.to_multiset().count(sorted[j]) > 0);
        assert(rows.contains(sorted[j]));
        let i = choose|i: int| 0 <= i < rows.len() && rows[i] == sorted[j];
        assert(rows[i].shows(views[i]));
        assert(results[j]@ == impact_row(views[i]));
    }
}

proof fn lemma_row_listed(results: Seq<ImpactOutput>, views: Seq<ImpactRowView>, i: int) -> (j: int)
    requires
        is_impact_listing(results, views),
        0 <= i < views.len(),
    ensures
        0 <= j < results.len(),
        results[j]@ == impact_row(views[i]),
{
    lemma_listed(results, views);
    assert(lists(results, impact_row(views[i])));
    choose|j: int| 0 <= j < results.len() && (#[trigger] results[j])@ == impact_row(views[i])
}

proof fn lemma_row_shown(results: Seq<ImpactOutput>, views: Seq<ImpactRowView>, j: int) -> (i: int)
    requires
        is_impact_listing(results, views),
        0 <= j < results.len(),
    ensures
        0 <= i < views.len(),
        results[j]@ == impact_row(views[i]),
        results.len() == views.len(),
{
    lemma_listed(results, views);
    choose|i: int| 0 <= i < views.len() && results[j]@ == impact_row(#[trigger] views[i])
}

/// The results have a row of the seed for the symbol, at this distance.
pub open spec fn reaches_at(
    results: Seq<ImpactOutput>,
    seed: IdView,
    symbol: IdView,
    depth: int,
) -> bool {
    exists|j: int|
        0 <= j < results.len() && (#[trigger] results[j])@.seed == seed && results[j]@.symbol
            == symbol && results[j]@.depth == depth
}

/// The results have a row of the seed for the symbol.
pub open spec fn reaches(results: Seq<ImpactOutput>, seed: IdView, symbol: IdView) -> bool {
    exists|j: int|
        0 <= j < results.len() && (#[trigger] results[j])@.seed == seed && results[j]@.symbol
            == symbol
}

proof fn lemma_place_first(nodes: Seq<IdView>)
    requires
        nodes.no_duplicates(),
        nodes.len() > 0,
    ensures
        place(nodes, nodes[0]) == 0,
{
    let p = place(nodes, nodes[0]);
    assert(0 <= p < nodes.len() && nodes[p] == nodes[0]) by {
        assert(nodes[0] == nodes[0]);
    }
}

proof fn lemma_place_of(nodes: Seq<IdView>, i: int)
    requires
        nodes.no_duplicates(),
        0 <= i < nodes.len(),
    ensures
        place(nodes, nodes[i]) == i,
{
    let p = place(nodes, nodes[i]);
    assert(0 <= p < nodes.len() && nodes[p] == nodes[i]);
}

/// Whatever relates to a seed is found, one relation away: where the bounds allow for it,
/// every relation into a seed that may be followed has its origin among the rows of that seed.
/// This holds of every role into a type where no role is asked for, of calls into anything
/// else, and of the role that is asked for into anything.
pub proof fn relations_into_seeds_are_followed(
    definitions: Seq<SymbolView>,
    relations: Seq<EdgeView>,
    bounds: ImpactBounds,
    seeds: Seq<IdView>,
    results: Seq<ImpactOutput>,
    truncated: bool,
    seed: IdView,
    e: EdgeView,
)
    requires
        answers_impact(definitions, relations, bounds, seeds, results, truncated),
        defines_once(definitions),
        seeds.contains(seed),
        relations.contains(e),
        e.to == seed,
        e.from != seed,
        may_be_followed(definitions, bounds.role, bounds.min_confidence, seed, e),
        bounds.depth >= 1,
        results.len() < bounds.max_nodes,
    ensures
        reaches_at(results, seed, e.from, 1),
{
    let views = choose|views: Seq<ImpactRowView>| #[trigger]
        is_impact_of_all(
            definitions,
            relations,
            bounds,
            seeds,
            seeds.len(),
            views,
            truncated,
        ) && is_impact_listing(results, views);
    lemma_listed(results, views);
    let k = choose|k: int| 0 <= k < seeds.len() && seeds[k] == seed;
    let (at, steps, t) = lemma_part(
        definitions,
        relations,
        bounds,
        seeds,
        seeds.len(),
        views,
        truncated,
        k,
    );
    let filter = seed_filter(definitions, bounds, seed);
    lemma_filter(definitions, bounds, seed, e);
    assert(followed(relations, filter, e));
    let nodes = visited(seed, steps);
    assert(nodes[0] == seed);
    lemma_place_first(nodes);
    let options = ImpactOptions {
        filter,
        max_depth: bounds.depth,
        max_nodes: left_of(bounds.max_nodes, at as nat),
    };
    assert(taken_into_account(options, seed, steps, e));
    assert(nodes.contains(e.from));
    let p = choose|p: int| 0 <= p < nodes.len() && nodes[p] == e.from;
    lemma_place_of(nodes, p);
    let s = steps[p - 1];
    assert(step_ok(relations, options, seed, steps, p - 1));
    assert(place(nodes, s.parent) == 0);
    assert(views.subrange(at, at + steps.len())[p - 1] == views[at + p - 1]);
    assert(rows_from(seed, steps)[p - 1] == (ImpactRowView { seed, step: s }));
    assert(lists(results, impact_row(views[at + p - 1])));
    let j = choose|j: int|
        0 <= j < results.len() && (#[trigger] results[j])@ == impact_row(views[at + p - 1]);
    assert(results[j]@.seed == seed && results[j]@.symbol == e.from && results[j]@.depth == 1);
}

/// A type is reached by everything that refers to it: where no role is asked for, every
/// relation into a struct, an enum, a trait, a class, an interface or a type alias that was
/// selected and that is sure enough, of whatever role, has its origin among the rows, one
/// relation away, if the bounds on depth and rows allow for it.
pub proof fn types_are_reached_by_every_role<R: GraphRead, C: Cancellation>(
    context: QueryCommandContext<'_, R, C>,
    request: ImpactCommandRequest<'_>,
    resolution: SelectorResolution,
    envelope: OutputEnvelope<Vec<ImpactOutput>>,
    seed: SymbolView,
    e: EdgeView,
)
    requires
        is_impact_answer(context, request, resolution, Ok(envelope)),
        request.role is None,
        defines_once(context.index.definitions()),
        context.index.definitions().contains(seed),
        ids_seen(resolution.ids@).contains(seed.id),
        context.index.relations().contains(e),
        e.to == seed.id,
        e.from != seed.id,
        is_as_sure_as(e.confidence, request.min_confidence),
        request.depth >= 1,
        envelope.results@.len() < request.max_nodes,
    ensures
        seed.kind == SymbolKind::Struct ==> reaches_at(envelope.results@, seed.id, e.from, 1),
        seed.kind == SymbolKind::Enum ==> reaches_at(envelope.results@, seed.id, e.from, 1),
        seed.kind == SymbolKind::Trait ==> reaches_at(envelope.results@, seed.id, e.from, 1),
        seed.kind == SymbolKind::Class ==> reaches_at(envelope.results@, seed.id, e.from, 1),
        seed.kind == SymbolKind::Interface ==> reaches_at(envelope.results@, seed.id, e.from, 1),
        seed.kind == SymbolKind::TypeAlias ==> reaches_at(envelope.results@, seed.id, e.from, 1),
        e.role == RefRole::Call ==> reaches_at(envelope.results@, seed.id, e.from, 1),
{
    let bounds = ImpactBounds {
        role: request.role,
        depth: request.depth,
        max_nodes: request.max_nodes,
        min_confidence: request.min_confidence,
    };
    let definitions = context.index.definitions();
    if may_be_followed(definitions, bounds.role, bounds.min_confidence, seed.id, e) {
        relations_into_seeds_are_followed(
            definitions,
            context.index.relations(),
            bounds,
            ids_seen(resolution.ids@),
            envelope.results@,
            envelope.truncated,
            seed.id,
            e,
        );
    }
}

/// What is one relation further than a row is found too: where the bounds allow for it, every
/// relation into a symbol of a row that may be followed from its seed has its origin among the
/// rows of that seed, no further away than one more relation.
pub proof fn relations_into_rows_are_followed(
    definitions: Seq<SymbolView>,
    relations: Seq<EdgeView>,
    bounds: ImpactBounds,
    seeds: Seq<IdView>,
    results: Seq<ImpactOutput>,
    truncated: bool,
    j: int,
    e: EdgeView,
)
    requires
        answers_impact(definitions, relations, bounds, seeds, results, truncated),
        defines_once(definitions),
        0 <= j < results.len(),
        relations.contains(e),
        e.to == results[j]@.symbol,
        e.from != results[j]@.seed,
        may_be_followed(definitions, bounds.role, bounds.min_confidence, results[j]@.seed, e),
        results[j]@.depth < bounds.depth,
        results.len() < bounds.max_nodes,
    ensures
        reaches(results, results[j]@.seed, e.from),
{
    let views = choose|views: Seq<ImpactRowView>| #[trigger]
        is_impact_of_all(
            definitions,
            relations,
            bounds,
            seeds,
            seeds.len(),
            views,
            truncated,
        ) && is_impact_listing(results, views);
    lemma_listed(results, views);
    let i = choose|i: int| 0 <= i < views.len() && results[j]@ == impact_row(#[trigger] views[i]);
    let (k, at, steps, t) = lemma_part_of_row(
        definitions,
        relations,
        bounds,
        seeds,
        seeds.len(),
        views,
        truncated,
        i,
    );
    let seed = seeds[k];
    assert(views.subrange(at, at + steps.len())[i - at] == views[i]);
    assert(views[i] == (ImpactRowView { seed, step: steps[i - at] }));
    let filter = seed_filter(definitions, bounds, seed);
    lemma_filter(definitions, bounds, seed, e);
    assert(followed(relations, filter, e));
    let nodes = visited(seed, steps);
    assert(nodes[i - at + 1] == e.to);
    lemma_place_of(nodes, i - at + 1);
    let options = ImpactOptions {
        filter,
        max_depth: bounds.depth,
        max_nodes: left_of(bounds.max_nodes, at as nat),
    };
    assert(taken_into_account(options, seed, steps, e));
    assert(nodes.contains(e.from));
    let p = choose|p: int| 0 <= p < nodes.len() && nodes[p] == e.from;
    assert(p > 0);
    assert(views.subrange(at, at + steps.len())[p - 1] == views[at + p - 1]);
    assert(rows_from(seed, steps)[p - 1] == (ImpactRowView { seed, step: steps[p - 1] }));
    assert(lists(results, impact_row(views[at + p - 1])));
    let m = choose|m: int|
        0 <= m < results.len() && (#[trigger] results[m])@ == impact_row(views[at + p - 1]);
    assert(results[m]@.seed == seed && results[m]@.symbol == e.from);
}

/// Of two confidences the one that is not more sure than the other.
pub open spec fn is_weaker_of(c: Confidence, a: Confidence, b: Confidence) -> bool {
    (c == a || c == b) && is_as_sure_as(a, c) && is_as_sure_as(b, c)
}

/// The row was reached in this way: over a relation of the graph that may be followed, from
/// its symbol to its parent. The parent is the seed at distance one, and otherwise the symbol
/// of another row of the same seed, one nearer; and the path is as sure as its least sure
/// relation.
pub open spec fn is_reached(
    definitions: Seq<SymbolView>,
    relations: Seq<EdgeView>,
    bounds: ImpactBounds,
    results: Seq<ImpactOutput>,
    row: ImpactView,
    e: EdgeView,
) -> bool {
    &&& relations.contains(e)
    &&& may_be_followed(definitions, bounds.role, bounds.min_confidence, row.seed, e)
    &&& tells_of(row.via, e)
    &&& e.from == row.symbol
    &&& e.to == row.parent
    &&& if row.depth == 1 {
        row.parent == row.seed && says_confidence(row.path_confidence, e.confidence)
    } else {
        exists|m: int, near: Confidence, far: Confidence|
            0 <= m < results.len() && (#[trigger] results[m])@.seed == row.seed
                && results[m]@.symbol == row.parent && results[m]@.depth == row.depth - 1
                && #[trigger] says_confidence(results[m]@.path_confidence, near)
                && #[trigger] says_confidence(row.path_confidence, far) && is_weaker_of(
                far,
                near,
                e.confidence,
            )
    }
}

proof fn lemma_step_is_reached(
    definitions: Seq<SymbolView>,
    relations: Seq<EdgeView>,
    bounds: ImpactBounds,
    results: Seq<ImpactOutput>,
    views: Seq<ImpactRowView>,
    seed: IdView,
    at: int,
    steps: Seq<StepView>,
    t: bool,
    n: int,
)
    requires
        is_impact_listing(results, views),
        defines_once(definitions),
        is_part(definitions, relations, bounds, seed, views, at, steps, t),
        0 <= n < steps.len(),
    ensures
        steps[n].symbol != seed,
        1 <= steps[n].depth <= bounds.depth,
        is_reached(
            definitions,
            relations,
            bounds,
            results,
            impact_row(ImpactRowView { seed, step: steps[n] }),
            steps[n].via,
        ),
{
    let s = steps[n];
    let row = impact_row(ImpactRowView { seed, step: s });
    let options = ImpactOptions {
        filter: seed_filter(definitions, bounds, seed),
        max_depth: bounds.depth,
        max_nodes: left_of(bounds.max_nodes, at as nat),
    };
    assert(step_ok(relations, options, seed, steps, n));
    let nodes = visited(seed, steps);
    assert(nodes[0] == seed && nodes[n + 1] == s.symbol);
    lemma_filter(definitions, bounds, seed, s.via);
    let p = place(nodes, s.parent);
    assert(says_confidence(row.path_confidence, s.path_confidence));
    if p > 0 {
        assert(step_ok(relations, options, seed, steps, p - 1));
        assert(views.subrange(at, at + steps.len())[p - 1] == views[at + p - 1]);
        assert(rows_from(seed, steps)[p - 1] == (ImpactRowView { seed, step: steps[p - 1] }));
        let m = lemma_row_listed(results, views, at + p - 1);
        assert(says_confidence(results[m]@.path_confidence, steps[p - 1].path_confidence));
        assert(is_weaker_of(s.path_confidence, steps[p - 1].path_confidence, s.via.confidence));
    }
}

/// Every row is an honest answer: its seed was asked for, its symbol is another one, it is not
/// further away than the depth that is allowed, and it was reached as it says. There are no
/// more rows than are allowed.
pub proof fn rows_are_reached<R: GraphRead, C: Cancellation>(
    context: QueryCommandContext<'_, R, C>,
    request: ImpactCommandRequest<'_>,
    resolution: SelectorResolution,
    envelope: OutputEnvelope<Vec<ImpactOutput>>,
    j: int,
)
    requires
        is_impact_answer(context, request, resolution, Ok(envelope)),
        defines_once(context.index.definitions()),
        0 <= j < envelope.results@.len(),
    ensures
        envelope.results@.len() <= request.max_nodes,
        envelope.total == envelope.results@.len(),
        envelope.returned == envelope.results@.len(),
        ids_seen(resolution.ids@).contains(envelope.results@[j]@.seed),
        envelope.results@[j]@.symbol != envelope.results@[j]@.seed,
        1 <= envelope.results@[j]@.depth <= request.depth,
        exists|e: EdgeView| #[trigger]
            is_reached(
                context.index.definitions(),
                context.index.relations(),
                ImpactBounds {
                    role: request.role,
                    depth: request.depth,
                    max_nodes: request.max_nodes,
                    min_confidence: request.min_confidence,
                },
                envelope.results@,
                envelope.results@[j]@,
                e,
            ),
{
    let definitions = context.index.definitions();
    let relations = context.index.relations();
    let seeds = ids_seen(resolution.ids@);
    let results = envelope.results@;
    let truncated = envelope.truncated;
    let bounds = ImpactBounds {
        role: request.role,
        depth: request.depth,
        max_nodes: request.max_nodes,
        min_confidence: request.min_confidence,
    };
    let views = choose|views: Seq<ImpactRowView>| #[trigger]
        is_impact_of_all(
            definitions,
            relations,
            bounds,
            seeds,
            seeds.len(),
            views,
            truncated,
        ) && is_impact_listing(results, views);
    crate::commands::impact::impact_rows_share_one_bound(
        definitions,
        relations,
        bounds,
        seeds,
        seeds.len(),
        views,
        truncated,
    );
    let i = lemma_row_shown(results, views, j);
    let (k, at, steps, t) = lemma_part_of_row(
        definitions,
        relations,
        bounds,
        seeds,
        seeds.len(),
        views,
        truncated,
        i,
    );
    let seed = seeds[k];
    assert(views.subrange(at, at + steps.len())[i - at] == views[i]);
    assert(views[i] == (ImpactRowView { seed, step: steps[i - at] }));
    lemma_step_is_reached(
        definitions,
        relations,
        bounds,
        results,
        views,
        seed,
        at,
        steps,
        t,
        i - at,
    );
}

/// No seed is reached by a symbol over two rows, as long as it is selected once.
pub proof fn symbols_reach_a_seed_once(
    definitions: Seq<SymbolView>,
    relations: Seq<EdgeView>,
    bounds: ImpactBounds,
    seed: IdView,
    results: Seq<ImpactOutput>,
    truncated: bool,
    i: int,
    j: int,
)
    requires
        answers_impact(definitions, relations, bounds, seq![seed], results, truncated),
        0 <= i < j < results.len(),
    ensures
        results[i]@.symbol != results[j]@.symbol,
{
    let seeds = seq![seed];
    let views = choose|views: Seq<ImpactRowView>| #[trigger]
        is_impact_of_all(
            definitions,
            relations,
            bounds,
            seeds,
            seeds.len(),
            views,
            truncated,
        ) && is_impact_listing(results, views);
    let (rows, sorted) = choose|rows: Seq<ImpactRow>, sorted: Seq<ImpactRow>| #[trigger]
        is_stable_sort(rows, sorted) && rows_show(rows, views) && results == sorted.map_values(
            |r: ImpactRow| r.output,
        );
    let (at, steps, t) = lemma_part(
        definitions,
        relations,
        bounds,
        seeds,
        1,
        views,
        truncated,
        0,
    );
    lemma_single(definitions, relations, bounds, seeds, views, truncated);
    assert forall|a: int, b: int| 0 <= a < rows.len() && 0 <= b < rows.len() && a != b implies (
    #[trigger] rows[a]).output.symbol@ != (#[trigger] rows[b]).output.symbol@ by {
        assert(rows[a].shows(views[a]) && rows[b].shows(views[b]));
        lemma_single_distinct(definitions, relations, bounds, seeds, views, truncated, a, b);
    }
    assert(rows.no_duplicates());
    rows.to_multiset_ensures();
    sorted.to_multiset_ensures();
    rows.lemma_multiset_has_no_duplicates();
    sorted.lemma_multiset_has_no_duplicates_conv();
    assert(sorted.contains(sorted[i]) && sorted.contains(sorted[j]));
    assert(rows.to_multiset().count(sorted[i]) > 0 && rows.to_multiset().count(sorted[j]) > 0);
    assert(rows.contains(sorted[i]) && rows.contains(sorted[j]));
    let a = choose|a: int| 0 <= a < rows.len() && rows[a] == sorted[i];
    let b = choose|b: int| 0 <= b < rows.len() && rows[b] == sorted[j];
    assert(sorted[i] != sorted[j]);
    assert(a != b);
    assert(rows[a].output.symbol@ != rows[b].output.symbol@);
}

proof fn lemma_single(
    definitions: Seq<SymbolView>,
    relations: Seq<EdgeView>,
    bounds: ImpactBounds,
    seeds: Seq<IdView>,
    views: Seq<ImpactRowView>,
    truncated: bool,
)
    requires
        seeds.len() == 1,
        is_impact_of_all(definitions, relations, bounds, seeds, 1, views, truncated),
    ensures
        exists|steps: Seq<StepView>| #[trigger]
            rows_from(seeds[0], steps) == views && visited(seeds[0], steps).no_duplicates(),
{
    let (before, t0, steps, t1) = choose|
        before: Seq<ImpactRowView>,
        t0: bool,
        steps: Seq<StepView>,
        t1: bool,
    | #[trigger]
        extends_rows(
            definitions,
            relations,
            bounds,
            seeds[1 - 1],
            before,
            t0,
            views,
            truncated,
            steps,
            t1,
        ) && is_impact_of_all(definitions, relations, bounds, seeds, (1 - 1) as nat, before, t0);
    assert(before.len() == 0);
    assert(before + rows_from(seeds[0], steps) =~= rows_from(seeds[0], steps));
}

proof fn lemma_single_distinct(
    definitions: Seq<SymbolView>,
    relations: Seq<EdgeView>,
    bounds: ImpactBounds,
    seeds: Seq<IdView>,
    views: Seq<ImpactRowView>,
    truncated: bool,
    a: int,
    b: int,
)
    requires
        seeds.len() == 1,
        is_impact_of_all(definitions, relations, bounds, seeds, 1, views, truncated),
        0 <= a < views.len(),
        0 <= b < views.len(),
        a != b,
    ensures
        views[a].step.symbol != views[b].step.symbol,
{
    lemma_single(definitions, relations, bounds, seeds, views, truncated);
    let steps = choose|steps: Seq<StepView>| #[trigger]
        rows_from(seeds[0], steps) == views && visited(seeds[0], steps).no_duplicates();
    let nodes = visited(seeds[0], steps);
    assert(rows_from(seeds[0], steps)[a] == views[a]);
    assert(rows_from(seeds[0], steps)[b] == views[b]);
    assert(nodes[a + 1] == views[a].step.symbol && nodes[b + 1] == views[b].step.symbol);
}

/// Results that are not truncated are whole: nothing that reaches a seed, or a row of it, over
/// a relation that may be followed is left out.
pub proof fn untruncated_impact_is_closed(
    definitions: Seq<SymbolView>,
    relations: Seq<EdgeView>,
    bounds: ImpactBounds,
    seeds: Seq<IdView>,
    results: Seq<ImpactOutput>,
    seed: IdView,
    e: EdgeView,
)
    requires
        answers_impact(definitions, relations, bounds, seeds, results, false),
        defines_once(definitions),
        relations.contains(e),
        seeds.contains(seed),
        may_be_followed(definitions, bounds.role, bounds.min_confidence, seed, e),
        e.to == seed || reaches(results, seed, e.to),
    ensures
        e.from == seed || reaches(results, seed, e.from),
{
    let views = choose|views: Seq<ImpactRowView>| #[trigger]
        is_impact_of_all(
            definitions,
            relations,
            bounds,
            seeds,
            seeds.len(),
            views,
            false,
        ) && is_impact_listing(results, views);
    lemma_listed(results, views);
    let filter = seed_filter(definitions, bounds, seed);
    lemma_filter(definitions, bounds, seed, e);
    assert(followed(relations, filter, e));
    let k = choose|k: int| 0 <= k < seeds.len() && seeds[k] == seed;
    let (at, steps, t) = if e.to == seed {
        lemma_part(definitions, relations, bounds, seeds, seeds.len(), views, false, k)
    } else {
        let j = choose|j: int|
            0 <= j < results.len() && (#[trigger] results[j])@.seed == seed && results[j]@.symbol
                == e.to;
        let i = choose|i: int|
            0 <= i < views.len() && results[j]@ == impact_row(#[trigger] views[i]);
        let (m, at, steps, t) = lemma_part_of_row(
            definitions,
            relations,
            bounds,
            seeds,
            seeds.len(),
            views,
            false,
            i,
        );
        assert(views.subrange(at, at + steps.len())[i - at] == views[i]);
        assert(views[i] == (ImpactRowView { seed: seeds[m], step: steps[i - at] }));
        assert(visited(seed, steps)[i - at + 1] == e.to);
        (at, steps, t)
    };
    let nodes = visited(seed, steps);
    assert(nodes[0] == seed);
    assert(nodes.contains(e.to));
    let options = ImpactOptions {
        filter,
        max_depth: bounds.depth,
        max_nodes: left_of(bounds.max_nodes, at as nat),
    };
    if !nodes.contains(e.from) {
        assert(left_out(relations, options, seed, steps));
    }
    let p = choose|p: int| 0 <= p < nodes.len() && nodes[p] == e.from;
    if p > 0 {
        assert(views.subrange(at, at + steps.len())[p - 1] == views[at + p - 1]);
        assert(rows_from(seed, steps)[p - 1] == (ImpactRowView { seed, step: steps[p - 1] }));
        assert(lists(results, impact_row(views[at + p - 1])));
        let m = choose|m: int|
            0 <= m < results.len() && (#[trigger] results[m])@ == impact_row(views[at + p - 1]);
        assert(results[m]@.seed == seed && results[m]@.symbol == e.from);
    }
}

spec fn has_row(views: Seq<ImpactRowView>, seed: IdView, symbol: IdView) -> bool {
    exists|i: int|
        0 <= i < views.len() && (#[trigger] views[i]).seed == seed && views[i].step.symbol == symbol
}

proof fn lemma_reaches(
    results: Seq<ImpactOutput>,
    views: Seq<ImpactRowView>,
    seed: IdView,
    symbol: IdView,
)
    requires
        is_impact_listing(results, views),
    ensures
        reaches(results, seed, symbol) <==> has_row(views, seed, symbol),
{
    lemma_listed(results, views);
    if reaches(results, seed, symbol) {
        let j = choose|j: int|
            0 <= j < results.len() && (#[trigger] results[j])@.seed == seed && results[j]@.symbol
                == symbol;
        let i = choose|i: int|
            0 <= i < views.len() && results[j]@ == impact_row(#[trigger] views[i]);
        assert(views[i].seed == seed);
    }
    if has_row(views, seed, symbol) {
        let i = choose|i: int|
            0 <= i < views.len() && (#[trigger] views[i]).seed == seed && views[i].step.symbol
                == symbol;
        assert(lists(results, impact_row(views[i])));
        let j = choose|j: int|
            0 <= j < results.len() && (#[trigger] results[j])@ == impact_row(views[i]);
        assert(results[j]@.seed == seed);
    }
}

proof fn lemma_missing(
    relations: Seq<EdgeView>,
    views: Seq<ImpactRowView>,
    seed: IdView,
    at: int,
    steps: Seq<StepView>,
    filter: crate::query::index::EdgeFilter,
    options: ImpactOptions,
) -> (e: EdgeView)
    requires
        options.filter == filter,
        left_out(relations, options, seed, steps),
        0 <= at,
        at + steps.len() <= views.len(),
        views.subrange(at, at + steps.len()) == rows_from(seed, steps),
        forall|i: int|
            0 <= i < views.len() && (#[trigger] views[i]).seed == seed ==> at <= i < at
                + steps.len(),
    ensures
        relations.contains(e),
        filter.admits(e),
        e.to == seed || has_row(views, seed, e.to),
        e.from != seed,
        !has_row(views, seed, e.from),
{
    let e = choose|e: EdgeView| #[trigger]
        followed(relations, options.filter, e) && visited(seed, steps).contains(e.to) && !visited(
            seed,
            steps,
        ).contains(e.from);
    let nodes = visited(seed, steps);
    assert(nodes[0] == seed);
    if e.to != seed {
        let p = choose|p: int| 0 <= p < nodes.len() && nodes[p] == e.to;
        assert(views.subrange(at, at + steps.len())[p - 1] == views[at + p - 1]);
        assert(rows_from(seed, steps)[p - 1] == (ImpactRowView { seed, step: steps[p - 1] }));
        assert(views[at + p - 1].seed == seed);
    }
    if has_row(views, seed, e.from) {
        let i = choose|i: int|
            0 <= i < views.len() && (#[trigger] views[i]).seed == seed && views[i].step.symbol
                == e.from;
        assert(views.subrange(at, at + steps.len())[i - at] == views[i]);
        assert(rows_from(seed, steps)[i - at] == (ImpactRowView { seed, step: steps[i - at] }));
        assert(nodes[i - at + 1] == e.from);
    }
    e
}

/// Results that are truncated miss something: a relation that may be followed from one of the
/// seeds leads into that seed, or into a symbol that is among its rows, and its origin is not
/// among them. The seeds are distinct, so that a row is one of a single traversal.
pub proof fn truncated_impact_misses_something(
    definitions: Seq<SymbolView>,
    relations: Seq<EdgeView>,
    bounds: ImpactBounds,
    seeds: Seq<IdView>,
    results: Seq<ImpactOutput>,
)
    requires
        answers_impact(definitions, relations, bounds, seeds, results, true),
        defines_once(definitions),
        seeds.no_duplicates(),
    ensures
        exists|seed: IdView, e: EdgeView|
            #![trigger may_be_followed(definitions, bounds.role, bounds.min_confidence, seed, e)]
            seeds.contains(seed) && relations.contains(e) && may_be_followed(
                definitions,
                bounds.role,
                bounds.min_confidence,
                seed,
                e,
            ) && (e.to == seed || reaches(results, seed, e.to)) && e.from != seed && !reaches(
                results,
                seed,
                e.from,
            ),
{
    let views = choose|views: Seq<ImpactRowView>| #[trigger]
        is_impact_of_all(
            definitions,
            relations,
            bounds,
            seeds,
            seeds.len(),
            views,
            true,
        ) && is_impact_listing(results, views);
    let (k, at, steps) = lemma_truncated_part(
        definitions,
        relations,
        bounds,
        seeds,
        seeds.len(),
        views,
    );
    let seed = seeds[k];
    let filter = seed_filter(definitions, bounds, seed);
    let options = ImpactOptions {
        filter,
        max_depth: bounds.depth,
        max_nodes: left_of(bounds.max_nodes, at as nat),
    };
    assert(left_out(relations, options, seed, steps));
    let e = lemma_missing(relations, views, seed, at, steps, filter, options);
    lemma_filter(definitions, bounds, seed, e);
    lemma_reaches(results, views, seed, e.to);
    lemma_reaches(results, views, seed, e.from);
    assert(seeds.contains(seed));
}

proof fn lemma_common_prefix(p: Seq<u64>, x: Seq<u64>, y: Seq<u64>)
    ensures
        key_lt(p + x, p + y) == key_lt(x, y),
    decreases p.len(),
{
    if p.len() == 0 {
        assert(p + x =~= x);
        assert(p + y =~= y);
    } else {
        let q = p.drop_first();
        assert((p + x).drop_first() =~= q + x);
        assert((p + y).drop_first() =~= q + y);
        assert((p + x)[0] == p[0] && (p + y)[0] == p[0]);
        lemma_common_prefix(q, x, y);
    }
}

/// The rows of one seed are listed from near to far.
pub proof fn rows_are_listed_from_near_to_far(
    definitions: Seq<SymbolView>,
    relations: Seq<EdgeView>,
    bounds: ImpactBounds,
    seeds: Seq<IdView>,
    results: Seq<ImpactOutput>,
    truncated: bool,
    i: int,
    j: int,
)
    requires
        answers_impact(definitions, relations, bounds, seeds, results, truncated),
        0 <= i < j < results.len(),
    ensures
        results[i]@.seed == results[j]@.seed ==> results[i]@.depth <= results[j]@.depth,
{
    let views = choose|views: Seq<ImpactRowView>| #[trigger]
        is_impact_of_all(
            definitions,
            relations,
            bounds,
            seeds,
            seeds.len(),
            views,
            truncated,
        ) && is_impact_listing(results, views);
    let (rows, sorted) = choose|rows: Seq<ImpactRow>, sorted: Seq<ImpactRow>| #[trigger]
        is_stable_sort(rows, sorted) && rows_show(rows, views) && results == sorted.map_values(
            |r: ImpactRow| r.output,
        );
    let a = sorted[i];
    let b = sorted[j];
    assert(results[i] == a.output && results[j] == b.output);
    assert(key_le(a.key(), b.key()));
    if a.output.seed@ == b.output.seed@ && b.output.depth < a.output.depth {
        let p = id_key(a.output.seed@);
        let x = seq![a.output.depth as u64] + (id_key(a.output.symbol@) + edge_key(a.via@));
        let y = seq![b.output.depth as u64] + (id_key(b.output.symbol@) + edge_key(b.via@));
        lemma_common_prefix(p, y, x);
        assert(x[0] == a.output.depth as u64 && y[0] == b.output.depth as u64);
        assert(key_lt(y, x));
    }
}

} // verus!
