//! Bounded reverse reachability: what reaches a symbol, and how.

use vstd::prelude::*;
use crate::error::CliError;
use crate::graph::{edge_key, Confidence, Edge, EdgeView, IdView, SymbolId};
use crate::ordering::{key_lt, key_order_is_total};
use crate::query::index::{
    covered_relations_are_exact, edges_seen, relations_covered, relations_ordered, EdgeFilter,
    EdgeScope,
    EdgeScopeView, GraphRead,
};
use crate::query::pages::collect_edges;

verus! {

/// How far a traversal goes.
#[derive(Debug, Clone, Copy, PartialEq, Eq, Structural)]
pub struct ImpactOptions {
    pub filter: EdgeFilter,
    pub max_depth: u32,
    pub max_nodes: usize,
}

/// One symbol that reaches the seed: over which relation, to which symbol nearer to
/// the seed, and how far away.
#[derive(Debug)]
pub struct ImpactStep {
    pub symbol: SymbolId,
    pub parent: SymbolId,
    pub depth: u32,
    pub path_confidence: Confidence,
    pub via: Edge,
}

/// The values of a step.
pub struct StepView {
    pub symbol: IdView,
    pub parent: IdView,
    pub depth: u32,
    pub path_confidence: Confidence,
    pub via: EdgeView,
}

impl ImpactStep {
    /// The values.
    pub open spec fn view(self) -> StepView {
        StepView {
            symbol: self.symbol@,
            parent: self.parent@,
            depth: self.depth,
            path_confidence: self.path_confidence,
            via: self.via@,
        }
    }
}

/// The symbols that reach a seed, and whether a bound left any out.
#[derive(Debug)]
pub struct Impact {
    pub steps: Vec<ImpactStep>,
    pub truncated: bool,
}

/// The values of the steps.
pub open spec fn step_views(steps: Seq<ImpactStep>) -> Seq<StepView> {
    steps.map_values(|s: ImpactStep| s@)
}

/// The seed and the symbols that reach it, in the order in which they were found.
pub open spec fn visited(seed: IdView, steps: Seq<StepView>) -> Seq<IdView> {
    Seq::new(
        steps.len() + 1,
        |i: int|
            if i == 0 {
                seed
            } else {
                steps[i - 1].symbol
            },
    )
}

/// The place of a symbol among the visited ones.
pub open spec fn place(nodes: Seq<IdView>, id: IdView) -> int {
    choose|i: int| 0 <= i < nodes.len() && nodes[i] == id
}

/// How far the symbol at a place is from the seed.
pub open spec fn depth_at(steps: Seq<StepView>, at: int) -> int {
    if at <= 0 {
        0
    } else {
        steps[at - 1].depth as int
    }
}

/// The weaker of two confidences.
pub open spec fn weaker(a: Confidence, b: Confidence) -> Confidence {
    if a.rank() <= b.rank() {
        a
    } else {
        b
    }
}

/// How sure the path from the symbol at a place is.
pub open spec fn confidence_at(steps: Seq<StepView>, at: int) -> Confidence {
    if at <= 0 {
        Confidence::Exact
    } else {
        steps[at - 1].path_confidence
    }
}

/// A relation comes before another: it leads to a symbol that was found earlier, or to
/// the same one and has the smaller key.
pub open spec fn found_before(p: int, e: EdgeView, q: int, f: EdgeView) -> bool {
    p < q || (p == q && key_lt(edge_key(e), edge_key(f)))
}

/// The relation can be followed.
pub open spec fn followed(relations: Seq<EdgeView>, filter: EdgeFilter, e: EdgeView) -> bool {
    relations.contains(e) && filter.admits(e)
}

/// A step leads over a relation of the graph to the symbol that was visited before.
pub open spec fn step_ok(
    relations: Seq<EdgeView>,
    options: ImpactOptions,
    seed: IdView,
    steps: Seq<StepView>,
    k: int,
) -> bool {
    let nodes = visited(seed, steps);
    let s = steps[k];
    let p = place(nodes, s.parent);
    &&& 0 <= p <= k
    &&& nodes[p] == s.parent
    &&& followed(relations, options.filter, s.via)
    &&& s.via.to == s.parent
    &&& s.via.from == s.symbol
    &&& s.depth == depth_at(steps, p) + 1
    &&& s.depth <= options.max_depth
    &&& s.path_confidence == weaker(confidence_at(steps, p), s.via.confidence)
}

/// The steps stand in the order in which their relations come.
pub open spec fn steps_ordered(seed: IdView, steps: Seq<StepView>) -> bool {
    let nodes = visited(seed, steps);
    forall|i: int, j: int|
        0 <= i < j < steps.len() ==> found_before(
            place(nodes, (#[trigger] steps[i]).parent),
            steps[i].via,
            place(nodes, (#[trigger] steps[j]).parent),
            steps[j].via,
        )
}

/// A relation into a visited symbol was taken into account: where it comes from was
/// visited, and not by way of a later relation; or a bound left it out.
pub open spec fn taken_into_account(
    options: ImpactOptions,
    seed: IdView,
    steps: Seq<StepView>,
    e: EdgeView,
) -> bool {
    let nodes = visited(seed, steps);
    let p = place(nodes, e.to);
    if nodes.contains(e.from) {
        e.from == seed || {
            let s = steps[place(nodes, e.from) - 1];
            !found_before(p, e, place(nodes, s.parent), s.via)
        }
    } else {
        depth_at(steps, p) >= options.max_depth || (steps.len() >= options.max_nodes && (
        steps.len() > 0 ==> found_before(
            place(nodes, steps.last().parent),
            steps.last().via,
            p,
            e,
        )))
    }
}

/// Something that reaches the seed was left out.
pub open spec fn left_out(
    relations: Seq<EdgeView>,
    options: ImpactOptions,
    seed: IdView,
    steps: Seq<StepView>,
) -> bool {
    exists|e: EdgeView| #[trigger]
        followed(relations, options.filter, e) && visited(seed, steps).contains(e.to) && !visited(
            seed,
            steps,
        ).contains(e.from)
}

/// The steps are the bounded reverse reachability of the seed: nearest first, each
/// symbol once, over the relation that comes first; and what is left out is left out
/// by a bound.
pub open spec fn is_impact(
    relations: Seq<EdgeView>,
    options: ImpactOptions,
    seed: IdView,
    steps: Seq<StepView>,
    truncated: bool,
) -> bool {
    &&& visited(seed, steps).no_duplicates()
    &&& steps.len() <= options.max_nodes
    &&& forall|k: int| 0 <= k < steps.len() ==> #[trigger] step_ok(
        relations,
        options,
        seed,
        steps,
        k,
    )
    &&& steps_ordered(seed, steps)
    &&& forall|e: EdgeView| #[trigger]
        followed(relations, options.filter, e) && visited(seed, steps).contains(e.to)
            ==> taken_into_account(options, seed, steps, e)
    &&& truncated == left_out(relations, options, seed, steps)
}

proof fn lemma_place(nodes: Seq<IdView>, i: int)
    requires
        nodes.no_duplicates(),
        0 <= i < nodes.len(),
    ensures
        place(nodes, nodes[i]) == i,
{
    let p = place(nodes, nodes[i]);
    assert(0 <= p < nodes.len() && nodes[p] == nodes[i]);
}

/// The relation was looked at: it leads to a symbol that is done, or it is among the
/// first relations to the symbol that is looked at.
spec fn considered(nodes: Seq<IdView>, head: int, looked: Seq<EdgeView>, e: EdgeView) -> bool {
    place(nodes, e.to) < head || (place(nodes, e.to) == head && looked.contains(e))
}

/// What holds while a traversal goes on: `head` is the place of the symbol whose
/// relations are looked at, and `looked` are those of them that are done.
spec fn exploring(
    relations: Seq<EdgeView>,
    options: ImpactOptions,
    seed: IdView,
    steps: Seq<StepView>,
    head: int,
    looked: Seq<EdgeView>,
    truncated: bool,
    missed: EdgeView,
) -> bool {
    let nodes = visited(seed, steps);
    &&& nodes.no_duplicates()
    &&& steps.len() <= options.max_nodes
    &&& 0 <= head <= nodes.len()
    &&& forall|k: int| 0 <= k < steps.len() ==> #[trigger] step_ok(
        relations,
        options,
        seed,
        steps,
        k,
    )
    &&& steps_ordered(seed, steps)
    &&& forall|i: int, j: int|
        0 <= i <= j < nodes.len() ==> #[trigger] depth_at(steps, i) <= #[trigger] depth_at(steps, j)
    &&& forall|j: int|
        0 <= j < nodes.len() && head < nodes.len() ==> #[trigger] depth_at(steps, j) <= depth_at(
            steps,
            head,
        ) + 1
    &&& forall|k: int|
        0 <= k < steps.len() ==> considered(nodes, head, looked, (#[trigger] steps[k]).via)
    &&& forall|e: EdgeView|
        #![trigger followed(relations, options.filter, e)]
        followed(relations, options.filter, e) && nodes.contains(e.to) && considered(
            nodes,
            head,
            looked,
            e,
        ) ==> taken_into_account(options, seed, steps, e) && (!nodes.contains(e.from) ==> truncated)
    &&& truncated ==> followed(relations, options.filter, missed) && nodes.contains(missed.to)
        && considered(nodes, head, looked, missed) && !nodes.contains(missed.from)
}

proof fn lemma_visited_push(seed: IdView, steps: Seq<StepView>, s: StepView)
    requires
        visited(seed, steps).no_duplicates(),
        !visited(seed, steps).contains(s.symbol),
    ensures
        visited(seed, steps.push(s)) == visited(seed, steps).push(s.symbol),
        visited(seed, steps.push(s)).no_duplicates(),
        forall|id: IdView|
            visited(seed, steps).contains(id) ==> #[trigger] place(visited(seed, steps.push(s)), id)
                == place(visited(seed, steps), id),
        place(visited(seed, steps.push(s)), s.symbol) == steps.len() + 1,
{
    let nodes = visited(seed, steps);
    let more = visited(seed, steps.push(s));
    assert(more =~= nodes.push(s.symbol));
    assert(more.no_duplicates()) by {
        assert forall|i: int, j: int| 0 <= i < more.len() && 0 <= j < more.len() && i
            != j implies more[i] != more[j] by {
            if i < nodes.len() && j < nodes.len() {
                assert(nodes[i] != nodes[j]);
            } else if i < nodes.len() {
                assert(nodes.contains(nodes[i]));
            } else {
                assert(nodes.contains(nodes[j]));
            }
        }
    }
    assert forall|id: IdView| nodes.contains(id) implies #[trigger] place(more, id) == place(
        nodes,
        id,
    ) by {
        let i = choose|i: int| 0 <= i < nodes.len() && nodes[i] == id;
        lemma_place(nodes, i);
        assert(more[i] == id);
        lemma_place(more, i);
    }
    assert(more[nodes.len() as int] == s.symbol);
    lemma_place(more, nodes.len() as int);
}

/// Going on to the next symbol once all relations to this one are done.
proof fn lemma_next(
    relations: Seq<EdgeView>,
    options: ImpactOptions,
    seed: IdView,
    steps: Seq<StepView>,
    head: int,
    looked: Seq<EdgeView>,
    truncated: bool,
    missed: EdgeView,
)
    requires
        exploring(relations, options, seed, steps, head, looked, truncated, missed),
        head < visited(seed, steps).len(),
        forall|e: EdgeView|
            #![trigger followed(relations, options.filter, e)]
            followed(relations, options.filter, e) && e.to == visited(seed, steps)[head]
                ==> looked.contains(e),
    ensures
        exploring(
            relations,
            options,
            seed,
            steps,
            head + 1,
            Seq::empty(),
            truncated,
            missed,
        ),
{
    let nodes = visited(seed, steps);
    let none = Seq::<EdgeView>::empty();
    assert forall|k: int| 0 <= k < steps.len() implies considered(
        nodes,
        head + 1,
        none,
        (#[trigger] steps[k]).via,
    ) by {
        assert(considered(nodes, head, looked, steps[k].via));
    }
    assert forall|e: EdgeView|
        #![trigger followed(relations, options.filter, e)]
        followed(relations, options.filter, e) && nodes.contains(e.to) && considered(
            nodes,
            head + 1,
            none,
            e,
        ) implies considered(nodes, head, looked, e) by {
        let i = choose|i: int| 0 <= i < nodes.len() && nodes[i] == e.to;
        lemma_place(nodes, i);
        if place(nodes, e.to) == head {
            assert(looked.contains(e));
        }
    }
    if head + 1 < nodes.len() {
        assert forall|j: int| 0 <= j < nodes.len() implies #[trigger] depth_at(steps, j)
            <= depth_at(steps, head + 1) + 1 by {
            assert(depth_at(steps, head) <= depth_at(steps, head + 1));
        }
    }
}

/// Looking at a relation that leads from a visited symbol, or at one that a bound
/// leaves out.
proof fn lemma_look(
    relations: Seq<EdgeView>,
    options: ImpactOptions,
    seed: IdView,
    steps: Seq<StepView>,
    head: int,
    looked: Seq<EdgeView>,
    truncated: bool,
    missed: EdgeView,
    e: EdgeView,
)
    requires
        exploring(relations, options, seed, steps, head, looked, truncated, missed),
        head < visited(seed, steps).len(),
        followed(relations, options.filter, e),
        e.to == visited(seed, steps)[head],
        forall|i: int|
            0 <= i < looked.len() ==> key_lt(edge_key(#[trigger] looked[i]), edge_key(e)),
        visited(seed, steps).contains(e.from) || depth_at(steps, head) >= options.max_depth
            || steps.len() >= options.max_nodes,
    ensures
        visited(seed, steps).contains(e.from) ==> exploring(
            relations,
            options,
            seed,
            steps,
            head,
            looked.push(e),
            truncated,
            missed,
        ),
        !visited(seed, steps).contains(e.from) ==> exploring(
            relations,
            options,
            seed,
            steps,
            head,
            looked.push(e),
            true,
            e,
        ),
{
    let nodes = visited(seed, steps);
    let more = looked.push(e);
    lemma_place(nodes, head);
    assert(nodes.contains(e.to));
    assert(more[looked.len() as int] == e);
    assert(more.contains(e));
    assert forall|f: EdgeView| looked.contains(f) implies #[trigger] more.contains(f) by {
        let i = choose|i: int| 0 <= i < looked.len() && looked[i] == f;
        assert(more[i] == f);
    }
    assert forall|f: EdgeView| #[trigger] more.contains(f) && f != e implies looked.contains(
        f,
    ) by {
        let i = choose|i: int| 0 <= i < more.len() && more[i] == f;
        assert(i < looked.len());
        assert(looked[i] == f);
    }
    // Every step so far was found before this relation.
    assert forall|k: int| 0 <= k < steps.len() implies found_before(
        place(nodes, (#[trigger] steps[k]).parent),
        steps[k].via,
        head,
        e,
    ) by {
        assert(considered(nodes, head, looked, steps[k].via));
        assert(step_ok(relations, options, seed, steps, k));
        if place(nodes, steps[k].via.to) == head {
            let i = choose|i: int| 0 <= i < looked.len() && looked[i] == steps[k].via;
            assert(key_lt(edge_key(looked[i]), edge_key(e)));
        }
    }
    assert(taken_into_account(options, seed, steps, e)) by {
        if nodes.contains(e.from) {
            if e.from != seed {
                let i = choose|i: int| 0 <= i < nodes.len() && nodes[i] == e.from;
                lemma_place(nodes, i);
                assert(i > 0);
                let s = steps[i - 1];
                assert(found_before(place(nodes, s.parent), s.via, head, e));
                key_order_is_total(edge_key(s.via), edge_key(e));
            }
        } else if depth_at(steps, head) < options.max_depth {
            if steps.len() > 0 {
                assert(found_before(
                    place(nodes, steps[steps.len() - 1].parent),
                    steps[steps.len() - 1].via,
                    head,
                    e,
                ));
            }
        }
    }
    assert forall|k: int| 0 <= k < steps.len() implies considered(
        nodes,
        head,
        more,
        (#[trigger] steps[k]).via,
    ) by {
        assert(considered(nodes, head, looked, steps[k].via));
    }
}

/// Taking a relation that leads from a symbol that was not visited yet.
proof fn lemma_take(
    relations: Seq<EdgeView>,
    options: ImpactOptions,
    seed: IdView,
    steps: Seq<StepView>,
    head: int,
    looked: Seq<EdgeView>,
    truncated: bool,
    missed: EdgeView,
    s: StepView,
)
    requires
        exploring(relations, options, seed, steps, head, looked, truncated, missed),
        head < visited(seed, steps).len(),
        followed(relations, options.filter, s.via),
        s.via.to == visited(seed, steps)[head],
        s.parent == s.via.to,
        s.symbol == s.via.from,
        s.depth == depth_at(steps, head) + 1,
        s.path_confidence == weaker(confidence_at(steps, head), s.via.confidence),
        forall|i: int|
            0 <= i < looked.len() ==> key_lt(edge_key(#[trigger] looked[i]), edge_key(s.via)),
        !visited(seed, steps).contains(s.symbol),
        depth_at(steps, head) < options.max_depth,
        steps.len() < options.max_nodes,
    ensures
        exploring(
            relations,
            options,
            seed,
            steps.push(s),
            head,
            looked.push(s.via),
            truncated,
            missed,
        ),
{
    let e = s.via;
    let nodes = visited(seed, steps);
    let after = steps.push(s);
    let nodes2 = visited(seed, after);
    let more = looked.push(e);
    lemma_visited_push(seed, steps, s);
    lemma_place(nodes, head);
    assert(nodes.contains(e.to));
    assert(nodes.contains(seed)) by {
        assert(nodes[0] == seed);
    }
    assert(more[looked.len() as int] == e);
    assert(more.contains(e));
    assert forall|f: EdgeView| looked.contains(f) implies #[trigger] more.contains(f) by {
        let i = choose|i: int| 0 <= i < looked.len() && looked[i] == f;
        assert(more[i] == f);
    }
    assert forall|f: EdgeView| #[trigger] more.contains(f) && f != e implies looked.contains(
        f,
    ) by {
        let i = choose|i: int| 0 <= i < more.len() && more[i] == f;
        assert(looked[i] == f);
    }
    assert forall|i: int| 0 <= i < nodes.len() implies #[trigger] depth_at(after, i) == depth_at(
        steps,
        i,
    ) && confidence_at(after, i) == confidence_at(steps, i) by {
        if i > 0 {
            assert(after[i - 1] == steps[i - 1]);
        }
    }
    // Nothing was left out so far: the bounds still leave room.
    assert forall|f: EdgeView|
        #![trigger followed(relations, options.filter, f)]
        followed(relations, options.filter, f) && nodes.contains(f.to) && considered(
            nodes,
            head,
            looked,
            f,
        ) implies nodes.contains(f.from) by {
        let i = choose|i: int| 0 <= i < nodes.len() && nodes[i] == f.to;
        lemma_place(nodes, i);
        assert(depth_at(steps, i) <= depth_at(steps, head));
        assert(taken_into_account(options, seed, steps, f));
    }
    assert(!truncated);
    assert forall|k: int| 0 <= k < steps.len() implies found_before(
        place(nodes, (#[trigger] steps[k]).parent),
        steps[k].via,
        head,
        e,
    ) by {
        assert(considered(nodes, head, looked, steps[k].via));
        assert(step_ok(relations, options, seed, steps, k));
        if place(nodes, steps[k].via.to) == head {
            let i = choose|i: int| 0 <= i < looked.len() && looked[i] == steps[k].via;
            assert(key_lt(edge_key(looked[i]), edge_key(e)));
        }
    }
    assert forall|k: int| 0 <= k < after.len() implies #[trigger] step_ok(
        relations,
        options,
        seed,
        after,
        k,
    ) by {
        if k < steps.len() {
            assert(step_ok(relations, options, seed, steps, k));
            let p = place(nodes, steps[k].parent);
            assert(nodes.contains(nodes[p]));
            assert(after[k] == steps[k]);
            assert(nodes2[p] == nodes[p]);
            assert(depth_at(after, p) == depth_at(steps, p));
        } else {
            assert(nodes2[head] == nodes[head]);
            assert(depth_at(after, head) == depth_at(steps, head));
        }
    }
    assert(steps_ordered(seed, after)) by {
        assert forall|i: int, j: int| 0 <= i < j < after.len() implies found_before(
            place(nodes2, (#[trigger] after[i]).parent),
            after[i].via,
            place(nodes2, (#[trigger] after[j]).parent),
            after[j].via,
        ) by {
            assert(step_ok(relations, options, seed, steps, i));
            assert(nodes.contains(nodes[place(nodes, steps[i].parent)]));
            assert(after[i] == steps[i]);
            if j < steps.len() {
                assert(step_ok(relations, options, seed, steps, j));
                assert(nodes.contains(nodes[place(nodes, steps[j].parent)]));
                assert(after[j] == steps[j]);
            }
        }
    }
    assert forall|i: int, j: int| 0 <= i <= j < nodes2.len() implies #[trigger] depth_at(after, i)
        <= #[trigger] depth_at(after, j) by {
        if j < nodes.len() {
            assert(depth_at(steps, i) <= depth_at(steps, j));
        } else if i < nodes.len() {
            assert(depth_at(after, i) == depth_at(steps, i));
            assert(depth_at(after, j) == s.depth);
        }
    }
    assert forall|j: int| 0 <= j < nodes2.len() implies #[trigger] depth_at(after, j) <= depth_at(
        after,
        head,
    ) + 1 by {
        assert(depth_at(after, head) == depth_at(steps, head));
        if j < nodes.len() {
            assert(depth_at(after, j) == depth_at(steps, j));
        }
    }
    assert forall|k: int| 0 <= k < after.len() implies considered(
        nodes2,
        head,
        more,
        (#[trigger] after[k]).via,
    ) by {
        if k < steps.len() {
            assert(step_ok(relations, options, seed, steps, k));
            assert(nodes.contains(nodes[place(nodes, steps[k].parent)]));
            assert(considered(nodes, head, looked, steps[k].via));
            assert(after[k] == steps[k]);
        }
    }
    assert forall|f: EdgeView|
        #![trigger followed(relations, options.filter, f)]
        followed(relations, options.filter, f) && nodes2.contains(f.to) && considered(
            nodes2,
            head,
            more,
            f,
        ) implies taken_into_account(options, seed, after, f) && nodes2.contains(f.from) by {
        if !nodes.contains(f.to) {
            let i = choose|i: int| 0 <= i < nodes2.len() && nodes2[i] == f.to;
            if i < nodes.len() {
                assert(nodes[i] == f.to);
                assert(false);
            }
            assert(f.to == s.symbol);
            assert(false);
        }
        assert(place(nodes2, f.to) == place(nodes, f.to));
        if f == e {
            assert(nodes2[nodes.len() as int] == e.from);
            assert(after[after.len() - 1] == s);
            key_order_is_total(edge_key(e), edge_key(e));
        } else {
            assert(considered(nodes, head, looked, f));
            assert(nodes.contains(f.from));
            assert(taken_into_account(options, seed, steps, f));
            let i = choose|i: int| 0 <= i < nodes.len() && nodes[i] == f.from;
            lemma_place(nodes, i);
            assert(nodes2[i] == f.from);
            if f.from != seed {
                assert(i > 0);
                assert(after[i - 1] == steps[i - 1]);
                assert(step_ok(relations, options, seed, steps, i - 1));
                assert(nodes.contains(nodes[place(nodes, steps[i - 1].parent)]));
            }
        }
    }
}

/// Tells whether the symbol was visited.
fn was_visited(seed: &SymbolId, steps: &Vec<ImpactStep>, id: &SymbolId) -> (r: bool)
    ensures
        r == visited(seed@, step_views(steps@)).contains(id@),
{
    let ghost views = step_views(steps@);
    let ghost nodes = visited(seed@, views);
    if seed.same(id) {
        assert(nodes[0] == id@);
        return true;
    }
    let mut i: usize = 0;
    while i < steps.len()
        invariant
            i <= steps.len(),
            views == step_views(steps@),
            nodes == visited(seed@, views),
            seed@ != id@,
            forall|j: int| 0 <= j <= i ==> nodes[j] != id@,
        decreases steps.len() - i,
    {
        assert(nodes[i + 1] == views[i as int].symbol);
        assert(views[i as int] == steps@[i as int]@);
        if steps[i].symbol.same(id) {
            assert(nodes[i + 1] == id@);
            return true;
        }
        i += 1;
    }
    assert(nodes.len() == steps@.len() + 1);
    false
}

fn weakest(a: Confidence, b: Confidence) -> (r: Confidence)
    ensures
        r == weaker(a, b),
{
    if b.at_least(a) {
        a
    } else {
        b
    }
}

/// Traverses the relations of a graph backwards from a seed, within bounds.
pub fn impact<R: GraphRead>(graph: &R, seed: &SymbolId, options: ImpactOptions) -> (r: Result<
    Impact,
    CliError,
>)
    ensures
        r matches Err(e) ==> graph.may_fail(e),
        r matches Ok(found) ==> is_impact(
            graph.relations(),
            options,
            seed@,
            step_views(found.steps@),
            found.truncated,
        ),
{
    let ghost relations = graph.relations();
    let mut steps: Vec<ImpactStep> = Vec::new();
    let mut truncated = false;
    let mut head: usize = 0;
    let ghost mut missed: EdgeView = arbitrary();
    proof {
        let none = step_views(steps@);
        assert(none =~= Seq::<StepView>::empty());
        let nodes = visited(seed@, none);
        assert(nodes.len() == 1 && nodes[0] == seed@);
        lemma_place(nodes, 0);
        assert forall|e: EdgeView|
            #![trigger followed(relations, options.filter, e)]
            nodes.contains(e.to) implies place(nodes, e.to) == 0 by {
            let i = choose|i: int| 0 <= i < nodes.len() && nodes[i] == e.to;
            assert(i == 0);
        }
    }
    loop
        invariant_except_break
            head <= steps@.len(),
            exploring(
                relations,
                options,
                seed@,
                step_views(steps@),
                head as int,
                Seq::empty(),
                truncated,
                missed,
            ),
        invariant
            relations == graph.relations(),
        ensures
            exploring(
                relations,
                options,
                seed@,
                step_views(steps@),
                (steps@.len() + 1) as int,
                Seq::empty(),
                truncated,
                missed,
            ),
        decreases options.max_nodes - head,
    {
        let ghost nodes = visited(seed@, step_views(steps@));
        let current: SymbolId = if head == 0 {
            seed.copied()
        } else {
            steps[head - 1].symbol.copied()
        };
        let (depth, path_confidence): (u32, Confidence) = if head == 0 {
            (0, Confidence::Exact)
        } else {
            (steps[head - 1].depth, steps[head - 1].path_confidence)
        };
        proof {
            if head > 0 {
                assert(step_views(steps@)[head - 1] == steps@[head - 1]@);
            }
            assert(current@ == nodes[head as int]);
        }
        let edges = match collect_edges(graph, EdgeScope::Into(&current), options.filter) {
            Ok(edges) => edges,
            Err(e) => {
                return Err(e);
            },
        };
        let ghost into = edges_seen(edges@);
        let mut i: usize = 0;
        assert(into.take(0) =~= Seq::<EdgeView>::empty());
        while i < edges.len()
            invariant
                i <= edges.len(),
                relations == graph.relations(),
                into == edges_seen(edges@),
                relations_ordered(into),
                into == relations_covered(relations, EdgeScopeView::Into(current@), options.filter),
                head <= steps@.len(),
                head <= options.max_nodes,
                current@ == visited(seed@, step_views(steps@))[head as int],
                depth == depth_at(step_views(steps@), head as int),
                path_confidence == confidence_at(step_views(steps@), head as int),
                exploring(
                    relations,
                    options,
                    seed@,
                    step_views(steps@),
                    head as int,
                    into.take(i as int),
                    truncated,
                    missed,
                ),
            decreases edges.len() - i,
        {
            let edge = &edges[i];
            let ghost e = edge@;
            let ghost looked = into.take(i as int);
            let ghost before = step_views(steps@);
            proof {
                assert(into[i as int] == e);
                covered_relations_are_exact(
                    relations,
                    EdgeScopeView::Into(current@),
                    options.filter,
                    e,
                );
                assert(into.contains(e));
                assert(into.take(i + 1) =~= looked.push(e));
                assert forall|j: int| 0 <= j < looked.len() implies key_lt(
                    edge_key(#[trigger] looked[j]),
                    edge_key(e),
                ) by {
                    assert(looked[j] == into[j]);
                }
            }
            if was_visited(seed, &steps, &edge.from) {
                proof {
                    lemma_look(
                        relations,
                        options,
                        seed@,
                        before,
                        head as int,
                        looked,
                        truncated,
                        missed,
                        e,
                    );
                }
            } else if depth < options.max_depth && steps.len() < options.max_nodes {
                let step = ImpactStep {
                    symbol: edge.from.copied(),
                    parent: current.copied(),
                    depth: depth + 1,
                    path_confidence: weakest(path_confidence, edge.confidence),
                    via: edge.copied(),
                };
                let ghost seen = step@;
                proof {
                    lemma_take(
                        relations,
                        options,
                        seed@,
                        before,
                        head as int,
                        looked,
                        truncated,
                        missed,
                        seen,
                    );
                }
                steps.push(step);
                proof {
                    assert(step_views(steps@) =~= before.push(seen));
                    lemma_visited_push(seed@, before, seen);
                    if head > 0 {
                        assert(before.push(seen)[head - 1] == before[head - 1]);
                    }
                }
            } else {
                proof {
                    lemma_look(
                        relations,
                        options,
                        seed@,
                        before,
                        head as int,
                        looked,
                        truncated,
                        missed,
                        e,
                    );
                    missed = e;
                }
                truncated = true;
            }
            i += 1;
        }
        proof {
            assert(into.take(i as int) =~= into);
            let done = step_views(steps@);
            assert forall|e: EdgeView|
                #![trigger followed(relations, options.filter, e)]
                followed(relations, options.filter, e) && e.to == visited(
                    seed@,
                    done,
                )[head as int] implies into.contains(e) by {
                covered_relations_are_exact(
                    relations,
                    EdgeScopeView::Into(current@),
                    options.filter,
                    e,
                );
            }
            lemma_next(
                relations,
                options,
                seed@,
                done,
                head as int,
                into,
                truncated,
                missed,
            );
        }
        if head == steps.len() {
            break;
        }
        head += 1;
    }
    proof {
        let done = step_views(steps@);
        let nodes = visited(seed@, done);
        assert forall|e: EdgeView|
            #![trigger followed(relations, options.filter, e)]
            followed(relations, options.filter, e) && nodes.contains(e.to) implies considered(
            nodes,
            (steps@.len() + 1) as int,
            Seq::empty(),
            e,
        ) by {
            let i = choose|i: int| 0 <= i < nodes.len() && nodes[i] == e.to;
            lemma_place(nodes, i);
        }
        if truncated {
            assert(followed(relations, options.filter, missed));
            assert(left_out(relations, options, seed@, done));
        }
    }
    Ok(Impact { steps, truncated })
}

/// A path of `n` relations leads from the symbol to the seed.
pub open spec fn reaches(
    relations: Seq<EdgeView>,
    filter: EdgeFilter,
    seed: IdView,
    id: IdView,
    n: nat,
) -> bool
    decreases n,
{
    if n == 0 {
        id == seed
    } else {
        exists|e: EdgeView| #[trigger]
            followed(relations, filter, e) && e.from == id && reaches(
                relations,
                filter,
                seed,
                e.to,
                (n - 1) as nat,
            )
    }
}

proof fn lemma_depths_grow(
    relations: Seq<EdgeView>,
    options: ImpactOptions,
    seed: IdView,
    steps: Seq<StepView>,
    truncated: bool,
    i: int,
    j: int,
)
    requires
        is_impact(relations, options, seed, steps, truncated),
        0 <= i <= j <= steps.len(),
    ensures
        depth_at(steps, i) <= depth_at(steps, j),
    decreases j,
{
    if 0 < i < j {
        let nodes = visited(seed, steps);
        assert(step_ok(relations, options, seed, steps, i - 1));
        assert(step_ok(relations, options, seed, steps, j - 1));
        let a = place(nodes, steps[i - 1].parent);
        let b = place(nodes, steps[j - 1].parent);
        assert(found_before(a, steps[i - 1].via, b, steps[j - 1].via));
        lemma_depths_grow(relations, options, seed, steps, truncated, a, b);
    }
}

/// When no bound left anything out, every symbol from which a path leads to the seed
/// is among the visited ones, and no path is shorter than the depth it is given.
pub proof fn impact_is_complete_and_nearest(
    relations: Seq<EdgeView>,
    options: ImpactOptions,
    seed: IdView,
    steps: Seq<StepView>,
    id: IdView,
    n: nat,
)
    requires
        is_impact(relations, options, seed, steps, false),
        reaches(relations, options.filter, seed, id, n),
    ensures
        visited(seed, steps).contains(id),
        depth_at(steps, place(visited(seed, steps), id)) <= n,
    decreases n,
{
    let nodes = visited(seed, steps);
    assert(nodes[0] == seed);
    if n == 0 {
        lemma_place(nodes, 0);
    } else {
        let e = choose|e: EdgeView| #[trigger]
            followed(relations, options.filter, e) && e.from == id && reaches(
                relations,
                options.filter,
                seed,
                e.to,
                (n - 1) as nat,
            );
        impact_is_complete_and_nearest(relations, options, seed, steps, e.to, (n - 1) as nat);
        assert(followed(relations, options.filter, e));
        assert(nodes.contains(id)) by {
            if !nodes.contains(e.from) {
                assert(left_out(relations, options, seed, steps));
            }
        }
        let i = choose|i: int| 0 <= i < nodes.len() && nodes[i] == id;
        lemma_place(nodes, i);
        let t = choose|t: int| 0 <= t < nodes.len() && nodes[t] == e.to;
        lemma_place(nodes, t);
        if id == seed {
            lemma_place(nodes, 0);
        } else {
            assert(taken_into_account(options, seed, steps, e));
            let s = steps[i - 1];
            assert(step_ok(relations, options, seed, steps, i - 1));
            lemma_depths_grow(
                relations,
                options,
                seed,
                steps,
                false,
                place(nodes, s.parent),
                t,
            );
        }
    }
}

/// Every visited symbol reaches the seed over a path as long as its depth.
pub proof fn impact_rows_reach_the_seed(
    relations: Seq<EdgeView>,
    options: ImpactOptions,
    seed: IdView,
    steps: Seq<StepView>,
    truncated: bool,
    at: int,
)
    requires
        is_impact(relations, options, seed, steps, truncated),
        0 <= at <= steps.len(),
    ensures
        reaches(
            relations,
            options.filter,
            seed,
            visited(seed, steps)[at],
            depth_at(steps, at) as nat,
        ),
    decreases at,
{
    if at > 0 {
        let nodes = visited(seed, steps);
        let s = steps[at - 1];
        assert(step_ok(relations, options, seed, steps, at - 1));
        let p = place(nodes, s.parent);
        impact_rows_reach_the_seed(relations, options, seed, steps, truncated, p);
        assert(followed(relations, options.filter, s.via));
        assert(((s.depth - 1) as nat) == depth_at(steps, p) as nat);
    }
}

} // verus!
