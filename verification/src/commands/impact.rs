//! Bounded reverse-reachability impact of selected symbols.

use vstd::prelude::*;
use vstd::string::*;
use crate::commands::relations::{relation_output, relation_row};
use crate::commands::shared::{
    file_refused, ids_seen, is_query_envelope, is_refusal, is_selector_report, query_envelope,
    requested_file, selector_output, QueryCommandContext, SelectorResolution,
};
use crate::deadline::{failure_of, Cancellation};
use crate::error::CliError;
use crate::graph::{
    edge_key, id_key, push_id_key, Confidence, Edge, EdgeView, IdView, RefRole, SymbolId,
    SymbolKind, SymbolView,
};
use crate::ordering::{is_stable_sort, reversed, stable_sort, Keyed};
use crate::query::impact::{impact, is_impact, step_views, ImpactOptions, StepView};
use crate::query::index::{
    definition_of, definitions_are_determined, EdgeFilter, GraphRead,
};
use crate::result::{
    confidence_shown, ConfidenceOutput, ImpactOutput, ImpactView, OutputEnvelope,
};

verus! {

/// What an impact query asks for.
#[derive(Debug, Clone, Copy)]
pub struct ImpactCommandRequest<'a> {
    pub file: Option<&'a str>,
    pub role: Option<RefRole>,
    pub depth: u32,
    pub max_nodes: usize,
    pub min_confidence: Confidence,
}

/// The definition is one of a type.
pub open spec fn is_type_kind(kind: SymbolKind) -> bool {
    kind == SymbolKind::Struct || kind == SymbolKind::Enum || kind == SymbolKind::Trait || kind
        == SymbolKind::Class || kind == SymbolKind::Interface || kind == SymbolKind::TypeAlias
}

/// The role that is followed from a seed unless another one is asked for: every role
/// from a type, calls from anything else.
pub open spec fn default_role(definitions: Seq<SymbolView>, seed: IdView) -> Option<RefRole> {
    match definition_of(definitions, seed) {
        Some(s) => if is_type_kind(s.kind) {
            None
        } else {
            Some(RefRole::Call)
        },
        None => Some(RefRole::Call),
    }
}

/// The role that is followed from a seed unless another one is asked for.
pub fn default_impact_role<R: GraphRead>(index: &R, seed: &SymbolId) -> (r: Result<
    Option<RefRole>,
    CliError,
>)
    ensures
        r matches Err(e) ==> index.may_fail(e),
        r matches Ok(role) ==> role == default_role(index.definitions(), seed@),
{
    let found = match index.symbol(seed) {
        Ok(found) => found,
        Err(e) => {
            return Err(e);
        },
    };
    let ghost read = found;
    proof {
        definitions_are_determined(
            index.definitions(),
            seed@,
            match read {
                Some(s) => Some(s@),
                None => None,
            },
        );
    }
    match found {
        Some(symbol) => match symbol.kind {
            SymbolKind::Struct
            | SymbolKind::Enum
            | SymbolKind::Trait
            | SymbolKind::Class
            | SymbolKind::Interface
            | SymbolKind::TypeAlias => Ok(None),
            _ => Ok(Some(RefRole::Call)),
        },
        None => Ok(Some(RefRole::Call)),
    }
}

/// One row of an impact query, with the relation that orders it.
#[derive(Debug)]
pub struct ImpactRow {
    pub output: ImpactOutput,
    pub via: Edge,
}

/// One row of an impact query: a step of the traversal from a seed.
pub struct ImpactRowView {
    pub seed: IdView,
    pub step: StepView,
}

/// The row as it is shown.
pub open spec fn impact_row(v: ImpactRowView) -> ImpactView {
    ImpactView {
        seed: v.seed,
        symbol: v.step.symbol,
        parent: v.step.parent,
        depth: v.step.depth,
        path_confidence: confidence_shown(v.step.path_confidence),
        via: relation_row(v.step.via),
    }
}

impl ImpactRow {
    /// The row is the step of the traversal.
    pub open spec fn shows(self, v: ImpactRowView) -> bool {
        self.output@ == impact_row(v) && self.via@ == v.step.via
    }
}

/// Rows are listed by their seeds, then from near to far, then by symbol and relation.
pub open spec fn impact_key(seed: IdView, depth: u32, symbol: IdView, via: EdgeView) -> Seq<u64> {
    id_key(seed) + (seq![depth as u64] + (id_key(symbol) + edge_key(via)))
}

impl Keyed for ImpactRow {
    open spec fn key(&self) -> Seq<u64> {
        impact_key(self.output.seed@, self.output.depth, self.output.symbol@, self.via@)
    }

    fn sort_key(&self) -> (k: Vec<u64>) {
        let mut k: Vec<u64> = Vec::new();
        push_id_key(&mut k, &self.output.seed);
        k.push(self.output.depth as u64);
        push_id_key(&mut k, &self.output.symbol);
        let mut via = self.via.sort_key();
        k.append(&mut via);
        assert(k@ =~= self.key());
        k
    }
}

/// The rows show the steps, one by one.
pub open spec fn rows_show(rows: Seq<ImpactRow>, views: Seq<ImpactRowView>) -> bool {
    &&& rows.len() == views.len()
    &&& forall|i: int| 0 <= i < rows.len() ==> (#[trigger] rows[i]).shows(views[i])
}

/// The rows of the traversal from a seed.
pub open spec fn rows_from(seed: IdView, steps: Seq<StepView>) -> Seq<ImpactRowView> {
    steps.map_values(|step: StepView| ImpactRowView { seed, step })
}

/// What is left of a bound once some of it is used up.
pub open spec fn left_of(bound: usize, used: nat) -> usize {
    if bound > used {
        (bound - used) as usize
    } else {
        0
    }
}

/// The rows of the traversal from a seed follow the ones that were there.
pub open spec fn appends_impact(
    relations: Seq<EdgeView>,
    options: ImpactOptions,
    seed: IdView,
    before: Seq<ImpactRow>,
    after: Seq<ImpactRow>,
    truncated: bool,
) -> bool {
    exists|steps: Seq<StepView>| #[trigger]
        is_impact(relations, options, seed, steps, truncated) && after.len() == before.len()
            + steps.len() && after.take(before.len() as int) == before && rows_show(
            after.skip(before.len() as int),
            rows_from(seed, steps),
        )
}

/// Traverses from one seed within what is left of the bound on all rows, and adds
/// what it finds.
pub fn append_seed_impact<R: GraphRead>(
    index: &R,
    seed: &SymbolId,
    filter: EdgeFilter,
    max_depth: u32,
    global_max_nodes: usize,
    rows: &mut Vec<ImpactRow>,
) -> (r: Result<bool, CliError>)
    ensures
        r matches Err(e) ==> index.may_fail(e),
        r is Err ==> final(rows)@ == old(rows)@,
        r matches Ok(truncated) ==> appends_impact(
            index.relations(),
            (ImpactOptions {
                filter,
                max_depth,
                max_nodes: left_of(global_max_nodes, old(rows)@.len()),
            }),
            seed@,
            old(rows)@,
            final(rows)@,
            truncated,
        ),
{
    let ghost before = rows@;
    let max_nodes: usize = if global_max_nodes > rows.len() {
        global_max_nodes - rows.len()
    } else {
        0
    };
    let options = ImpactOptions { filter, max_depth, max_nodes };
    let found = match impact(index, seed, options) {
        Ok(found) => found,
        Err(e) => {
            return Err(e);
        },
    };
    let truncated = found.truncated;
    let ghost steps = step_views(found.steps@);
    let ghost all = found.steps@;
    let count = found.steps.len();
    let mut rest = reversed(found.steps);
    let mut i: usize = 0;
    assert(rows@.skip(before.len() as int) =~= Seq::empty());
    assert(rows@.take(before.len() as int) =~= before);
    while i < count
        invariant
            i <= count,
            count == all.len(),
            steps == step_views(all),
            rest@ == all.skip(i as int).reverse(),
            rows@.len() == before.len() + i,
            rows@.take(before.len() as int) == before,
            forall|j: int|
                0 <= j < i ==> (#[trigger] rows@.skip(before.len() as int)[j]).shows(
                    rows_from(seed@, steps)[j],
                ),
        decreases count - i,
    {
        let step = match rest.pop() {
            Some(step) => step,
            None => {
                assert(false);
                return Ok(truncated);
            },
        };
        let ghost earlier = rows@;
        let ghost n = before.len() as int;
        proof {
            assert(step == all[i as int]);
            assert(steps[i as int] == step@);
            assert(rest@ =~= all.skip(i + 1).reverse());
        }
        let output = ImpactOutput {
            seed: seed.copied(),
            symbol: step.symbol,
            parent: step.parent,
            depth: step.depth,
            path_confidence: ConfidenceOutput::from(step.path_confidence),
            via: relation_output(&step.via),
        };
        rows.push(ImpactRow { output, via: step.via });
        proof {
            assert(rows@.take(n) =~= earlier.take(n));
            assert forall|j: int| 0 <= j < i + 1 implies (#[trigger] rows@.skip(n)[j]).shows(
                rows_from(seed@, steps)[j],
            ) by {
                if j < i {
                    assert(rows@.skip(n)[j] == earlier.skip(n)[j]);
                }
            }
        }
        i += 1;
    }
    proof {
        assert(rows_show(rows@.skip(before.len() as int), rows_from(seed@, steps)));
        assert(is_impact(index.relations(), options, seed@, steps, truncated));
        assert(appends_impact(index.relations(), options, seed@, before, rows@, truncated));
    }
    Ok(truncated)
}

/// What the traversals from all seeds share.
pub struct ImpactBounds {
    pub role: Option<RefRole>,
    pub depth: u32,
    pub max_nodes: usize,
    pub min_confidence: Confidence,
}

/// The filter of the traversal from a seed.
pub open spec fn seed_filter(
    definitions: Seq<SymbolView>,
    bounds: ImpactBounds,
    seed: IdView,
) -> EdgeFilter {
    EdgeFilter {
        role: match bounds.role {
            Some(role) => Some(role),
            None => default_role(definitions, seed),
        },
        min_confidence: bounds.min_confidence,
        provenance: None,
    }
}

/// The traversal from a seed adds its rows to those before it, and tells whether it,
/// or one before it, left something out.
pub open spec fn extends_rows(
    definitions: Seq<SymbolView>,
    relations: Seq<EdgeView>,
    bounds: ImpactBounds,
    seed: IdView,
    before: Seq<ImpactRowView>,
    left_out_before: bool,
    after: Seq<ImpactRowView>,
    left_out_after: bool,
    steps: Seq<StepView>,
    truncated: bool,
) -> bool {
    &&& is_impact(
        relations,
        ImpactOptions {
            filter: seed_filter(definitions, bounds, seed),
            max_depth: bounds.depth,
            max_nodes: left_of(bounds.max_nodes, before.len()),
        },
        seed,
        steps,
        truncated,
    )
    &&& after == before + rows_from(seed, steps)
    &&& left_out_after == (left_out_before || truncated)
}

/// The rows of the traversals from the first `n` seeds, one after another, each within
/// what is left of the common bound; and whether any of them left something out.
pub open spec fn is_impact_of_all(
    definitions: Seq<SymbolView>,
    relations: Seq<EdgeView>,
    bounds: ImpactBounds,
    seeds: Seq<IdView>,
    n: nat,
    rows: Seq<ImpactRowView>,
    truncated: bool,
) -> bool
    decreases n,
{
    if n == 0 {
        rows.len() == 0 && !truncated
    } else {
        exists|before: Seq<ImpactRowView>, t0: bool, steps: Seq<StepView>, t1: bool| #[trigger]
            extends_rows(
                definitions,
                relations,
                bounds,
                seeds[n - 1],
                before,
                t0,
                rows,
                truncated,
                steps,
                t1,
            ) && is_impact_of_all(
                definitions,
                relations,
                bounds,
                seeds,
                (n - 1) as nat,
                before,
                t0,
            )
    }
}

/// The bound holds for the rows of all seeds together, not for each of them anew.
pub proof fn impact_rows_share_one_bound(
    definitions: Seq<SymbolView>,
    relations: Seq<EdgeView>,
    bounds: ImpactBounds,
    seeds: Seq<IdView>,
    n: nat,
    rows: Seq<ImpactRowView>,
    truncated: bool,
)
    requires
        is_impact_of_all(definitions, relations, bounds, seeds, n, rows, truncated),
    ensures
        rows.len() <= bounds.max_nodes,
    decreases n,
{
    if n > 0 {
        let (before, t0, steps, t1) = choose|
            before: Seq<ImpactRowView>,
            t0: bool,
            steps: Seq<StepView>,
            t1: bool,
        | #[trigger]
            extends_rows(
                definitions,
                relations,
                bounds,
                seeds[n - 1],
                before,
                t0,
                rows,
                truncated,
                steps,
                t1,
            ) && is_impact_of_all(
                definitions,
                relations,
                bounds,
                seeds,
                (n - 1) as nat,
                before,
                t0,
            );
        impact_rows_share_one_bound(
            definitions,
            relations,
            bounds,
            seeds,
            (n - 1) as nat,
            before,
            t0,
        );
    }
}

/// The results list the rows in their order.
pub open spec fn is_impact_listing(
    results: Seq<ImpactOutput>,
    views: Seq<ImpactRowView>,
) -> bool {
    exists|rows: Seq<ImpactRow>, sorted: Seq<ImpactRow>| #[trigger]
        is_stable_sort(rows, sorted) && rows_show(rows, views) && results == sorted.map_values(
            |r: ImpactRow| r.output,
        )
}

/// The results are the impact of the seeds.
pub open spec fn answers_impact(
    definitions: Seq<SymbolView>,
    relations: Seq<EdgeView>,
    bounds: ImpactBounds,
    seeds: Seq<IdView>,
    results: Seq<ImpactOutput>,
    truncated: bool,
) -> bool {
    exists|views: Seq<ImpactRowView>| #[trigger]
        is_impact_of_all(
            definitions,
            relations,
            bounds,
            seeds,
            seeds.len(),
            views,
            truncated,
        ) && is_impact_listing(results, views)
}

/// Traverses from every seed. Even with nothing left of the bound a seed is looked at,
/// so that what it would have reached is told.
pub fn impact_of_seeds<R: GraphRead, C: Cancellation>(
    context: &QueryCommandContext<'_, R, C>,
    seeds: &Vec<SymbolId>,
    role: Option<RefRole>,
    depth: u32,
    max_nodes: usize,
    min_confidence: Confidence,
) -> (r: Result<(Vec<ImpactOutput>, bool), CliError>)
    ensures
        match r {
            Ok((results, truncated)) => answers_impact(
                context.index.definitions(),
                context.index.relations(),
                (ImpactBounds { role, depth, max_nodes, min_confidence }),
                ids_seen(seeds@),
                results@,
                truncated,
            ),
            Err(e) => context.interrupted_by(e) || context.index.may_fail(e),
        },
{
    let ghost definitions = context.index.definitions();
    let ghost relations = context.index.relations();
    let ghost bounds = ImpactBounds { role, depth, max_nodes, min_confidence };
    let ghost ids = ids_seen(seeds@);
    let mut rows: Vec<ImpactRow> = Vec::new();
    let mut truncated = false;
    let ghost mut views: Seq<ImpactRowView> = Seq::empty();
    let mut i: usize = 0;
    while i < seeds.len()
        invariant
            i <= seeds.len(),
            definitions == context.index.definitions(),
            relations == context.index.relations(),
            bounds == (ImpactBounds { role, depth, max_nodes, min_confidence }),
            ids == ids_seen(seeds@),
            rows_show(rows@, views),
            is_impact_of_all(definitions, relations, bounds, ids, i as nat, views, truncated),
        decreases seeds.len() - i,
    {
        context.deadline.check(context.cancellation)?;
        let seed = &seeds[i];
        assert(ids[i as int] == seed@);
        let implicit = match default_impact_role(context.index, seed) {
            Ok(role) => role,
            Err(e) => {
                return Err(e);
            },
        };
        let filter = EdgeFilter {
            role: match role {
                Some(role) => Some(role),
                None => implicit,
            },
            min_confidence,
            provenance: None,
        };
        assert(filter == seed_filter(definitions, bounds, seed@));
        let ghost before = rows@;
        let more = match append_seed_impact(
            context.index,
            seed,
            filter,
            depth,
            max_nodes,
            &mut rows,
        ) {
            Ok(more) => more,
            Err(e) => {
                return Err(e);
            },
        };
        proof {
            let steps = choose|steps: Seq<StepView>| #[trigger]
                is_impact(
                    relations,
                    (ImpactOptions {
                        filter,
                        max_depth: depth,
                        max_nodes: left_of(max_nodes, before.len()),
                    }),
                    seed@,
                    steps,
                    more,
                ) && rows@.len() == before.len() + steps.len() && rows@.take(before.len() as int)
                    == before && rows_show(
                    rows@.skip(before.len() as int),
                    rows_from(seed@, steps),
                );
            let after = views + rows_from(seed@, steps);
            assert(extends_rows(
                definitions,
                relations,
                bounds,
                ids[i as int],
                views,
                truncated,
                after,
                truncated || more,
                steps,
                more,
            ));
            assert(rows_show(rows@, after)) by {
                assert forall|j: int| 0 <= j < rows@.len() implies (#[trigger] rows@[j]).shows(
                    after[j],
                ) by {
                    if j < before.len() {
                        assert(rows@.take(before.len() as int)[j] == rows@[j]);
                        assert(before[j].shows(views[j]));
                    } else {
                        let k = j - before.len();
                        assert(rows@.skip(before.len() as int)[k] == rows@[j]);
                        assert(rows@.skip(before.len() as int)[k].shows(
                            rows_from(seed@, steps)[k],
                        ));
                    }
                }
            }
            assert((((i + 1) as nat) - 1) as nat == i as nat);
            assert(is_impact_of_all(
                definitions,
                relations,
                bounds,
                ids,
                (i + 1) as nat,
                after,
                truncated || more,
            ));
            views = after;
        }
        truncated = truncated || more;
        i += 1;
    }
    let ghost listed = rows@;
    let sorted = stable_sort(rows);
    let ghost ordered = sorted@;
    let count = sorted.len();
    let mut rest = reversed(sorted);
    let mut results: Vec<ImpactOutput> = Vec::new();
    let mut k: usize = 0;
    let ghost outputs = ordered.map_values(|r: ImpactRow| r.output);
    while k < count
        invariant
            k <= count,
            count == ordered.len(),
            outputs == ordered.map_values(|r: ImpactRow| r.output),
            rest@ == ordered.skip(k as int).reverse(),
            results@ == outputs.take(k as int),
        decreases count - k,
    {
        match rest.pop() {
            Some(row) => {
                proof {
                    assert(row == ordered[k as int]);
                    assert(rest@ =~= ordered.skip(k + 1).reverse());
                }
                results.push(row.output);
                assert(results@ =~= outputs.take(k + 1));
            },
            None => {
                assert(false);
            },
        }
        k += 1;
    }
    proof {
        assert(outputs.take(count as int) =~= outputs);
        assert(is_stable_sort(listed, ordered));
        assert(is_impact_listing(results@, views));
        assert(is_impact_of_all(
            definitions,
            relations,
            bounds,
            ids,
            ids.len(),
            views,
            truncated,
        ));
    }
    Ok((results, truncated))
}

/// The result answers a query for impact.
pub open spec fn is_impact_answer<R: GraphRead, C: Cancellation>(
    context: QueryCommandContext<'_, R, C>,
    request: ImpactCommandRequest<'_>,
    resolution: SelectorResolution,
    r: Result<OutputEnvelope<Vec<ImpactOutput>>, CliError>,
) -> bool {
    match r {
        Ok(e) => {
            &&& !file_refused(request.file)
            &&& is_query_envelope(e, *context.loaded)
            &&& e.selector is Some
            &&& is_selector_report(e.selector->0, resolution)
            &&& answers_impact(
                context.index.definitions(),
                context.index.relations(),
                (ImpactBounds {
                    role: request.role,
                    depth: request.depth,
                    max_nodes: request.max_nodes,
                    min_confidence: request.min_confidence,
                }),
                ids_seen(resolution.ids@),
                e.results@,
                e.truncated,
            )
            &&& e.total == e.results@.len()
            &&& e.returned == e.results@.len()
        },
        Err(e) => context.interrupted_by(e) || is_refusal(e, request.file)
            || context.index.may_fail(e),
    }
}

/// Runs a separate bounded traversal for every selected seed.
pub fn execute_impact<R: GraphRead, C: Cancellation>(
    context: &QueryCommandContext<'_, R, C>,
    request: ImpactCommandRequest<'_>,
    resolution: SelectorResolution,
) -> (r: Result<OutputEnvelope<Vec<ImpactOutput>>, CliError>)
    ensures
        is_impact_answer(*context, request, resolution, r),
        context.heeds(failure_of(r)),
{
    context.deadline.check(context.cancellation)?;
    match requested_file(request.file) {
        Ok(_) => {},
        Err(e) => {
            return Err(e);
        },
    }
    let (results, truncated) = match impact_of_seeds(
        context,
        &resolution.ids,
        request.role,
        request.depth,
        request.max_nodes,
        request.min_confidence,
    ) {
        Ok(found) => found,
        Err(e) => {
            return Err(e);
        },
    };
    let total = results.len();
    let mut envelope = query_envelope(context.loaded, results);
    envelope.selector = Some(selector_output(resolution));
    envelope.total = total;
    envelope.returned = total;
    envelope.truncated = truncated;
    Ok(envelope)
}

} // verus!
