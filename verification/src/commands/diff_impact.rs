//! Impact of the symbols that a diff touches.

use vstd::prelude::*;
use vstd::string::*;
use vstd::utf8::*;
use crate::commands::diff::{
    byte_range, byte_ranges_overlap, change_views, line_range_to_byte_range, line_starts, overlaps,
    starts_of, FileChange, FileLineRanges,
};
use crate::commands::impact::{answers_impact, impact_of_seeds, ImpactBounds};
use crate::commands::shared::{
    ids_seen, is_query_envelope, normalized, query_envelope, QueryCommandContext,
};
use crate::deadline::{failure_of, Cancellation};
use crate::error::CliError;
use crate::graph::{ByteSpan, Confidence, IdView, RefRole, SymbolId, SymbolView};
use crate::project::path::{rejection, ProjectPath};
use crate::query::index::{
    definitions_covered, symbols_seen, GraphRead, SymbolScope, SymbolScopeView,
};
use crate::query::pages::collect_symbols;
use crate::result::{ImpactOutput, OutputEnvelope};

verus! {

/// What an impact query over a diff asks for.
#[derive(Debug, Clone, Copy)]
pub struct DiffImpactCommandRequest {
    pub role: Option<RefRole>,
    pub depth: u32,
    pub max_nodes: usize,
    pub min_confidence: Confidence,
}

/// A changed line range of the source covers a byte of the span.
pub open spec fn is_touched(span: ByteSpan, source: Seq<char>, ranges: Seq<(u32, u32)>) -> bool {
    let bytes = encode_utf8(source);
    exists|k: int|
        0 <= k < ranges.len() && (byte_range(
            starts_of(bytes, bytes.len() as int),
            bytes.len() as usize,
            (#[trigger] ranges[k]).0,
            ranges[k].1,
        ) matches Some((start, end)) && overlaps(span, start, end))
}

/// The definitions of a file that its changes touch. A path that is not
/// project-relative, or whose source could not be read, has none.
pub open spec fn touched_definitions(
    definitions: Seq<SymbolView>,
    change: FileChange,
    source: Option<Seq<char>>,
) -> Seq<SymbolView> {
    match source {
        Some(text) => if rejection(encode_utf8(change.path)) is None {
            definitions_covered(
                definitions,
                SymbolScopeView::InFile(normalized(change.path)),
            ).filter(|s: SymbolView| is_touched(s.span, text, change.ranges))
        } else {
            Seq::empty()
        },
        None => Seq::empty(),
    }
}

/// The seeds, with the identities of the first `n` definitions that are not among
/// them yet.
pub open spec fn with_new(seeds: Seq<IdView>, found: Seq<SymbolView>, n: int) -> Seq<IdView>
    decreases n,
{
    if n <= 0 {
        seeds
    } else {
        let before = with_new(seeds, found, n - 1);
        if before.contains(found[n - 1].id) {
            before
        } else {
            before.push(found[n - 1].id)
        }
    }
}

/// The symbols that the first `n` changed files touch, each once.
pub open spec fn seeds_of(
    definitions: Seq<SymbolView>,
    changes: Seq<FileChange>,
    sources: Seq<Option<Seq<char>>>,
    n: int,
) -> Seq<IdView>
    decreases n,
{
    if n <= 0 {
        Seq::empty()
    } else {
        let found = touched_definitions(definitions, changes[n - 1], sources[n - 1]);
        with_new(seeds_of(definitions, changes, sources, n - 1), found, found.len() as int)
    }
}

/// The texts of optional sources.
pub open spec fn source_views(v: Seq<Option<String>>) -> Seq<Option<Seq<char>>> {
    v.map_values(
        |s: Option<String>|
            match s {
                Some(text) => Some(text@),
                None => None,
            },
    )
}

fn contains_id(ids: &Vec<SymbolId>, id: &SymbolId) -> (r: bool)
    ensures
        r == ids_seen(ids@).contains(id@),
{
    let ghost seen = ids_seen(ids@);
    let mut i: usize = 0;
    while i < ids.len()
        invariant
            i <= ids.len(),
            seen == ids_seen(ids@),
            forall|j: int| 0 <= j < i ==> seen[j] != id@,
        decreases ids.len() - i,
    {
        assert(seen[i as int] == ids@[i as int]@);
        if ids[i].same(id) {
            return true;
        }
        i += 1;
    }
    assert(seen.len() == ids@.len());
    false
}

/// Tells whether a changed range covers a byte of the span.
fn touched(
    span: ByteSpan,
    starts: &Vec<usize>,
    total_len: usize,
    ranges: &Vec<(u32, u32)>,
    Ghost(source): Ghost<Seq<char>>,
) -> (r: bool)
    requires
        starts@ == starts_of(encode_utf8(source), encode_utf8(source).len() as int),
        total_len == encode_utf8(source).len(),
    ensures
        r == is_touched(span, source, ranges@),
{
    let mut k: usize = 0;
    while k < ranges.len()
        invariant
            k <= ranges.len(),
            starts@ == starts_of(encode_utf8(source), encode_utf8(source).len() as int),
            total_len == encode_utf8(source).len(),
            forall|j: int|
                0 <= j < k ==> !(byte_range(
                    starts@,
                    total_len,
                    (#[trigger] ranges@[j]).0,
                    ranges@[j].1,
                ) matches Some((start, end)) && overlaps(span, start, end)),
        decreases ranges.len() - k,
    {
        let (first, last) = ranges[k];
        match line_range_to_byte_range(starts, total_len, first, last) {
            Some((start, end)) => {
                if byte_ranges_overlap(span, start, end) {
                    assert(ranges@[k as int] == (first, last));
                    return true;
                }
            },
            None => {},
        }
        k += 1;
    }
    false
}

/// Adds the symbols of one file that its changes touch.
fn add_touched<R: GraphRead>(
    graph: &R,
    change: &FileLineRanges,
    source: &Option<String>,
    seeds: &mut Vec<SymbolId>,
) -> (r: Result<(), CliError>)
    ensures
        r matches Err(e) ==> graph.may_fail(e),
        r is Ok ==> ({
            let found = touched_definitions(
                graph.definitions(),
                change@,
                match source {
                    Some(text) => Some(text@),
                    None => None,
                },
            );
            ids_seen(final(seeds)@) == with_new(
                ids_seen(old(seeds)@),
                found,
                found.len() as int,
            )
        }),
{
    let text = match source {
        Some(text) => text,
        None => {
            return Ok(());
        },
    };
    let path = match ProjectPath::new(change.path.as_str().as_bytes()) {
        Ok(path) => path,
        Err(_) => {
            return Ok(());
        },
    };
    proof {
        encode_utf8_decode_utf8(path@);
    }
    let symbols = match collect_symbols(graph, SymbolScope::InFile(path.as_str())) {
        Ok(symbols) => symbols,
        Err(e) => {
            return Err(e);
        },
    };
    let ghost start = ids_seen(seeds@);
    let ghost seen = symbols_seen(symbols@);
    let ghost p = |s: SymbolView| is_touched(s.span, text@, change@.ranges);
    let ghost found = touched_definitions(graph.definitions(), change@, Some(text@));
    assert(found == seen.filter(p));
    let starts = line_starts(text.as_str());
    let total_len = text.as_str().as_bytes().len();
    let mut i: usize = 0;
    reveal(Seq::filter);
    assert(seen.take(0).filter(p) =~= Seq::<SymbolView>::empty());
    while i < symbols.len()
        invariant
            i <= symbols.len(),
            seen == symbols_seen(symbols@),
            p == (|s: SymbolView| is_touched(s.span, text@, change@.ranges)),
            starts@ == starts_of(encode_utf8(text@), encode_utf8(text@).len() as int),
            total_len == encode_utf8(text@).len(),
            ids_seen(seeds@) == with_new(
                start,
                seen.take(i as int).filter(p),
                seen.take(i as int).filter(p).len() as int,
            ),
        decreases symbols.len() - i,
    {
        let symbol = &symbols[i];
        let ghost kept = seen.take(i as int).filter(p);
        proof {
            reveal(Seq::filter);
            assert(seen.take(i + 1).drop_last() =~= seen.take(i as int));
            assert(seen.take(i + 1).last() == symbol@);
        }
        if touched(symbol.span, &starts, total_len, &change.ranges, Ghost(text@)) {
            proof {
                let more = kept.push(symbol@);
                assert(seen.take(i + 1).filter(p) == more);
                lemma_with_new_prefix(start, kept, more, kept.len() as int);
            }
            if !contains_id(seeds, &symbol.id) {
                let ghost before = seeds@;
                seeds.push(symbol.id.copied());
                assert(ids_seen(seeds@) =~= ids_seen(before).push(symbol@.id));
            }
        }
        i += 1;
    }
    assert(seen.take(seen.len() as int) =~= seen);
    Ok(())
}

proof fn lemma_with_new_prefix(
    seeds: Seq<IdView>,
    a: Seq<SymbolView>,
    b: Seq<SymbolView>,
    n: int,
)
    requires
        n <= a.len() <= b.len(),
        forall|i: int| 0 <= i < n ==> a[i] == b[i],
    ensures
        with_new(seeds, a, n) == with_new(seeds, b, n),
    decreases n,
{
    if n > 0 {
        lemma_with_new_prefix(seeds, a, b, n - 1);
    }
}

/// The symbols that a diff touches: in the order of its files, each once.
pub fn diff_seeds<R: GraphRead, C: Cancellation>(
    context: &QueryCommandContext<'_, R, C>,
    changes: &Vec<FileLineRanges>,
    sources: &Vec<Option<String>>,
) -> (r: Result<Vec<SymbolId>, CliError>)
    requires
        changes@.len() == sources@.len(),
    ensures
        match r {
            Ok(seeds) => ids_seen(seeds@) == seeds_of(
                context.index.definitions(),
                change_views(changes@),
                source_views(sources@),
                changes@.len() as int,
            ),
            Err(e) => context.interrupted_by(e) || context.index.may_fail(e),
        },
{
    let ghost files = change_views(changes@);
    let ghost texts = source_views(sources@);
    let mut seeds: Vec<SymbolId> = Vec::new();
    let mut i: usize = 0;
    assert(ids_seen(seeds@) =~= Seq::empty());
    while i < changes.len()
        invariant
            i <= changes.len(),
            changes@.len() == sources@.len(),
            files == change_views(changes@),
            texts == source_views(sources@),
            ids_seen(seeds@) == seeds_of(
                context.index.definitions(),
                files,
                texts,
                i as int,
            ),
        decreases changes.len() - i,
    {
        context.deadline.check(context.cancellation)?;
        assert(files[i as int] == changes@[i as int]@);
        match add_touched(context.index, &changes[i], &sources[i], &mut seeds) {
            Ok(()) => {},
            Err(e) => {
                return Err(e);
            },
        }
        i += 1;
    }
    Ok(seeds)
}

/// The result answers a query for the impact of changes.
pub open spec fn is_diff_impact_answer<R: GraphRead, C: Cancellation>(
    context: QueryCommandContext<'_, R, C>,
    request: DiffImpactCommandRequest,
    changes: Seq<FileLineRanges>,
    sources: Seq<Option<String>>,
    r: Result<OutputEnvelope<Vec<ImpactOutput>>, CliError>,
) -> bool {
    match r {
        Ok(e) => {
            &&& is_query_envelope(e, *context.loaded)
            &&& e.selector is None
            &&& answers_impact(
                context.index.definitions(),
                context.index.relations(),
                (ImpactBounds {
                    role: request.role,
                    depth: request.depth,
                    max_nodes: request.max_nodes,
                    min_confidence: request.min_confidence,
                }),
                seeds_of(
                    context.index.definitions(),
                    change_views(changes),
                    source_views(sources),
                    changes.len() as int,
                ),
                e.results@,
                e.truncated,
            )
            &&& e.total == e.results@.len()
            &&& e.returned == e.results@.len()
        },
        Err(e) => context.interrupted_by(e) || context.index.may_fail(e),
    }
}

/// Derives seeds from the changed lines of a diff and traverses from each of them. The
/// sources are those of the changed files, in their order; one that could not be read
/// is missing and gives no seed.
pub fn execute_diff_impact<R: GraphRead, C: Cancellation>(
    context: &QueryCommandContext<'_, R, C>,
    request: DiffImpactCommandRequest,
    changes: &Vec<FileLineRanges>,
    sources: &Vec<Option<String>>,
) -> (r: Result<OutputEnvelope<Vec<ImpactOutput>>, CliError>)
    requires
        changes@.len() == sources@.len(),
    ensures
        is_diff_impact_answer(*context, request, changes@, sources@, r),
        context.heeds(failure_of(r)),
{
    context.deadline.check(context.cancellation)?;
    let seeds = match diff_seeds(context, changes, sources) {
        Ok(seeds) => seeds,
        Err(e) => {
            return Err(e);
        },
    };
    let (results, truncated) = match impact_of_seeds(
        context,
        &seeds,
        request.role,
        request.depth,
        request.max_nodes,
        request.min_confidence,
    ) {
        Ok(found) => found,
        Err(e) => {
            return Err(e);
        },
    };
    let total = results.len();
    let mut envelope = query_envelope(context.loaded, results);
    envelope.total = total;
    envelope.returned = total;
    envelope.truncated = truncated;
    Ok(envelope)
}

/// No symbol is a seed twice, however many files or ranges touch it.
pub proof fn seeds_are_distinct(
    definitions: Seq<SymbolView>,
    changes: Seq<FileChange>,
    sources: Seq<Option<Seq<char>>>,
    n: int,
)
    ensures
        seeds_of(definitions, changes, sources, n).no_duplicates(),
    decreases n,
{
    if n > 0 {
        seeds_are_distinct(definitions, changes, sources, n - 1);
        let found = touched_definitions(definitions, changes[n - 1], sources[n - 1]);
        lemma_with_new_distinct(
            seeds_of(definitions, changes, sources, n - 1),
            found,
            found.len() as int,
        );
    }
}

proof fn lemma_with_new_distinct(seeds: Seq<IdView>, found: Seq<SymbolView>, n: int)
    requires
        seeds.no_duplicates(),
    ensures
        with_new(seeds, found, n).no_duplicates(),
    decreases n,
{
    if n > 0 {
        lemma_with_new_distinct(seeds, found, n - 1);
        let before = with_new(seeds, found, n - 1);
        if !before.contains(found[n - 1].id) {
            let after = before.push(found[n - 1].id);
            assert forall|i: int, j: int|
                0 <= i < after.len() && 0 <= j < after.len() && i != j implies after[i]
                != after[j] by {
                if i < before.len() && j < before.len() {
                    assert(before[i] != before[j]);
                } else if i < before.len() {
                    assert(before.contains(before[i]));
                } else {
                    assert(before.contains(before[j]));
                }
            }
        }
    }
}

} // verus!
