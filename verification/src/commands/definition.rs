//! Definitions of selected symbols.

use vstd::prelude::*;
use vstd::string::*;
use crate::commands::shared::{
    counts_told, file_refused, first_rows, is_query_envelope, is_refusal, is_selector_report,
    limit, query_envelope, requested_file, symbol_outputs, symbol_row, symbol_rows,
    QueryCommandContext, SelectorResolution,
};
use crate::deadline::{failure_of, Cancellation};
use crate::error::CliError;
use crate::graph::SymbolView;
use crate::query::index::{symbols_seen, GraphRead};
use crate::result::{OutputEnvelope, SelectorOutput, SymbolOutput, SymbolOutputView};

verus! {

/// What a query for definitions asks for.
#[derive(Debug, Clone, Copy)]
pub struct DefinitionCommandRequest<'a> {
    pub file: Option<&'a str>,
    pub result_limit: usize,
}

/// The definitions that a selector resolved to, as they are shown.
pub open spec fn resolved_rows(resolution: SelectorResolution) -> Seq<SymbolOutputView> {
    match resolution.symbols {
        Some(symbols) => symbols_seen(symbols@).map_values(|s: SymbolView| symbol_row(s)),
        None => Seq::empty(),
    }
}

/// Copies shown definitions.
fn copied_rows(v: &Vec<SymbolOutput>) -> (r: Vec<SymbolOutput>)
    ensures
        symbol_rows(r@) == symbol_rows(v@),
{
    let mut r: Vec<SymbolOutput> = Vec::new();
    let mut i: usize = 0;
    while i < v.len()
        invariant
            i <= v.len(),
            r@.len() == i,
            forall|j: int| 0 <= j < i ==> (#[trigger] r@[j])@ == v@[j]@,
        decreases v.len() - i,
    {
        r.push(v[i].copied());
        i += 1;
    }
    assert(symbol_rows(r@) =~= symbol_rows(v@));
    r
}

/// The result answers a query for definitions.
pub open spec fn is_definition_answer<R: GraphRead, C: Cancellation>(
    context: QueryCommandContext<'_, R, C>,
    request: DefinitionCommandRequest<'_>,
    resolution: SelectorResolution,
    r: Result<OutputEnvelope<Vec<SymbolOutput>>, CliError>,
) -> bool {
    match r {
        Ok(e) => {
            &&& !file_refused(request.file)
            &&& is_query_envelope(e, *context.loaded)
            &&& e.selector is Some
            &&& is_selector_report(e.selector->0, resolution)
            &&& counts_told(
                e,
                symbol_rows(e.results@),
                resolved_rows(resolution),
                request.result_limit,
            )
        },
        Err(e) => context.interrupted_by(e) || is_refusal(e, request.file),
    }
}

/// Returns the definitions of selected symbols. The report on the selector lists all
/// of them, whatever the limit.
pub fn execute_definition<R: GraphRead, C: Cancellation>(
    context: &QueryCommandContext<'_, R, C>,
    request: DefinitionCommandRequest<'_>,
    resolution: SelectorResolution,
) -> (r: Result<OutputEnvelope<Vec<SymbolOutput>>, CliError>)
    ensures
        is_definition_answer(*context, request, resolution, r),
        context.heeds(failure_of(r)),
{
    context.deadline.check(context.cancellation)?;
    match requested_file(request.file) {
        Ok(_) => {},
        Err(e) => {
            return Err(e);
        },
    }
    let complete: Vec<SymbolOutput> = match &resolution.symbols {
        Some(symbols) => symbol_outputs(symbols),
        None => Vec::new(),
    };
    assert(symbol_rows(complete@) =~= resolved_rows(resolution));
    let mut results = copied_rows(&complete);
    let ghost all = results@;
    proof {
        assert(symbol_rows(all).len() == all.len());
    }
    let (total, truncated) = limit(&mut results, request.result_limit);
    let returned = results.len();
    assert(symbol_rows(results@) =~= first_rows(symbol_rows(all), request.result_limit));
    let mut envelope = query_envelope(context.loaded, results);
    envelope.selector = Some(
        SelectorOutput {
            matched: resolution.matched_count,
            ambiguous: resolution.ambiguous,
            ids: resolution.ids,
            symbols: complete,
        },
    );
    envelope.total = total;
    envelope.returned = returned;
    envelope.truncated = truncated;
    Ok(envelope)
}

} // verus!
