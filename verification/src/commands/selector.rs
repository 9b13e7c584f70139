//! From the text of a selector to the identities that it names.

use vstd::prelude::*;
use vstd::string::*;
use crate::commands::shared::{
    ids_seen, normalized, normalized_project_path, SelectorResolution,
};
use crate::error::CliError;
use crate::execution::dispatch::SelectorRequest;
use crate::graph::{id_display, id_key, EdgeView, IdView, Symbol, SymbolId, SymbolView};
use crate::ordering::strictly_sorted_by_key;
use crate::query::index::{has_key, is_known, symbols_seen, GraphIndex, GraphRead};
use crate::text::same_text;

verus! {

/// The definition has the text of the selector as its name or as its display form, and is
/// of the kind and in the file that are asked for, where any are.
pub open spec fn is_selected(s: SymbolView, request: SelectorRequest<'_>) -> bool {
    &&& s.name == request.selector.text@ || id_display(s.id) == request.selector.text@
    &&& request.kind matches Some(k) ==> s.kind == k
    &&& request.file matches Some(f) ==> normalized(s.file) == normalized(f@)
}

/// The definitions among the first `n` that a selector names, in their order.
pub open spec fn selected(
    definitions: Seq<SymbolView>,
    request: SelectorRequest<'_>,
    n: nat,
) -> Seq<SymbolView>
    decreases n,
{
    if n == 0 {
        Seq::empty()
    } else {
        let before = selected(definitions, request, (n - 1) as nat);
        if is_selected(definitions[n - 1], request) {
            before.push(definitions[n - 1])
        } else {
            before
        }
    }
}

/// The identities are those of the graph with the display form, ends of relations among
/// them, in the order of their keys.
pub open spec fn are_displayed(
    definitions: Seq<SymbolView>,
    relations: Seq<EdgeView>,
    text: Seq<char>,
    ids: Seq<SymbolId>,
) -> bool {
    &&& strictly_sorted_by_key(ids)
    &&& forall|i: int|
        0 <= i < ids.len() ==> is_known(definitions, relations, (#[trigger] ids[i])@) && id_display(
            ids[i]@,
        ) == text
    &&& forall|id: IdView| #[trigger]
        is_known(definitions, relations, id) && id_display(id) == text ==> has_key(ids, id_key(id))
}

/// Only definitions can answer: they are asked for, or some do.
pub open spec fn definitions_answer(
    request: SelectorRequest<'_>,
    found: Seq<SymbolView>,
) -> bool {
    request.definitions_only || request.kind is Some || request.file is Some || found.len() > 0
}

/// The identities are what the selector names: definitions by name or display form, and
/// where none answers, ends of relations by display form.
pub open spec fn are_named(
    index: &GraphIndex,
    request: SelectorRequest<'_>,
    ids: Seq<SymbolId>,
) -> bool {
    let found = selected(index.definitions(), request, index.definitions().len());
    if definitions_answer(request, found) {
        ids_seen(ids) == found.map_values(|s: SymbolView| s.id)
    } else {
        are_displayed(index.definitions(), index.relations(), request.selector.text@, ids)
    }
}

/// The result answers the selector: nothing named is no match, and more than one
/// identity is refused where only one is wanted.
pub open spec fn is_resolution(
    index: &GraphIndex,
    request: SelectorRequest<'_>,
    ids: Seq<SymbolId>,
    r: Result<SelectorResolution, CliError>,
) -> bool {
    if ids.len() == 0 {
        r == Err::<SelectorResolution, CliError>(CliError::NoMatch)
    } else if ids.len() > 1 && request.require_unique {
        r == Err::<SelectorResolution, CliError>(CliError::Ambiguous)
    } else {
        &&& r is Ok
        &&& r->Ok_0.ids@ == ids
        &&& r->Ok_0.symbols is Some
        &&& symbols_seen(r->Ok_0.symbols->0@) == selected(
            index.definitions(),
            request,
            index.definitions().len(),
        )
        &&& r->Ok_0.matched_count == ids.len()
        &&& r->Ok_0.ambiguous == (ids.len() > 1)
    }
}

/// The result is what the selector resolves to.
pub open spec fn is_resolved(
    index: &GraphIndex,
    request: SelectorRequest<'_>,
    r: Result<SelectorResolution, CliError>,
) -> bool {
    exists|ids: Seq<SymbolId>| #[trigger]
        are_named(index, request, ids) && is_resolution(index, request, ids, r)
}

fn selects(symbol: &Symbol, request: SelectorRequest<'_>) -> (r: bool)
    ensures
        r == is_selected(symbol@, request),
{
    let text = request.selector.text.as_str();
    if !same_text(symbol.name.as_str(), text) && !same_text(
        symbol.id.to_scip_string().as_str(),
        text,
    ) {
        return false;
    }
    let of_kind = match request.kind {
        Some(kind) => symbol.kind == kind,
        None => true,
    };
    let in_file = match request.file {
        Some(file) => same_text(
            normalized_project_path(symbol.file.as_str()).as_str(),
            normalized_project_path(file).as_str(),
        ),
        None => true,
    };
    of_kind && in_file
}

/// Resolves a selector in an index.
pub fn resolve_selector(index: &GraphIndex, request: SelectorRequest<'_>) -> (r: Result<
    SelectorResolution,
    CliError,
>)
    ensures
        is_resolved(index, request, r),
{
    let text = request.selector.text.as_str();
    let all = index.symbols_in_order();
    let ghost definitions = index.definitions();
    assert(definitions == symbols_seen(all@));
    let mut symbols: Vec<Symbol> = Vec::new();
    let mut ids: Vec<SymbolId> = Vec::new();
    let mut i: usize = 0;
    assert(symbols_seen(symbols@) =~= Seq::empty());
    assert(ids_seen(ids@) =~= Seq::<SymbolView>::empty().map_values(|s: SymbolView| s.id));
    while i < all.len()
        invariant
            i <= all@.len(),
            text@ == request.selector.text@,
            definitions == symbols_seen(all@),
            symbols_seen(symbols@) == selected(definitions, request, i as nat),
            symbols@.len() == selected(definitions, request, i as nat).len(),
            ids_seen(ids@) == selected(definitions, request, i as nat).map_values(
                |s: SymbolView| s.id,
            ),
        decreases all@.len() - i,
    {
        let symbol = &all[i];
        let ghost before = selected(definitions, request, i as nat);
        let ghost old_symbols = symbols@;
        let ghost old_ids = ids@;
        assert(definitions[i as int] == symbol@);
        assert((((i + 1) as nat) - 1) as nat == i as nat);
        if selects(symbol, request) {
            symbols.push(symbol.copied());
            ids.push(symbol.id.copied());
            proof {
                let after = before.push(symbol@);
                assert(symbols_seen(symbols@) =~= symbols_seen(old_symbols).push(symbol@));
                assert(ids_seen(ids@) =~= ids_seen(old_ids).push(symbol@.id));
                assert(after.map_values(|s: SymbolView| s.id) =~= before.map_values(
                    |s: SymbolView| s.id,
                ).push(symbol@.id));
            }
        }
        i += 1;
    }
    if !request.definitions_only && request.kind.is_none() && request.file.is_none() && symbols.len()
        == 0 {
        ids = index.ids_with_scip(text);
        assert(are_displayed(index.definitions(), index.relations(), text@, ids@));
    }
    let ghost named = ids@;
    assert(are_named(index, request, named));
    if ids.len() == 0 {
        assert(is_resolution(
            index,
            request,
            named,
            Err::<SelectorResolution, CliError>(CliError::NoMatch),
        ));
        return Err(CliError::NoMatch);
    }
    let ambiguous = ids.len() > 1;
    if ambiguous && request.require_unique {
        assert(is_resolution(
            index,
            request,
            named,
            Err::<SelectorResolution, CliError>(CliError::Ambiguous),
        ));
        return Err(CliError::Ambiguous);
    }
    let matched_count = ids.len();
    let r = SelectorResolution { ids, symbols: Some(symbols), matched_count, ambiguous };
    let ghost res = Ok::<SelectorResolution, CliError>(r);
    assert(is_resolution(index, request, named, res));
    Ok(r)
}

} // verus!
