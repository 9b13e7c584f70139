//! Search for definitions by a part of their texts.

use vstd::prelude::*;
use vstd::string::*;
use crate::commands::shared::{
    counts_told, file_refused, first_rows, is_query_envelope, is_refusal, limit, normalized,
    normalized_project_path, query_envelope, requested_file, symbol_outputs, symbol_row,
    symbol_rows, QueryCommandContext,
};
use crate::deadline::{failure_of, Cancellation};
use crate::error::CliError;
use crate::graph::{id_display, Symbol, SymbolKind, SymbolView};
use crate::query::index::{
    definitions_covered, symbol_covered, symbols_seen, GraphRead, SymbolScope, SymbolScopeView,
};
use crate::query::pages::collect_symbols;
use crate::result::{OutputEnvelope, SymbolOutput};
use crate::text::{contains_text, occurs_in, same_text};

verus! {

/// What a search asks for.
#[derive(Debug, Clone, Copy)]
pub struct SymbolsCommandRequest<'a> {
    pub text: &'a str,
    pub file: Option<&'a str>,
    pub kind: Option<SymbolKind>,
    pub case_sensitive: bool,
    pub result_limit: usize,
}

/// The text in small letters.
pub uninterp spec fn lowercased(s: Seq<char>) -> Seq<char>;

/// `str::to_lowercase` gives the text in small letters, by the text alone.
#[verifier::external_body]
fn lowercase(s: &str) -> (r: String)
    ensures
        r@ == lowercased(s@),
{
    s.to_lowercase()
}

/// The texts of a definition that a search looks into: its name, the display form of
/// its identity, its signature and its file.
pub open spec fn searched_texts(s: SymbolView) -> Seq<Seq<char>> {
    seq![s.name, id_display(s.id), s.signature, normalized(s.file)]
}

/// The needle occurs in one of the texts.
pub open spec fn occurs_in_any(texts: Seq<Seq<char>>, needle: Seq<char>) -> bool {
    exists|i: int| 0 <= i < texts.len() && occurs_in(#[trigger] texts[i], needle)
}

/// The needle occurs in one of the texts once those are in small letters.
pub open spec fn occurs_folded(texts: Seq<Seq<char>>, needle: Seq<char>) -> bool {
    exists|i: int| 0 <= i < texts.len() && occurs_in(lowercased(#[trigger] texts[i]), needle)
}

/// The definition matches: by a needle in small letters where one is given, else by
/// the text as it is.
pub open spec fn text_matches(s: SymbolView, text: Seq<char>, folded: Option<Seq<char>>) -> bool {
    match folded {
        Some(needle) => occurs_folded(searched_texts(s), needle),
        None => occurs_in_any(searched_texts(s), text),
    }
}

/// Normalizes the file of a definition; a text that is no project-relative path stays
/// as it is.
pub fn normalized_file(symbol: &Symbol) -> (r: String)
    ensures
        r@ == normalized(symbol@.file),
{
    normalized_project_path(symbol.file.as_str())
}

/// Tells whether a definition matches.
pub fn substring_matches(symbol: &Symbol, text: &str, folded_needle: Option<&str>) -> (r: bool)
    ensures
        r == text_matches(
            symbol@,
            text@,
            match folded_needle {
                Some(needle) => Some(needle@),
                None => None,
            },
        ),
{
    let display = symbol.id.to_scip_string();
    let file = normalized_file(symbol);
    let ghost texts = searched_texts(symbol@);
    match folded_needle {
        Some(needle) => {
            let name = lowercase(symbol.name.as_str());
            let shown = lowercase(display.as_str());
            let signature = lowercase(symbol.signature.as_str());
            let path = lowercase(file.as_str());
            let r = contains_text(name.as_str(), needle) || contains_text(shown.as_str(), needle)
                || contains_text(signature.as_str(), needle) || contains_text(
                path.as_str(),
                needle,
            );
            proof {
                assert(name@ == lowercased(texts[0]));
                assert(shown@ == lowercased(texts[1]));
                assert(signature@ == lowercased(texts[2]));
                assert(path@ == lowercased(texts[3]));
                if occurs_folded(texts, needle@) {
                    let i = choose|i: int|
                        0 <= i < texts.len() && occurs_in(
                            lowercased(#[trigger] texts[i]),
                            needle@,
                        );
                    assert(i == 0 || i == 1 || i == 2 || i == 3);
                }
            }
            r
        },
        None => {
            let r = contains_text(symbol.name.as_str(), text) || contains_text(
                display.as_str(),
                text,
            ) || contains_text(symbol.signature.as_str(), text) || contains_text(
                file.as_str(),
                text,
            );
            proof {
                assert(symbol.name@ == texts[0]);
                assert(display@ == texts[1]);
                assert(symbol.signature@ == texts[2]);
                assert(file@ == texts[3]);
                if occurs_in_any(texts, text@) {
                    let i = choose|i: int|
                        0 <= i < texts.len() && occurs_in(#[trigger] texts[i], text@);
                    assert(i == 0 || i == 1 || i == 2 || i == 3);
                }
            }
            r
        },
    }
}

/// The needle of a search: in small letters unless letters are told apart.
pub open spec fn needle_of(request: SymbolsCommandRequest<'_>) -> Option<Seq<char>> {
    if request.case_sensitive {
        None
    } else {
        Some(lowercased(request.text@))
    }
}

/// The definition is found.
pub open spec fn is_found(request: SymbolsCommandRequest<'_>, s: SymbolView) -> bool {
    &&& text_matches(s, request.text@, needle_of(request))
    &&& request.file matches Some(file) ==> normalized(s.file) == normalized(file@)
    &&& request.kind matches Some(kind) ==> s.kind == kind
}

/// The definitions that are found, in the order of their identities.
pub open spec fn found_definitions(
    definitions: Seq<SymbolView>,
    request: SymbolsCommandRequest<'_>,
) -> Seq<SymbolView> {
    definitions.filter(|s: SymbolView| is_found(request, s))
}

proof fn lemma_filter_everything(v: Seq<SymbolView>)
    ensures
        definitions_covered(v, SymbolScopeView::All) == v,
    decreases v.len(),
{
    reveal(Seq::filter);
    let p = |s: SymbolView| symbol_covered(SymbolScopeView::All, s);
    assert(definitions_covered(v, SymbolScopeView::All) == v.filter(p));
    if v.len() > 0 {
        lemma_filter_everything(v.drop_last());
        assert(v =~= v.drop_last().push(v.last()));
    } else {
        assert(v.filter(p) =~= v);
    }
}

/// The result answers a search for definitions.
pub open spec fn is_symbols_answer<R: GraphRead, C: Cancellation>(
    context: QueryCommandContext<'_, R, C>,
    request: SymbolsCommandRequest<'_>,
    r: Result<OutputEnvelope<Vec<SymbolOutput>>, CliError>,
) -> bool {
    match r {
        Ok(e) => {
            &&& !file_refused(request.file)
            &&& found_definitions(context.index.definitions(), request).len() > 0
            &&& is_query_envelope(e, *context.loaded)
            &&& e.selector is None
            &&& counts_told(
                e,
                symbol_rows(e.results@),
                found_definitions(context.index.definitions(), request).map_values(
                    |s: SymbolView| symbol_row(s),
                ),
                request.result_limit,
            )
        },
        Err(e) => context.interrupted_by(e) || is_refusal(e, request.file) || (e == CliError::NoMatch
            && !file_refused(request.file) && found_definitions(
            context.index.definitions(),
            request,
        ).len() == 0) || context.index.may_fail(e),
    }
}

/// Searches the definitions of a graph.
pub fn execute_symbols<R: GraphRead, C: Cancellation>(
    context: &QueryCommandContext<'_, R, C>,
    request: SymbolsCommandRequest<'_>,
) -> (r: Result<OutputEnvelope<Vec<SymbolOutput>>, CliError>)
    ensures
        is_symbols_answer(*context, request, r),
        context.heeds(failure_of(r)),
{
    context.deadline.check(context.cancellation)?;
    let file = match requested_file(request.file) {
        Ok(file) => file,
        Err(e) => {
            return Err(e);
        },
    };
    let needle: Option<String> = if request.case_sensitive {
        None
    } else {
        Some(lowercase(request.text))
    };
    let symbols = match collect_symbols(context.index, SymbolScope::All) {
        Ok(symbols) => symbols,
        Err(e) => {
            return Err(e);
        },
    };
    let ghost seen = symbols_seen(symbols@);
    let ghost p = |s: SymbolView| is_found(request, s);
    proof {
        lemma_filter_everything(context.index.definitions());
    }
    let mut found: Vec<Symbol> = Vec::new();
    let mut i: usize = 0;
    reveal(Seq::filter);
    assert(symbols_seen(found@) =~= seen.take(0).filter(p));
    while i < symbols.len()
        invariant
            i <= symbols.len(),
            seen == symbols_seen(symbols@),
            p == (|s: SymbolView| is_found(request, s)),
            match file {
                Some(f) => request.file is Some && f@ == normalized(request.file->0@),
                None => request.file is None,
            },
            match needle {
                Some(n) => needle_of(request) == Some(n@),
                None => needle_of(request) is None,
            },
            symbols_seen(found@) == seen.take(i as int).filter(p),
        decreases symbols.len() - i,
    {
        let symbol = &symbols[i];
        proof {
            reveal(Seq::filter);
            assert(seen.take(i + 1).drop_last() =~= seen.take(i as int));
            assert(seen.take(i + 1).last() == symbol@);
        }
        let in_file = match &file {
            Some(f) => {
                let own = normalized_file(symbol);
                same_text(own.as_str(), f.as_str())
            },
            None => true,
        };
        let of_kind = match request.kind {
            Some(kind) => symbol.kind == kind,
            None => true,
        };
        let matched = match &needle {
            Some(n) => substring_matches(symbol, request.text, Some(n.as_str())),
            None => substring_matches(symbol, request.text, None),
        };
        if matched && in_file && of_kind {
            let ghost before = found@;
            found.push(symbol.copied());
            assert(symbols_seen(found@) =~= symbols_seen(before).push(symbol@));
        }
        i += 1;
    }
    assert(seen.take(seen.len() as int) =~= seen);
    let mut results = symbol_outputs(&found);
    let ghost complete = results@;
    context.deadline.check(context.cancellation)?;
    proof {
        assert(symbol_rows(complete).len() == complete.len());
        assert(symbols_seen(found@).len() == found@.len());
    }
    if results.len() == 0 {
        return Err(CliError::NoMatch);
    }
    let (total, truncated) = limit(&mut results, request.result_limit);
    let returned = results.len();
    assert(symbol_rows(results@) =~= first_rows(symbol_rows(complete), request.result_limit));
    let mut envelope = query_envelope(context.loaded, results);
    envelope.total = total;
    envelope.returned = returned;
    envelope.truncated = truncated;
    Ok(envelope)
}

} // verus!
