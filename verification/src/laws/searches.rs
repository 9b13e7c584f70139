//! Laws of the queries that look for definitions and references: searches, selectors,
//! definitions and raw references.

use vstd::prelude::*;
use vstd::string::*;
use vstd::utf8::*;
use crate::cache::types::CacheCompleteness;
use crate::commands::definition::{is_definition_answer, DefinitionCommandRequest};
use crate::commands::impact::{is_impact_answer, ImpactCommandRequest};
use crate::commands::imports::{is_imports_answer, ImportsCommandRequest};
use crate::commands::references::{
    asked_rows, is_reference_listing, is_references_answer, reference_row, reference_rows,
    sees_references, ReferenceRow, ReferencesCommandRequest,
};
use crate::commands::relations::{is_relations_answer, RelationCommandRequest};
use crate::commands::selector::{are_named, is_resolution, is_resolved, is_selected, selected};
use crate::commands::shared::{
    ids_seen, normalized, symbol_row, symbol_rows, QueryCommandContext, SelectorResolution,
};
use crate::commands::symbols::{
    found_definitions, is_found, is_symbols_answer, lowercased, occurs_folded, occurs_in_any,
    searched_texts, SymbolsCommandRequest,
};
use crate::deadline::Cancellation;
use crate::error::CliError;
use crate::execution::dispatch::SelectorRequest;
use crate::graph::{
    id_display, id_key, id_key_is_lossless, lemma_id_ok, FileFacts, ReferenceView, SymbolId,
    SymbolView,
};
use crate::laws::terms::{
    counts_are_honest, lemma_filter_is_exact, lemma_same_filter, says_kind, says_role,
};
use crate::ordering::is_stable_sort;
use crate::project::path::rejection;
use crate::query::index::{has_key, is_known, symbols_seen, GraphIndex, GraphRead};
use crate::result::{
    Freshness, ImpactOutput, OutputEnvelope, OutputStatus, ReferenceOutput, RelationOutput,
    SymbolOutput, SymbolOutputView,
};
use crate::text::{occurs_at, occurs_in};

verus! {

/// The row tells of the definition what it is.
pub open spec fn tells_of_definition(row: SymbolOutputView, s: SymbolView) -> bool {
    &&& row.id == s.id
    &&& row.id_display == id_display(s.id)
    &&& row.name == s.name
    &&& says_kind(row.kind, s.kind)
    &&& row.file == normalized(s.file)
    &&& row.line == s.line
    &&& row.signature == s.signature
}

proof fn lemma_symbol_row(s: SymbolView)
    ensures
        tells_of_definition(symbol_row(s), s),
{
}

/// The text appears in the other: something may stand before it and something behind it.
pub open spec fn appears_in(hay: Seq<char>, needle: Seq<char>) -> bool {
    exists|before: Seq<char>, behind: Seq<char>| #[trigger] (before + needle + behind) == hay
}

proof fn lemma_appears(hay: Seq<char>, needle: Seq<char>)
    ensures
        appears_in(hay, needle) <==> occurs_in(hay, needle),
{
    if appears_in(hay, needle) {
        let (before, behind) = choose|before: Seq<char>, behind: Seq<char>| #[trigger]
            (before + needle + behind) == hay;
        let at = before.len() as int;
        assert(hay.subrange(at, at + needle.len()) =~= needle);
        assert(occurs_at(hay, needle, at));
    }
    if occurs_in(hay, needle) {
        let at = choose|at: int| occurs_at(hay, needle, at);
        let before = hay.take(at);
        let behind = hay.skip(at + needle.len());
        assert(before + needle + behind =~= hay);
    }
}

/// The definition is looked for: the text appears in its name, in the display form of its
/// identity, in its signature or in its file, in small letters unless letters are told apart;
/// and it is of the kind and in the file that are asked for, where any are.
pub open spec fn is_looked_for(request: SymbolsCommandRequest<'_>, s: SymbolView) -> bool {
    &&& if request.case_sensitive {
        ||| appears_in(s.name, request.text@)
        ||| appears_in(id_display(s.id), request.text@)
        ||| appears_in(s.signature, request.text@)
        ||| appears_in(normalized(s.file), request.text@)
    } else {
        ||| appears_in(lowercased(s.name), lowercased(request.text@))
        ||| appears_in(lowercased(id_display(s.id)), lowercased(request.text@))
        ||| appears_in(lowercased(s.signature), lowercased(request.text@))
        ||| appears_in(lowercased(normalized(s.file)), lowercased(request.text@))
    }
    &&& request.file is Some ==> normalized(s.file) == normalized(request.file->0@)
    &&& request.kind is Some ==> s.kind == request.kind->0
}

proof fn lemma_looked_for(request: SymbolsCommandRequest<'_>, s: SymbolView)
    ensures
        is_looked_for(request, s) <==> is_found(request, s),
{
    let texts = searched_texts(s);
    let needle = request.text@;
    let folded = lowercased(request.text@);
    lemma_appears(s.name, needle);
    lemma_appears(id_display(s.id), needle);
    lemma_appears(s.signature, needle);
    lemma_appears(normalized(s.file), needle);
    lemma_appears(lowercased(s.name), folded);
    lemma_appears(lowercased(id_display(s.id)), folded);
    lemma_appears(lowercased(s.signature), folded);
    lemma_appears(lowercased(normalized(s.file)), folded);
    assert(texts.len() == 4);
    assert(texts[0] == s.name && texts[1] == id_display(s.id) && texts[2] == s.signature
        && texts[3] == normalized(s.file));
    if occurs_in_any(texts, needle) {
        let i = choose|i: int| 0 <= i < texts.len() && occurs_in(#[trigger] texts[i], needle);
        assert(i == 0 || i == 1 || i == 2 || i == 3);
    }
    if occurs_folded(texts, folded) {
        let i = choose|i: int|
            0 <= i < texts.len() && occurs_in(lowercased(#[trigger] texts[i]), folded);
        assert(i == 0 || i == 1 || i == 2 || i == 3);
    }
    if occurs_in(texts[0], needle) || occurs_in(texts[1], needle) || occurs_in(texts[2], needle)
        || occurs_in(texts[3], needle) {
        assert(occurs_in_any(texts, needle));
    }
    if occurs_in(lowercased(texts[0]), folded) || occurs_in(lowercased(texts[1]), folded)
        || occurs_in(lowercased(texts[2]), folded) || occurs_in(lowercased(texts[3]), folded) {
        assert(occurs_folded(texts, folded));
    }
}

proof fn lemma_found(definitions: Seq<SymbolView>, request: SymbolsCommandRequest<'_>)
    ensures
        found_definitions(definitions, request) == definitions.filter(
            |s: SymbolView| is_looked_for(request, s),
        ),
{
    let p = |s: SymbolView| is_found(request, s);
    let q = |s: SymbolView| is_looked_for(request, s);
    assert forall|i: int| 0 <= i < definitions.len() implies p(#[trigger] definitions[i]) == q(
        definitions[i],
    ) by {
        lemma_looked_for(request, definitions[i]);
    }
    lemma_same_filter(definitions, p, q);
}

/// A search lists the definitions of the graph that are looked for, and no others, in the order
/// in which the graph has them, and tells how many there are: at least one.
pub proof fn searches_find_what_is_looked_for<R: GraphRead, C: Cancellation>(
    context: QueryCommandContext<'_, R, C>,
    request: SymbolsCommandRequest<'_>,
    envelope: OutputEnvelope<Vec<SymbolOutput>>,
)
    requires
        is_symbols_answer(context, request, Ok(envelope)),
    ensures
        ({
            let all = context.index.definitions().filter(
                |s: SymbolView| is_looked_for(request, s),
            );
            let rows = envelope.results@;
            &&& all.len() > 0
            &&& counts_are_honest(envelope, rows.len(), all.len(), request.result_limit)
            &&& forall|j: int|
                0 <= j < rows.len() ==> tells_of_definition((#[trigger] rows[j])@, all[j])
        }),
{
    let definitions = context.index.definitions();
    lemma_found(definitions, request);
    let all = found_definitions(definitions, request);
    let rows = envelope.results@;
    let shown = symbol_rows(rows);
    let complete = all.map_values(|s: SymbolView| symbol_row(s));
    assert(shown.len() == rows.len());
    assert(complete.len() == all.len());
    assert forall|j: int| 0 <= j < rows.len() implies tells_of_definition(
        (#[trigger] rows[j])@,
        all[j],
    ) by {
        assert(shown[j] == rows[j]@);
        assert(shown[j] == complete[j]);
        lemma_symbol_row(all[j]);
    }
}

/// A graph that has what is looked for is not told to have nothing.
pub proof fn searches_are_not_denied<R: GraphRead, C: Cancellation>(
    context: QueryCommandContext<'_, R, C>,
    request: SymbolsCommandRequest<'_>,
    s: SymbolView,
)
    requires
        context.index.definitions().contains(s),
        is_looked_for(request, s),
        !context.interrupted_by(CliError::NoMatch),
        !context.index.may_fail(CliError::NoMatch),
    ensures
        !is_symbols_answer(context, request, Err(CliError::NoMatch)),
{
    let definitions = context.index.definitions();
    lemma_found(definitions, request);
    let q = |s: SymbolView| is_looked_for(request, s);
    lemma_filter_is_exact(definitions, q);
    let i = choose|i: int| 0 <= i < definitions.len() && definitions[i] == s;
    assert(q(definitions[i]));
    assert(definitions.filter(q).contains(s));
}

/// The definition is meant by the selector: its name or its display form is the text, and it
/// is of the kind and in the file that are asked for, where any are.
pub open spec fn is_meant(request: SelectorRequest<'_>, s: SymbolView) -> bool {
    &&& request.selector.text@ == s.name || request.selector.text@ == id_display(s.id)
    &&& request.kind is Some ==> request.kind->0 == s.kind
    &&& request.file is Some ==> normalized(request.file->0@) == normalized(s.file)
}

proof fn lemma_meant(definitions: Seq<SymbolView>, request: SelectorRequest<'_>, n: nat)
    requires
        n <= definitions.len(),
    ensures
        selected(definitions, request, n) == definitions.take(n as int).filter(
            |s: SymbolView| is_meant(request, s),
        ),
    decreases n,
{
    reveal(Seq::filter);
    let q = |s: SymbolView| is_meant(request, s);
    if n == 0 {
        assert(selected(definitions, request, n) =~= definitions.take(0).filter(q));
    } else {
        lemma_meant(definitions, request, (n - 1) as nat);
        assert(definitions.take(n as int).drop_last() =~= definitions.take(n - 1));
        assert(definitions.take(n as int).last() == definitions[n - 1]);
        assert(is_selected(definitions[n - 1], request) == is_meant(request, definitions[n - 1]));
    }
}

/// A selector resolves to the definitions that it means, in the order in which the graph has
/// them. Where it means none, and neither a kind nor a file nor a definition is asked for, it
/// resolves to what the graph has under its text as a display form. One that resolves to
/// nothing matches nothing, one that resolves to several things is ambiguous, and that is
/// refused exactly where only one is wanted.
pub proof fn selectors_resolve_to_what_they_mean(
    index: &GraphIndex,
    request: SelectorRequest<'_>,
    r: Result<SelectorResolution, CliError>,
)
    requires
        is_resolved(index, request, r),
    ensures
        ({
            let meant = index.definitions().filter(|s: SymbolView| is_meant(request, s));
            let strict = request.definitions_only || request.kind is Some || request.file is Some;
            &&& r matches Ok(found) ==> {
                &&& found.ids@.len() > 0
                &&& found.matched_count == found.ids@.len()
                &&& found.ambiguous <==> found.ids@.len() > 1
                &&& request.require_unique ==> found.ids@.len() == 1
                &&& found.symbols is Some
                &&& symbols_seen(found.symbols->0@) == meant
                &&& meant.len() > 0 ==> found.ids@.len() == meant.len() && forall|i: int|
                    0 <= i < meant.len() ==> (#[trigger] found.ids@[i])@ == meant[i].id
                &&& meant.len() == 0 ==> !strict && forall|i: int|
                    0 <= i < found.ids@.len() ==> is_known(
                        index.definitions(),
                        index.relations(),
                        (#[trigger] found.ids@[i])@,
                    ) && id_display(found.ids@[i]@) == request.selector.text@
            }
            &&& r matches Err(e) ==> e == CliError::NoMatch || e == CliError::Ambiguous
            &&& r matches Err(CliError::Ambiguous) ==> request.require_unique && meant.len() != 1
            &&& meant.len() == 1 ==> r is Ok
            &&& meant.len() > 1 && !request.require_unique ==> r is Ok
            &&& meant.len() > 1 && request.require_unique ==> r == Err::<
                SelectorResolution,
                CliError,
            >(CliError::Ambiguous)
            &&& meant.len() == 0 && strict ==> r == Err::<SelectorResolution, CliError>(
                CliError::NoMatch,
            )
        }),
{
    let definitions = index.definitions();
    lemma_meant(definitions, request, definitions.len());
    assert(definitions.take(definitions.len() as int) =~= definitions);
    let ids = choose|ids: Seq<SymbolId>| #[trigger]
        are_named(index, request, ids) && is_resolution(index, request, ids, r);
    let found = selected(definitions, request, definitions.len());
    let named = found.map_values(|s: SymbolView| s.id);
    assert(ids_seen(ids).len() == ids.len());
    assert(named.len() == found.len());
    if found.len() > 0 {
        assert forall|i: int| 0 <= i < found.len() implies (#[trigger] ids[i])@ == found[i].id by {
            assert(ids_seen(ids)[i] == ids[i]@);
            assert(named[i] == found[i].id);
        }
    }
}

/// What the graph has under a display form is found by it: where no definition is meant and
/// none is asked for, an identity of the graph with that display form is among what the
/// selector resolves to, so that it does not match nothing.
pub proof fn display_forms_are_found(
    index: &GraphIndex,
    request: SelectorRequest<'_>,
    r: Result<SelectorResolution, CliError>,
    id: SymbolId,
)
    requires
        is_resolved(index, request, r),
        !request.definitions_only,
        request.kind is None,
        request.file is None,
        is_known(index.definitions(), index.relations(), id@),
        id_display(id@) == request.selector.text@,
        index.definitions().filter(|s: SymbolView| is_meant(request, s)).len() == 0,
    ensures
        r != Err::<SelectorResolution, CliError>(CliError::NoMatch),
        r matches Ok(found) ==> exists|i: int|
            0 <= i < found.ids@.len() && (#[trigger] found.ids@[i])@ == id@,
{
    let definitions = index.definitions();
    lemma_meant(definitions, request, definitions.len());
    assert(definitions.take(definitions.len() as int) =~= definitions);
    let ids = choose|ids: Seq<SymbolId>| #[trigger]
        are_named(index, request, ids) && is_resolution(index, request, ids, r);
    assert(has_key(ids, id_key(id@)));
    let i = choose|i: int| 0 <= i < ids.len() && crate::ordering::Keyed::key(#[trigger] &ids[i]) == id_key(id@);
    lemma_id_ok(ids[i]);
    lemma_id_ok(id);
    id_key_is_lossless(ids[i]@, id@);
    assert(ids[i]@ == id@);
}

/// A query for definitions lists those that its selector resolved to, in their order, and its
/// report lists all of them, whatever the limit.
pub proof fn definitions_are_those_resolved<R: GraphRead, C: Cancellation>(
    context: QueryCommandContext<'_, R, C>,
    request: DefinitionCommandRequest<'_>,
    resolution: SelectorResolution,
    envelope: OutputEnvelope<Vec<SymbolOutput>>,
)
    requires
        is_definition_answer(context, request, resolution, Ok(envelope)),
        resolution.symbols is Some,
    ensures
        ({
            let all = symbols_seen(resolution.symbols->0@);
            let rows = envelope.results@;
            &&& counts_are_honest(envelope, rows.len(), all.len(), request.result_limit)
            &&& forall|j: int|
                0 <= j < rows.len() ==> tells_of_definition((#[trigger] rows[j])@, all[j])
            &&& envelope.selector is Some
            &&& envelope.selector->0.matched == resolution.matched_count
            &&& envelope.selector->0.ambiguous == resolution.ambiguous
            &&& envelope.selector->0.symbols@.len() == all.len()
            &&& forall|j: int|
                0 <= j < all.len() ==> tells_of_definition(
                    (#[trigger] envelope.selector->0.symbols@[j])@,
                    all[j],
                )
            &&& envelope.selector->0.ids@.len() == resolution.ids@.len()
            &&& forall|j: int|
                0 <= j < resolution.ids@.len() ==> (#[trigger] envelope.selector->0.ids@[j])@
                    == resolution.ids@[j]@
        }),
{
    let all = symbols_seen(resolution.symbols->0@);
    let complete = all.map_values(|s: SymbolView| symbol_row(s));
    let rows = envelope.results@;
    let shown = symbol_rows(rows);
    assert(complete.len() == all.len() && shown.len() == rows.len());
    assert forall|j: int| 0 <= j < rows.len() implies tells_of_definition(
        (#[trigger] rows[j])@,
        all[j],
    ) by {
        assert(shown[j] == rows[j]@);
        assert(shown[j] == complete[j]);
        lemma_symbol_row(all[j]);
    }
    let report = envelope.selector->0;
    let told = symbol_rows(report.symbols@);
    assert(told.len() == report.symbols@.len());
    assert forall|j: int| 0 <= j < all.len() implies tells_of_definition(
        (#[trigger] report.symbols@[j])@,
        all[j],
    ) by {
        assert(told[j] == report.symbols@[j]@);
        assert(told[j] == complete[j]);
        lemma_symbol_row(all[j]);
    }
    assert(ids_seen(report.ids@).len() == report.ids@.len());
    assert(ids_seen(resolution.ids@).len() == resolution.ids@.len());
    assert forall|j: int| 0 <= j < resolution.ids@.len() implies (#[trigger] report.ids@[j])@
        == resolution.ids@[j]@ by {
        assert(ids_seen(report.ids@)[j] == report.ids@[j]@);
        assert(ids_seen(resolution.ids@)[j] == resolution.ids@[j]@);
    }
}

/// The row tells of the reference what was written.
pub open spec fn tells_of_reference(row: ReferenceRow, v: ReferenceView) -> bool {
    &&& row.name == v.name
    &&& says_role(row.role, v.role)
    &&& row.occurrence.file == normalized(v.occ.file)
    &&& row.occurrence.line == v.occ.line
    &&& row.occurrence.col == v.occ.col
    &&& row.occurrence.byte == v.occ.byte
    &&& row.source_module == v.source_module
    &&& row.from_path == v.from_path
    &&& row.qualifier == v.qualifier
    &&& row.type_ref_context is Some <==> v.type_ref_ctx is Some
}

/// The reference is wanted: it has the name and the role that are asked for, where any are.
pub open spec fn is_wanted(request: ReferencesCommandRequest<'_>, v: ReferenceView) -> bool {
    &&& request.name is Some ==> v.name == request.name->0@
    &&& request.role is Some ==> v.role == request.role->0
}

/// The row tells of one of the references.
pub open spec fn tells_of_some(row: ReferenceOutput, all: Seq<ReferenceView>) -> bool {
    exists|i: int| 0 <= i < all.len() && tells_of_reference(row@, #[trigger] all[i])
}

/// One of the rows tells of the reference.
pub open spec fn is_told(rows: Seq<ReferenceOutput>, v: ReferenceView) -> bool {
    exists|j: int| 0 <= j < rows.len() && tells_of_reference((#[trigger] rows[j])@, v)
}

/// The rows list references: each tells of one of them, they ascend by where they stand, and
/// none is missing where there are as many rows as references.
pub open spec fn lists_references(rows: Seq<ReferenceOutput>, all: Seq<ReferenceView>) -> bool {
    &&& forall|j: int| 0 <= j < rows.len() ==> tells_of_some(#[trigger] rows[j], all)
    &&& rows.len() == all.len() ==> forall|i: int|
        0 <= i < all.len() ==> is_told(rows, #[trigger] all[i])
    &&& forall|i: int, j: int|
        0 <= i < j < rows.len() ==> (#[trigger] rows[i]).occurrence.byte <= (
        #[trigger] rows[j]).occurrence.byte
}

/// The references that are wanted.
pub open spec fn wanted_references(
    request: ReferencesCommandRequest<'_>,
    references: Seq<ReferenceView>,
) -> Seq<ReferenceView> {
    references.filter(|v: ReferenceView| is_wanted(request, v))
}

/// A query for raw references lists references of the file that are wanted, ascending by where
/// they stand, and tells how many there are. Where nothing is cut, all that are wanted are
/// there.
pub proof fn references_are_those_wanted<R: GraphRead, C: Cancellation>(
    context: QueryCommandContext<'_, R, C>,
    request: ReferencesCommandRequest<'_>,
    envelope: OutputEnvelope<Vec<ReferenceOutput>>,
)
    requires
        is_references_answer(context, request, Ok(envelope)),
    ensures
        exists|references: Seq<ReferenceView>| #[trigger]
            sees_references(context, normalized(request.file@), references) && wanted_references(
                request,
                references,
            ).len() > 0 && counts_are_honest(
                envelope,
                envelope.results@.len(),
                wanted_references(request, references).len(),
                request.result_limit,
            ) && lists_references(envelope.results@, wanted_references(request, references)),
{
    let rows = envelope.results@;
    let references = choose|references: Seq<ReferenceView>| #[trigger]
        sees_references(context, normalized(request.file@), references) && is_reference_listing(
            envelope.results@,
            request,
            references,
        ) && envelope.total == asked_rows(request, references).len() && envelope.total > 0
            && envelope.returned == envelope.results@.len() && envelope.truncated == (
        envelope.total > request.result_limit);
    let q = |v: ReferenceView| is_wanted(request, v);
    let p = |v: ReferenceView| crate::commands::references::is_asked_for(request, v);
    lemma_same_filter(references, p, q);
    let all = wanted_references(request, references);
    let told = asked_rows(request, references);
    assert(told == all.map_values(|v: ReferenceView| reference_row(v)));
    let (unsorted, sorted) = choose|
        unsorted: Seq<ReferenceOutput>,
        sorted: Seq<ReferenceOutput>,
    | #[trigger]
        is_stable_sort(unsorted, sorted) && reference_rows(unsorted) == told && rows == (
        if sorted.len() > request.result_limit {
            sorted.take(request.result_limit as int)
        } else {
            sorted
        });
    assert forall|i: int| 0 <= i < unsorted.len() implies tells_of_reference(
        (#[trigger] unsorted[i])@,
        all[i],
    ) by {
        assert(reference_rows(unsorted)[i] == unsorted[i]@);
        assert(told[i] == reference_row(all[i]));
    }
    assert(reference_rows(unsorted).len() == unsorted.len());
    assert(rows =~= sorted.take(rows.len() as int));
    lemma_listed_references(unsorted, sorted, rows, all);
}

proof fn lemma_listed_references(
    unsorted: Seq<ReferenceOutput>,
    sorted: Seq<ReferenceOutput>,
    rows: Seq<ReferenceOutput>,
    all: Seq<ReferenceView>,
)
    requires
        is_stable_sort(unsorted, sorted),
        unsorted.len() == all.len(),
        forall|i: int|
            0 <= i < unsorted.len() ==> tells_of_reference((#[trigger] unsorted[i])@, all[i]),
        rows.len() <= sorted.len(),
        rows == sorted.take(rows.len() as int),
    ensures
        sorted.len() == all.len(),
        lists_references(rows, all),
{
    unsorted.to_multiset_ensures();
    sorted.to_multiset_ensures();
    assert forall|j: int| 0 <= j < rows.len() implies tells_of_some(#[trigger] rows[j], all) by {
        assert(rows[j] == sorted[j]);
        assert(sorted.contains(sorted[j]));
        assert(unsorted.to_multiset().count(sorted[j]) > 0);
        assert(unsorted.contains(sorted[j]));
        let i = choose|i: int| 0 <= i < unsorted.len() && unsorted[i] == sorted[j];
        assert(tells_of_reference(unsorted[i]@, all[i]));
    }
    if rows.len() == all.len() {
        assert forall|i: int| 0 <= i < all.len() implies is_told(rows, #[trigger] all[i]) by {
            assert(unsorted.contains(unsorted[i]));
            assert(sorted.to_multiset().count(unsorted[i]) > 0);
            assert(sorted.contains(unsorted[i]));
            let j = choose|j: int| 0 <= j < sorted.len() && sorted[j] == unsorted[i];
            assert(rows[j] == sorted[j]);
            assert(tells_of_reference(rows[j]@, all[i]));
        }
    }
    assert forall|i: int, j: int| 0 <= i < j < rows.len() implies (
    #[trigger] rows[i]).occurrence.byte <= (#[trigger] rows[j]).occurrence.byte by {
        assert(rows[i] == sorted[i] && rows[j] == sorted[j]);
        let a = crate::ordering::Keyed::key(&sorted[i]);
        let b = crate::ordering::Keyed::key(&sorted[j]);
        assert(crate::ordering::key_le(a, b));
        assert(a[0] == sorted[i].occurrence.byte as u64);
        assert(b[0] == sorted[j].occurrence.byte as u64);
        reveal_with_fuel(crate::ordering::key_lt, 2);
    }
}

/// The references that a query sees are those of the file that it names: those that were read
/// for it, or else those of the first record of that file in the snapshot; and where there is
/// such a record, they are seen.
pub proof fn references_are_those_of_the_file<R: GraphRead, C: Cancellation>(
    context: QueryCommandContext<'_, R, C>,
    file: Seq<char>,
    references: Seq<ReferenceView>,
)
    requires
        sees_references(context, file, references),
    ensures
        context.reference_facts matches Some(facts) ==> references.len() == facts.references@.len()
            && forall|k: int|
            0 <= k < references.len() ==> #[trigger] references[k] == facts.references@[k]@,
        context.reference_facts is None ==> exists|i: int|
            0 <= i < context.loaded.snapshot.files@.len() && normalized(
                (#[trigger] context.loaded.snapshot.files@[i]).path@,
            ) == file && references.len()
                == context.loaded.snapshot.files@[i].facts.references@.len(),
{
    if context.reference_facts is None {
        let files = context.loaded.snapshot.files@;
        let i = choose|i: int| #[trigger]
            crate::commands::references::record_of(files, file, i) && references
                == crate::commands::references::references_seen(files[i].facts.references@);
        assert(normalized(files[i].path@) == file);
    }
}

/// A file that has references that are wanted is not told to have none.
pub proof fn references_are_not_denied<R: GraphRead, C: Cancellation>(
    context: QueryCommandContext<'_, R, C>,
    request: ReferencesCommandRequest<'_>,
    facts: FileFacts,
    i: int,
)
    requires
        context.reference_facts == Some(facts),
        0 <= i < facts.references@.len(),
        is_wanted(request, facts.references@[i]@),
        !context.interrupted_by(CliError::NoMatch),
    ensures
        !is_references_answer(context, request, Err(CliError::NoMatch)),
{
    let file = normalized(request.file@);
    let seen = crate::commands::references::references_seen(facts.references@);
    assert forall|references: Seq<ReferenceView>| #[trigger]
        sees_references(context, file, references) implies asked_rows(request, references).len()
        > 0 by {
        let p = |v: ReferenceView| crate::commands::references::is_asked_for(request, v);
        assert(references == seen);
        assert(seen[i] == facts.references@[i]@);
        lemma_filter_is_exact(seen, p);
        assert(p(seen[i]));
        assert(seen.filter(p).contains(seen[i]));
    }
}

/// A file that is no path of a project is refused, whatever is asked of it: no query answers.
pub proof fn refused_files_are_not_answered<R: GraphRead, C: Cancellation>(
    context: QueryCommandContext<'_, R, C>,
    file: &str,
    resolution: SelectorResolution,
    symbols: SymbolsCommandRequest<'_>,
    found: OutputEnvelope<Vec<SymbolOutput>>,
    definition: DefinitionCommandRequest<'_>,
    defined: OutputEnvelope<Vec<SymbolOutput>>,
    relation: RelationCommandRequest<'_>,
    related: OutputEnvelope<Vec<RelationOutput>>,
    impact: ImpactCommandRequest<'_>,
    reached: OutputEnvelope<Vec<ImpactOutput>>,
    import: ImportsCommandRequest<'_>,
    imported: OutputEnvelope<Vec<RelationOutput>>,
)
    requires
        rejection(encode_utf8(file@)) is Some,
    ensures
        symbols.file == Some(file) ==> !is_symbols_answer(context, symbols, Ok(found)),
        definition.file == Some(file) ==> !is_definition_answer(
            context,
            definition,
            resolution,
            Ok(defined),
        ),
        relation.file == Some(file) ==> !is_relations_answer(
            context,
            relation,
            resolution,
            Ok(related),
        ),
        impact.file == Some(file) ==> !is_impact_answer(context, impact, resolution, Ok(reached)),
        import.file == file ==> !is_imports_answer(context, import, Ok(imported)),
{
}

/// An answer tells the state of the snapshot that was asked: a partial one is called partial, a
/// stale one stale, and what is told of the project is what was loaded.
pub proof fn answers_tell_the_state_of_their_snapshot<R: GraphRead, C: Cancellation>(
    context: QueryCommandContext<'_, R, C>,
    request: RelationCommandRequest<'_>,
    resolution: SelectorResolution,
    envelope: OutputEnvelope<Vec<RelationOutput>>,
)
    requires
        is_relations_answer(context, request, resolution, Ok(envelope)),
    ensures
        envelope.status == OutputStatus::Partial <==> context.loaded.snapshot.completeness
            == CacheCompleteness::Partial,
        envelope.status == OutputStatus::Stale <==> context.loaded.snapshot.completeness
            == CacheCompleteness::Complete && context.loaded.project.freshness == Freshness::Stale,
        envelope.project is Some,
        envelope.project->0@ == context.loaded.project@,
        envelope.selector is Some,
        envelope.selector->0.matched == resolution.matched_count,
        envelope.selector->0.ambiguous == resolution.ambiguous,
{
}

} // verus!
