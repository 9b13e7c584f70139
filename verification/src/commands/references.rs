//! Raw extracted references, including references with no resolved relation.

use vstd::prelude::*;
use vstd::string::*;
use crate::cache::snapshot::CandidateFileRecord;
use crate::commands::shared::{
    file_refused, is_query_envelope, is_refusal, limit, normalized, normalized_project_path,
    query_envelope, requested_file, QueryCommandContext,
};
use crate::deadline::{failure_of, Cancellation};
use crate::error::CliError;
use crate::graph::{copied_text, optional_text, OccurrenceView, RefRole, Reference, ReferenceView};
use crate::ordering::{is_stable_sort, stable_sort, Keyed};
use crate::query::index::GraphRead;
use crate::result::{
    ref_role_shown, type_ref_context_shown, OccurrenceOutput, OutputEnvelope, RefRoleOutput,
    ReferenceOutput, TypeRefContextOutput,
};
use crate::text::{push_text_key, same_text, text_key};

verus! {

/// What a query for raw references asks for.
#[derive(Debug, Clone, Copy)]
pub struct ReferencesCommandRequest<'a> {
    pub file: &'a str,
    pub name: Option<&'a str>,
    pub role: Option<RefRole>,
    pub result_limit: usize,
}

/// The texts and values of a shown reference.
pub struct ReferenceRow {
    pub name: Seq<char>,
    pub role: RefRoleOutput,
    pub occurrence: OccurrenceView,
    pub source_module: Option<Seq<char>>,
    pub from_path: Option<Seq<char>>,
    pub qualifier: Option<Seq<char>>,
    pub type_ref_context: Option<TypeRefContextOutput>,
}

impl ReferenceOutput {
    /// The texts and values.
    pub open spec fn view(self) -> ReferenceRow {
        ReferenceRow {
            name: self.name@,
            role: self.role,
            occurrence: self.occurrence@,
            source_module: optional_text(self.source_module),
            from_path: optional_text(self.from_path),
            qualifier: optional_text(self.qualifier),
            type_ref_context: self.type_ref_context,
        }
    }
}

/// The shown form of a reference: what was written is kept, its file is normalized.
pub open spec fn reference_row(v: ReferenceView) -> ReferenceRow {
    ReferenceRow {
        name: v.name,
        role: ref_role_shown(v.role),
        occurrence: OccurrenceView { file: normalized(v.occ.file), ..v.occ },
        source_module: v.source_module,
        from_path: v.from_path,
        qualifier: v.qualifier,
        type_ref_context: match v.type_ref_ctx {
            Some(context) => Some(type_ref_context_shown(context)),
            None => None,
        },
    }
}

/// The shown form of a reference.
pub fn reference_output(reference: &Reference) -> (r: ReferenceOutput)
    ensures
        r@ == reference_row(reference@),
{
    ReferenceOutput {
        name: reference.name.clone(),
        role: RefRoleOutput::from(reference.role),
        occurrence: OccurrenceOutput {
            file: normalized_project_path(reference.occ.file.as_str()),
            line: reference.occ.line,
            column: reference.occ.col,
            byte: reference.occ.byte,
        },
        source_module: copied_text(&reference.source_module),
        from_path: copied_text(&reference.from_path),
        qualifier: copied_text(&reference.qualifier),
        type_ref_context: match reference.type_ref_ctx {
            Some(context) => Some(TypeRefContextOutput::from(context)),
            None => None,
        },
    }
}

/// The place of a role among the roles.
pub open spec fn role_place(role: RefRoleOutput) -> u64 {
    match role {
        RefRoleOutput::Call => 0,
        RefRoleOutput::IsImplementation => 1,
        RefRoleOutput::Import => 2,
        RefRoleOutput::ModuleRef => 3,
        RefRoleOutput::TypeRef => 4,
        RefRoleOutput::Read => 5,
        RefRoleOutput::Write => 6,
    }
}

/// References are listed by where they stand, then by role, name and qualifier.
pub open spec fn reference_key(v: ReferenceRow) -> Seq<u64> {
    seq![v.occurrence.byte as u64, role_place(v.role)] + (text_key(v.name) + text_key(
        match v.qualifier {
            Some(q) => q,
            None => ""@,
        },
    ))
}

impl Keyed for ReferenceOutput {
    open spec fn key(&self) -> Seq<u64> {
        reference_key(self@)
    }

    fn sort_key(&self) -> (k: Vec<u64>) {
        let mut k: Vec<u64> = Vec::new();
        k.push(self.occurrence.byte as u64);
        k.push(
            match self.role {
                RefRoleOutput::Call => 0,
                RefRoleOutput::IsImplementation => 1,
                RefRoleOutput::Import => 2,
                RefRoleOutput::ModuleRef => 3,
                RefRoleOutput::TypeRef => 4,
                RefRoleOutput::Read => 5,
                RefRoleOutput::Write => 6,
            },
        );
        push_text_key(&mut k, self.name.as_str());
        match &self.qualifier {
            Some(q) => push_text_key(&mut k, q.as_str()),
            None => push_text_key(&mut k, ""),
        }
        assert(k@ =~= self.key());
        k
    }
}

/// The rows of a list.
pub open spec fn reference_rows(v: Seq<ReferenceOutput>) -> Seq<ReferenceRow> {
    v.map_values(|r: ReferenceOutput| r@)
}

/// The reference is asked for.
pub open spec fn is_asked_for(request: ReferencesCommandRequest<'_>, v: ReferenceView) -> bool {
    &&& request.name matches Some(name) ==> v.name == name@
    &&& request.role matches Some(role) ==> v.role == role
}

/// The references of a list.
pub open spec fn references_seen(v: Seq<Reference>) -> Seq<ReferenceView> {
    v.map_values(|r: Reference| r@)
}

/// The references that are asked for, as they are shown, in the order in which they
/// were extracted.
pub open spec fn asked_rows(
    request: ReferencesCommandRequest<'_>,
    references: Seq<ReferenceView>,
) -> Seq<ReferenceRow> {
    references.filter(|v: ReferenceView| is_asked_for(request, v)).map_values(
        |v: ReferenceView| reference_row(v),
    )
}

/// The rows are the first ones of the references that are asked for, sorted: those of
/// one key stay in the order in which they were extracted.
pub open spec fn is_reference_listing(
    results: Seq<ReferenceOutput>,
    request: ReferencesCommandRequest<'_>,
    references: Seq<ReferenceView>,
) -> bool {
    exists|unsorted: Seq<ReferenceOutput>, sorted: Seq<ReferenceOutput>| #[trigger]
        is_stable_sort(unsorted, sorted) && reference_rows(unsorted) == asked_rows(
            request,
            references,
        ) && results == (if sorted.len() > request.result_limit {
            sorted.take(request.result_limit as int)
        } else {
            sorted
        })
}

/// The place of the first record of the file.
pub open spec fn record_of(files: Seq<CandidateFileRecord>, file: Seq<char>, i: int) -> bool {
    &&& 0 <= i < files.len()
    &&& normalized(files[i].path@) == file
    &&& forall|j: int| 0 <= j < i ==> normalized(#[trigger] files[j].path@) != file
}

/// The references that a query sees: those of the facts that were decoded for it,
/// else those of the snapshot's record of the file.
pub open spec fn sees_references<R: GraphRead, C: Cancellation>(
    context: QueryCommandContext<'_, R, C>,
    file: Seq<char>,
    references: Seq<ReferenceView>,
) -> bool {
    match context.reference_facts {
        Some(facts) => references == references_seen(facts.references@),
        None => exists|i: int| #[trigger]
            record_of(context.loaded.snapshot.files@, file, i) && references == references_seen(
                context.loaded.snapshot.files@[i].facts.references@,
            ),
    }
}

/// The query sees no file.
pub open spec fn sees_no_file<R: GraphRead, C: Cancellation>(
    context: QueryCommandContext<'_, R, C>,
    file: Seq<char>,
) -> bool {
    context.reference_facts is None && forall|i: int|
        0 <= i < context.loaded.snapshot.files@.len() ==> normalized(
            #[trigger] context.loaded.snapshot.files@[i].path@,
        ) != file
}

/// Nothing answers the query.
pub open spec fn no_references<R: GraphRead, C: Cancellation>(
    context: QueryCommandContext<'_, R, C>,
    request: ReferencesCommandRequest<'_>,
) -> bool {
    let file = normalized(request.file@);
    sees_no_file(context, file) || exists|references: Seq<ReferenceView>| #[trigger]
        sees_references(context, file, references) && asked_rows(request, references).len() == 0
}

/// The references that are asked for, as they are shown.
fn asked_outputs(request: ReferencesCommandRequest<'_>, references: &Vec<Reference>) -> (r: Vec<
    ReferenceOutput,
>)
    ensures
        reference_rows(r@) == asked_rows(request, references_seen(references@)),
{
    let ghost seen = references_seen(references@);
    let ghost p = |v: ReferenceView| is_asked_for(request, v);
    let ghost row = |v: ReferenceView| reference_row(v);
    let mut r: Vec<ReferenceOutput> = Vec::new();
    let mut i: usize = 0;
    reveal(Seq::filter);
    assert(reference_rows(r@) =~= seen.take(0).filter(p).map_values(row));
    while i < references.len()
        invariant
            i <= references.len(),
            seen == references_seen(references@),
            p == (|v: ReferenceView| is_asked_for(request, v)),
            row == (|v: ReferenceView| reference_row(v)),
            reference_rows(r@) == seen.take(i as int).filter(p).map_values(row),
        decreases references.len() - i,
    {
        let reference = &references[i];
        let ghost kept = seen.take(i as int).filter(p);
        proof {
            reveal(Seq::filter);
            assert(seen.take(i + 1).drop_last() =~= seen.take(i as int));
            assert(seen.take(i + 1).last() == reference@);
        }
        let named = match request.name {
            Some(name) => same_text(reference.name.as_str(), name),
            None => true,
        };
        let of_role = match request.role {
            Some(role) => reference.role == role,
            None => true,
        };
        if named && of_role {
            let ghost before = r@;
            r.push(reference_output(reference));
            proof {
                assert(reference_rows(r@) =~= reference_rows(before).push(
                    reference_row(reference@),
                ));
                assert(kept.push(reference@).map_values(row) =~= kept.map_values(row).push(
                    reference_row(reference@),
                ));
            }
        }
        i += 1;
    }
    assert(seen.take(seen.len() as int) =~= seen);
    r
}

/// The place of the first record of the file.
fn find_record(files: &Vec<CandidateFileRecord>, file: &str) -> (r: Option<usize>)
    ensures
        match r {
            Some(i) => record_of(files@, file@, i as int),
            None => forall|i: int|
                0 <= i < files@.len() ==> normalized(#[trigger] files@[i].path@) != file@,
        },
{
    let mut i: usize = 0;
    while i < files.len()
        invariant
            i <= files.len(),
            forall|j: int| 0 <= j < i ==> normalized(#[trigger] files@[j].path@) != file@,
        decreases files.len() - i,
    {
        let path = normalized_project_path(files[i].path.as_str());
        if same_text(path.as_str(), file) {
            return Some(i);
        }
        i += 1;
    }
    None
}

/// The result answers a query for references.
pub open spec fn is_references_answer<R: GraphRead, C: Cancellation>(
    context: QueryCommandContext<'_, R, C>,
    request: ReferencesCommandRequest<'_>,
    r: Result<OutputEnvelope<Vec<ReferenceOutput>>, CliError>,
) -> bool {
    match r {
        Ok(e) => {
            &&& !file_refused(Some(request.file))
            &&& is_query_envelope(e, *context.loaded)
            &&& e.selector is None
            &&& exists|references: Seq<ReferenceView>| #[trigger]
                sees_references(context, normalized(request.file@), references)
                    && is_reference_listing(e.results@, request, references) && e.total
                    == asked_rows(request, references).len() && e.total > 0 && e.returned
                    == e.results@.len() && e.truncated == (e.total > request.result_limit)
        },
        Err(e) => context.interrupted_by(e) || is_refusal(e, Some(request.file)) || (e
            == CliError::NoMatch && !file_refused(Some(request.file)) && no_references(
            context,
            request,
        )),
    }
}

/// Lists what was extracted from a file; it does not consult the resolution.
pub fn execute_references<R: GraphRead, C: Cancellation>(
    context: &QueryCommandContext<'_, R, C>,
    request: ReferencesCommandRequest<'_>,
) -> (r: Result<OutputEnvelope<Vec<ReferenceOutput>>, CliError>)
    ensures
        is_references_answer(*context, request, r),
        context.heeds(failure_of(r)),
{
    context.deadline.check(context.cancellation)?;
    let file = match requested_file(Some(request.file)) {
        Ok(Some(file)) => file,
        Ok(None) => {
            return Err(CliError::NoMatch);
        },
        Err(e) => {
            return Err(e);
        },
    };
    let files = &context.loaded.snapshot.files;
    let mut at: usize = 0;
    let references: &Vec<Reference> = match &context.reference_facts {
        Some(facts) => &facts.references,
        None => {
            at = match find_record(files, file.as_str()) {
                Some(i) => i,
                None => {
                    return Err(CliError::NoMatch);
                },
            };
            &files[at].facts.references
        },
    };
    let ghost seen = references_seen(references@);
    assert(sees_references(*context, file@, seen)) by {
        if context.reference_facts is None {
            assert(record_of(context.loaded.snapshot.files@, file@, at as int));
        }
    }
    let unsorted = asked_outputs(request, references);
    let ghost listed = unsorted@;
    let mut results = stable_sort(unsorted);
    let ghost sorted = results@;
    proof {
        assert(reference_rows(listed).len() == listed.len());
        listed.to_multiset_ensures();
        sorted.to_multiset_ensures();
        assert(sorted.len() == listed.len());
    }
    context.deadline.check(context.cancellation)?;
    if results.len() == 0 {
        return Err(CliError::NoMatch);
    }
    let (total, truncated) = limit(&mut results, request.result_limit);
    let returned = results.len();
    assert(is_reference_listing(results@, request, seen)) by {
        assert(is_stable_sort(listed, sorted));
    }
    let mut envelope = query_envelope(context.loaded, results);
    envelope.total = total;
    envelope.returned = returned;
    envelope.truncated = truncated;
    assert(sees_references(*context, normalized(request.file@), seen));
    Ok(envelope)
}

} // verus!
