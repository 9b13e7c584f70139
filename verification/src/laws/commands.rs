//! Laws of commands: what each of them asks the graph for, and what its answer holds.

use vstd::prelude::*;
use vstd::string::*;
use crate::commands::diff::FileLineRanges;
use crate::commands::relations::{is_relations_answer, RelationCommandRequest, RelationDirection};
use crate::commands::shared::{ids_seen, QueryCommandContext, SelectorResolution};
use crate::commands::selector::is_resolved;
use crate::config::ResolverTier;
use crate::deadline::Cancellation;
use crate::error::CliError;
use crate::execution::answer::is_answer;
use crate::execution::dispatch::{is_plan_for, CommandPlan, SelectorRequest};
use crate::execution::types::CommandOutput;
use crate::graph::{Confidence, EdgeView, IdView, RefRole};
use crate::laws::relations::{is_asked_for, relations_are_those_asked_for};
use crate::laws::terms::{counts_are_honest, is_as_sure_as, lemma_same_filter, tells_of};
use crate::query::index::{GraphIndex, GraphRead};
use crate::request::{CliRequest, CommandRequest};
use crate::result::{OutputEnvelope, RelationOutput};

verus! {

/// The confidence that is asked for, or else the least that the tier stands for: by name only
/// for names, scoped for scopes, and anything for dense resolution.
pub open spec fn is_floor(request: CliRequest, floor: Confidence) -> bool {
    &&& request.global.min_confidence is Some ==> floor == request.global.min_confidence->0
    &&& request.global.min_confidence is None && request.global.tier == ResolverTier::Name
        ==> floor == Confidence::NameOnly
    &&& request.global.min_confidence is None && request.global.tier == ResolverTier::Scope
        ==> floor == Confidence::Scoped
    &&& request.global.min_confidence is None && request.global.tier == ResolverTier::Dense
        ==> floor == Confidence::Heuristic
}

/// The optional texts are the same.
pub open spec fn is_same_text(a: Option<&str>, b: Option<String>) -> bool {
    (a is Some <==> b is Some) && (a is Some ==> a->0@ == b->0@)
}

/// The selector of the plan.
pub open spec fn selector_of<'a>(plan: CommandPlan<'a>) -> Option<SelectorRequest<'a>> {
    match plan {
        CommandPlan::Def(s, _) => Some(s),
        CommandPlan::Callers(s, _) => Some(s),
        CommandPlan::Callees(s, _) => Some(s),
        CommandPlan::Usages(s, _) => Some(s),
        CommandPlan::Impact(s, _) => Some(s),
        _ => None,
    }
}

/// The relations that the plan asks for.
pub open spec fn relations_of<'a>(plan: CommandPlan<'a>) -> Option<RelationCommandRequest<'a>> {
    match plan {
        CommandPlan::Callers(_, r) => Some(r),
        CommandPlan::Callees(_, r) => Some(r),
        CommandPlan::Usages(_, r) => Some(r),
        _ => None,
    }
}

/// A request is answered by the command that it names. Callers lead into what is selected and
/// callees out of it, over calls unless another role is asked for; usages lead into it, over
/// whatever role is asked for, or any. Only a query for definitions is content with nothing but
/// definitions.
pub proof fn plans_ask_for_what_is_requested(plan: CommandPlan<'_>, request: CliRequest)
    requires
        is_plan_for(plan, request),
    ensures
        request.command is Index <==> plan is Index,
        request.command is Status <==> plan is Status,
        request.command is Symbols <==> plan is Symbols,
        request.command is Def <==> plan is Def,
        request.command is Callers <==> plan is Callers,
        request.command is Callees <==> plan is Callees,
        request.command is Usages <==> plan is Usages,
        request.command is Imports <==> plan is Imports,
        request.command is References <==> plan is References,
        request.command is ModuleDeps <==> plan is ModuleDeps,
        request.command is Impact <==> plan is Impact,
        request.command is DiffImpact <==> plan is DiffImpact,
        relations_of(plan) matches Some(r) ==> {
            &&& r.direction == RelationDirection::Outgoing <==> plan is Callees
            &&& r.direction == RelationDirection::Incoming <==> plan is Callers || plan is Usages
            &&& is_floor(request, r.min_confidence)
            &&& r.result_limit == request.global.limits.result_limit
        },
        selector_of(plan) matches Some(s) ==> (s.definitions_only <==> plan is Def),
        request.command matches CommandRequest::Callers { role, .. } ==> {
            &&& role is Some ==> relations_of(plan)->0.role == role
            &&& role is None ==> relations_of(plan)->0.role == Some(RefRole::Call)
        },
        request.command matches CommandRequest::Callees { role, .. } ==> {
            &&& role is Some ==> relations_of(plan)->0.role == role
            &&& role is None ==> relations_of(plan)->0.role == Some(RefRole::Call)
        },
        request.command matches CommandRequest::Usages { role, .. } ==> relations_of(plan)->0.role
            == role,
        request.command matches CommandRequest::Impact { role, depth, .. } ==> (plan matches
            CommandPlan::Impact(_, r) && r.role == role && r.depth == depth && r.max_nodes
            == request.global.limits.result_limit && is_floor(request, r.min_confidence)),
        request.command matches CommandRequest::DiffImpact { role, depth, .. } ==> (plan matches
            CommandPlan::DiffImpact(_, r) && r.role == role && r.depth == depth && r.max_nodes
            == request.global.limits.result_limit && is_floor(request, r.min_confidence)),
        plan matches CommandPlan::Imports(r) ==> is_floor(request, r.min_confidence)
            && r.result_limit == request.global.limits.result_limit,
        plan matches CommandPlan::ModuleDeps(r) ==> is_floor(request, r.min_confidence)
            && r.result_limit == request.global.limits.result_limit,
        plan matches CommandPlan::Symbols(r) ==> r.result_limit
            == request.global.limits.result_limit,
        plan matches CommandPlan::References(r) ==> r.result_limit
            == request.global.limits.result_limit,
        plan matches CommandPlan::Def(_, r) ==> r.result_limit
            == request.global.limits.result_limit,
{
}

/// What a request says of a selector, the plan says too: its text, its file and its kind, and
/// whether only one symbol is wanted. So it is with the text, the file and the kind of a search,
/// and with the file, the name and the role of a query for references.
pub proof fn plans_keep_what_is_requested(plan: CommandPlan<'_>, request: CliRequest)
    requires
        is_plan_for(plan, request),
    ensures
        request.command matches CommandRequest::Def { selector, file, kind, require_unique } ==> (
        selector_of(plan) matches Some(s) && s.selector.text@ == selector.text@ && is_same_text(
            s.file,
            file,
        ) && s.kind == kind && s.require_unique == require_unique),
        request.command matches CommandRequest::Callers {
            selector,
            file,
            kind,
            require_unique,
            ..
        } ==> (selector_of(plan) matches Some(s) && s.selector.text@ == selector.text@
            && is_same_text(s.file, file) && s.kind == kind && s.require_unique == require_unique),
        request.command matches CommandRequest::Callees {
            selector,
            file,
            kind,
            require_unique,
            ..
        } ==> (selector_of(plan) matches Some(s) && s.selector.text@ == selector.text@
            && is_same_text(s.file, file) && s.kind == kind && s.require_unique == require_unique),
        request.command matches CommandRequest::Usages {
            selector,
            file,
            kind,
            require_unique,
            ..
        } ==> (selector_of(plan) matches Some(s) && s.selector.text@ == selector.text@
            && is_same_text(s.file, file) && s.kind == kind && s.require_unique == require_unique),
        request.command matches CommandRequest::Impact {
            selector,
            file,
            kind,
            require_unique,
            ..
        } ==> (selector_of(plan) matches Some(s) && s.selector.text@ == selector.text@
            && is_same_text(s.file, file) && s.kind == kind && s.require_unique == require_unique),
        request.command matches CommandRequest::Symbols { text, file, kind, case_sensitive } ==> (
        plan matches CommandPlan::Symbols(r) && r.text@ == text@ && is_same_text(r.file, file)
            && r.kind == kind && r.case_sensitive == case_sensitive),
        request.command matches CommandRequest::References { file, name, role } ==> (plan matches
            CommandPlan::References(r) && r.file@ == file@ && is_same_text(r.name, name) && r.role
            == role),
        request.command matches CommandRequest::Imports { file } ==> (plan matches
            CommandPlan::Imports(r) && r.file@ == file@),
        request.command matches CommandRequest::Index { force, trust_mtime, .. } ==> (plan matches
            CommandPlan::Index { force: f, trust_mtime: t } && f == force && t == trust_mtime),
{
}

/// The relation answers the request: a caller calls one of the symbols, a callee is called by
/// one of them, a usage leads to one of them; over the role that is asked for where one is.
pub open spec fn answers_request(request: CliRequest, ids: Seq<IdView>, e: EdgeView) -> bool {
    &&& exists|floor: Confidence| #[trigger]
        is_floor(request, floor) && is_as_sure_as(e.confidence, floor)
    &&& match request.command {
        CommandRequest::Callers { role, .. } => ids.contains(e.to) && e.role == (match role {
            Some(asked) => asked,
            None => RefRole::Call,
        }),
        CommandRequest::Callees { role, .. } => ids.contains(e.from) && e.role == (match role {
            Some(asked) => asked,
            None => RefRole::Call,
        }),
        CommandRequest::Usages { role, .. } => ids.contains(e.to) && (role is Some ==> e.role
            == role->0),
        _ => false,
    }
}

/// The rows of an answer to a query for callers, callees or usages.
pub open spec fn relation_rows_of(out: CommandOutput) -> Option<OutputEnvelope<Vec<RelationOutput>>> {
    match out {
        CommandOutput::Callers(e) => Some(e),
        CommandOutput::Callees(e) => Some(e),
        CommandOutput::Usages(e) => Some(e),
        _ => None,
    }
}

/// A query for callers, callees or usages is answered under its own name, and lists the
/// relations of the graph that answer the request for what its selector resolves to: all of
/// them, in the order in which the graph has them, cut only at the limit, and counted honestly.
pub proof fn callers_callees_and_usages_are_found<C: Cancellation>(
    context: QueryCommandContext<'_, GraphIndex, C>,
    request: CliRequest,
    plan: CommandPlan<'_>,
    changes: Seq<FileLineRanges>,
    sources: Seq<Option<String>>,
    out: CommandOutput,
)
    requires
        request.command is Callers || request.command is Callees || request.command is Usages,
        is_plan_for(plan, request),
        is_answer(context, plan, changes, sources, Ok(out)),
    ensures
        request.command is Callers <==> out is Callers,
        request.command is Callees <==> out is Callees,
        request.command is Usages <==> out is Usages,
        relation_rows_of(out) is Some,
        exists|found: SelectorResolution|
            {
                let all = context.index.relations().filter(
                    |e: EdgeView| answers_request(request, ids_seen(found.ids@), e),
                );
                let envelope = relation_rows_of(out)->0;
                &&& #[trigger] is_resolved(context.index, selector_of(plan)->0, Ok(found))
                &&& counts_are_honest(
                    envelope,
                    envelope.results@.len(),
                    all.len(),
                    request.global.limits.result_limit,
                )
                &&& forall|j: int|
                    0 <= j < envelope.results@.len() ==> tells_of(
                        (#[trigger] envelope.results@[j])@,
                        all[j],
                    )
            },
{
    let envelope = relation_rows_of(out)->0;
    let r = relations_of(plan)->0;
    let s = selector_of(plan)->0;
    let result = choose|found: Result<SelectorResolution, CliError>| #[trigger]
        is_resolved(context.index, s, found) && match found {
            Ok(resolution) => is_relations_answer(context, r, resolution, Ok(envelope)),
            Err(e) => Ok::<OutputEnvelope<Vec<RelationOutput>>, CliError>(envelope) == Err::<
                OutputEnvelope<Vec<RelationOutput>>,
                CliError,
            >(e),
        };
    let found = result->Ok_0;
    relations_are_those_asked_for(context, r, found, envelope);
    let ids = ids_seen(found.ids@);
    let p = |e: EdgeView| is_asked_for(ids, r, e);
    let q = |e: EdgeView| answers_request(request, ids, e);
    let relations = context.index.relations();
    plans_ask_for_what_is_requested(plan, request);
    assert forall|i: int| 0 <= i < relations.len() implies p(#[trigger] relations[i]) == q(
        relations[i],
    ) by {
        let e = relations[i];
        assert(is_floor(request, r.min_confidence));
        if q(e) {
            let floor = choose|floor: Confidence| #[trigger]
                is_floor(request, floor) && is_as_sure_as(e.confidence, floor);
            assert(floor == r.min_confidence);
        }
    }
    lemma_same_filter(relations, p, q);
    assert(relations.filter(p) == relations.filter(q));
    assert(is_resolved(context.index, s, Ok(found)));
}

/// A query is answered under the name of its command, and what is no query is not answered.
pub proof fn answers_have_the_name_of_their_command<C: Cancellation>(
    context: QueryCommandContext<'_, GraphIndex, C>,
    request: CliRequest,
    plan: CommandPlan<'_>,
    changes: Seq<FileLineRanges>,
    sources: Seq<Option<String>>,
    out: CommandOutput,
)
    requires
        is_plan_for(plan, request),
        is_answer(context, plan, changes, sources, Ok(out)),
    ensures
        !(request.command is Index) && !(request.command is Status),
        request.command is Symbols <==> out is Symbols,
        request.command is Def <==> out is Def,
        request.command is Callers <==> out is Callers,
        request.command is Callees <==> out is Callees,
        request.command is Usages <==> out is Usages,
        request.command is Imports <==> out is Imports,
        request.command is References <==> out is References,
        request.command is ModuleDeps <==> out is ModuleDeps,
        request.command is Impact || request.command is DiffImpact <==> out is Impact,
{
}

} // verus!
