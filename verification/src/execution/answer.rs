//! From the plan of a query to its answer.

use vstd::prelude::*;
use vstd::string::*;
use crate::commands::definition::{
    execute_definition, is_definition_answer, DefinitionCommandRequest,
};
use crate::commands::diff::FileLineRanges;
use crate::commands::diff_impact::{execute_diff_impact, is_diff_impact_answer};
use crate::commands::impact::{execute_impact, is_impact_answer, ImpactCommandRequest};
use crate::commands::imports::{execute_imports, is_imports_answer};
use crate::commands::module_deps::{execute_module_deps, is_module_deps_answer};
use crate::commands::references::{execute_references, is_references_answer};
use crate::commands::relations::{execute_relations, is_relations_answer, RelationCommandRequest};
use crate::commands::selector::{is_resolved, resolve_selector};
use crate::commands::shared::{
    file_refused, is_refusal, requested_file, QueryCommandContext, SelectorResolution,
};
use crate::commands::symbols::{execute_symbols, is_symbols_answer};
use crate::deadline::{failure_of, Cancellation};
use crate::error::CliError;
use crate::execution::dispatch::{CommandPlan, SelectorRequest};
use crate::execution::types::CommandOutput;
use crate::query::index::GraphIndex;
use crate::result::{ImpactOutput, OutputEnvelope, RelationOutput, SymbolOutput};

verus! {

/// The result answers a query for relations of what the selector resolves to. A file
/// that is refused is told before the selector is looked at.
pub open spec fn is_selected_relations<C: Cancellation>(
    context: QueryCommandContext<'_, GraphIndex, C>,
    selector: SelectorRequest<'_>,
    request: RelationCommandRequest<'_>,
    r: Result<OutputEnvelope<Vec<RelationOutput>>, CliError>,
) -> bool {
    ||| r matches Err(e) && (context.interrupted_by(e) || is_refusal(e, request.file))
    ||| !file_refused(request.file) && exists|found: Result<SelectorResolution, CliError>|
         #[trigger]
        is_resolved(context.index, selector, found) && match found {
            Ok(resolution) => is_relations_answer(context, request, resolution, r),
            Err(e) => r == Err::<OutputEnvelope<Vec<RelationOutput>>, CliError>(e),
        }
}

/// The result answers a query for definitions of what the selector resolves to.
pub open spec fn is_selected_definitions<C: Cancellation>(
    context: QueryCommandContext<'_, GraphIndex, C>,
    selector: SelectorRequest<'_>,
    request: DefinitionCommandRequest<'_>,
    r: Result<OutputEnvelope<Vec<SymbolOutput>>, CliError>,
) -> bool {
    ||| r matches Err(e) && (context.interrupted_by(e) || is_refusal(e, request.file))
    ||| !file_refused(request.file) && exists|found: Result<SelectorResolution, CliError>|
         #[trigger]
        is_resolved(context.index, selector, found) && match found {
            Ok(resolution) => is_definition_answer(context, request, resolution, r),
            Err(e) => r == Err::<OutputEnvelope<Vec<SymbolOutput>>, CliError>(e),
        }
}

/// The result answers a query for the impact of what the selector resolves to.
pub open spec fn is_selected_impact<C: Cancellation>(
    context: QueryCommandContext<'_, GraphIndex, C>,
    selector: SelectorRequest<'_>,
    request: ImpactCommandRequest<'_>,
    r: Result<OutputEnvelope<Vec<ImpactOutput>>, CliError>,
) -> bool {
    ||| r matches Err(e) && (context.interrupted_by(e) || is_refusal(e, request.file))
    ||| !file_refused(request.file) && exists|found: Result<SelectorResolution, CliError>|
         #[trigger]
        is_resolved(context.index, selector, found) && match found {
            Ok(resolution) => is_impact_answer(context, request, resolution, r),
            Err(e) => r == Err::<OutputEnvelope<Vec<ImpactOutput>>, CliError>(e),
        }
}

fn selected_relations<C: Cancellation>(
    context: &QueryCommandContext<'_, GraphIndex, C>,
    selector: SelectorRequest<'_>,
    request: RelationCommandRequest<'_>,
) -> (r: Result<OutputEnvelope<Vec<RelationOutput>>, CliError>)
    ensures
        is_selected_relations(*context, selector, request, r),
        context.heeds(failure_of(r)),
{
    context.deadline.check(context.cancellation)?;
    match requested_file(request.file) {
        Ok(_) => {},
        Err(e) => {
            return Err(e);
        },
    }
    let found = resolve_selector(context.index, selector);
    let ghost resolved = found;
    assert(is_resolved(context.index, selector, resolved));
    match found {
        Ok(resolution) => execute_relations(context, request, resolution),
        Err(e) => Err(e),
    }
}

fn selected_definitions<C: Cancellation>(
    context: &QueryCommandContext<'_, GraphIndex, C>,
    selector: SelectorRequest<'_>,
    request: DefinitionCommandRequest<'_>,
) -> (r: Result<OutputEnvelope<Vec<SymbolOutput>>, CliError>)
    ensures
        is_selected_definitions(*context, selector, request, r),
        context.heeds(failure_of(r)),
{
    context.deadline.check(context.cancellation)?;
    match requested_file(request.file) {
        Ok(_) => {},
        Err(e) => {
            return Err(e);
        },
    }
    let found = resolve_selector(context.index, selector);
    let ghost resolved = found;
    assert(is_resolved(context.index, selector, resolved));
    match found {
        Ok(resolution) => execute_definition(context, request, resolution),
        Err(e) => Err(e),
    }
}

fn selected_impact<C: Cancellation>(
    context: &QueryCommandContext<'_, GraphIndex, C>,
    selector: SelectorRequest<'_>,
    request: ImpactCommandRequest<'_>,
) -> (r: Result<OutputEnvelope<Vec<ImpactOutput>>, CliError>)
    ensures
        is_selected_impact(*context, selector, request, r),
        context.heeds(failure_of(r)),
{
    context.deadline.check(context.cancellation)?;
    match requested_file(request.file) {
        Ok(_) => {},
        Err(e) => {
            return Err(e);
        },
    }
    let found = resolve_selector(context.index, selector);
    let ghost resolved = found;
    assert(is_resolved(context.index, selector, resolved));
    match found {
        Ok(resolution) => execute_impact(context, request, resolution),
        Err(e) => Err(e),
    }
}

/// The result answers the plan, under the name of its command.
pub open spec fn is_answer<C: Cancellation>(
    context: QueryCommandContext<'_, GraphIndex, C>,
    plan: CommandPlan<'_>,
    changes: Seq<FileLineRanges>,
    sources: Seq<Option<String>>,
    r: Result<CommandOutput, CliError>,
) -> bool {
    match plan {
        CommandPlan::Index { .. } | CommandPlan::Status => r matches Err(e) && e.is_fatal(
            "the command is not a query"@,
        ),
        CommandPlan::Symbols(request) => match r {
            Ok(CommandOutput::Symbols(e)) => is_symbols_answer(context, request, Ok(e)),
            Ok(_) => false,
            Err(e) => is_symbols_answer(context, request, Err(e)),
        },
        CommandPlan::Def(selector, request) => match r {
            Ok(CommandOutput::Def(e)) => is_selected_definitions(
                context,
                selector,
                request,
                Ok(e),
            ),
            Ok(_) => false,
            Err(e) => is_selected_definitions(context, selector, request, Err(e)),
        },
        CommandPlan::Callers(selector, request) => match r {
            Ok(CommandOutput::Callers(e)) => is_selected_relations(
                context,
                selector,
                request,
                Ok(e),
            ),
            Ok(_) => false,
            Err(e) => is_selected_relations(context, selector, request, Err(e)),
        },
        CommandPlan::Callees(selector, request) => match r {
            Ok(CommandOutput::Callees(e)) => is_selected_relations(
                context,
                selector,
                request,
                Ok(e),
            ),
            Ok(_) => false,
            Err(e) => is_selected_relations(context, selector, request, Err(e)),
        },
        CommandPlan::Usages(selector, request) => match r {
            Ok(CommandOutput::Usages(e)) => is_selected_relations(
                context,
                selector,
                request,
                Ok(e),
            ),
            Ok(_) => false,
            Err(e) => is_selected_relations(context, selector, request, Err(e)),
        },
        CommandPlan::Imports(request) => match r {
            Ok(CommandOutput::Imports(e)) => is_imports_answer(context, request, Ok(e)),
            Ok(_) => false,
            Err(e) => is_imports_answer(context, request, Err(e)),
        },
        CommandPlan::References(request) => match r {
            Ok(CommandOutput::References(e)) => is_references_answer(context, request, Ok(e)),
            Ok(_) => false,
            Err(e) => is_references_answer(context, request, Err(e)),
        },
        CommandPlan::ModuleDeps(request) => match r {
            Ok(CommandOutput::ModuleDeps(e)) => is_module_deps_answer(context, request, Ok(e)),
            Ok(_) => false,
            Err(e) => is_module_deps_answer(context, request, Err(e)),
        },
        CommandPlan::Impact(selector, request) => match r {
            Ok(CommandOutput::Impact(e)) => is_selected_impact(context, selector, request, Ok(e)),
            Ok(_) => false,
            Err(e) => is_selected_impact(context, selector, request, Err(e)),
        },
        CommandPlan::DiffImpact(_, request) => match r {
            Ok(CommandOutput::Impact(e)) => is_diff_impact_answer(
                context,
                request,
                changes,
                sources,
                Ok(e),
            ),
            Ok(_) => false,
            Err(e) => is_diff_impact_answer(context, request, changes, sources, Err(e)),
        },
    }
}

/// Answers a query. The changes, and the sources of the changed files, are those that a
/// query for the impact of changes works on.
pub fn answer_query<C: Cancellation>(
    context: &QueryCommandContext<'_, GraphIndex, C>,
    plan: CommandPlan<'_>,
    changes: &Vec<FileLineRanges>,
    sources: &Vec<Option<String>>,
) -> (r: Result<CommandOutput, CliError>)
    requires
        changes@.len() == sources@.len(),
    ensures
        is_answer(*context, plan, changes@, sources@, r),
        !(plan is Index) && !(plan is Status) ==> context.heeds(failure_of(r)),
{
    match plan {
        CommandPlan::Index { .. } => Err(CliError::Fatal("the command is not a query".to_owned())),
        CommandPlan::Status => Err(CliError::Fatal("the command is not a query".to_owned())),
        CommandPlan::Symbols(request) => match execute_symbols(context, request) {
            Ok(e) => Ok(CommandOutput::Symbols(e)),
            Err(e) => Err(e),
        },
        CommandPlan::Def(selector, request) => match selected_definitions(
            context,
            selector,
            request,
        ) {
            Ok(e) => Ok(CommandOutput::Def(e)),
            Err(e) => Err(e),
        },
        CommandPlan::Callers(selector, request) => match selected_relations(
            context,
            selector,
            request,
        ) {
            Ok(e) => Ok(CommandOutput::Callers(e)),
            Err(e) => Err(e),
        },
        CommandPlan::Callees(selector, request) => match selected_relations(
            context,
            selector,
            request,
        ) {
            Ok(e) => Ok(CommandOutput::Callees(e)),
            Err(e) => Err(e),
        },
        CommandPlan::Usages(selector, request) => match selected_relations(
            context,
            selector,
            request,
        ) {
            Ok(e) => Ok(CommandOutput::Usages(e)),
            Err(e) => Err(e),
        },
        CommandPlan::Imports(request) => match execute_imports(context, request) {
            Ok(e) => Ok(CommandOutput::Imports(e)),
            Err(e) => Err(e),
        },
        CommandPlan::References(request) => match execute_references(context, request) {
            Ok(e) => Ok(CommandOutput::References(e)),
            Err(e) => Err(e),
        },
        CommandPlan::ModuleDeps(request) => match execute_module_deps(context, request) {
            Ok(e) => Ok(CommandOutput::ModuleDeps(e)),
            Err(e) => Err(e),
        },
        CommandPlan::Impact(selector, request) => match selected_impact(
            context,
            selector,
            request,
        ) {
            Ok(e) => Ok(CommandOutput::Impact(e)),
            Err(e) => Err(e),
        },
        CommandPlan::DiffImpact(_, request) => match execute_diff_impact(
            context,
            request,
            changes,
            sources,
        ) {
            Ok(e) => Ok(CommandOutput::Impact(e)),
            Err(e) => Err(e),
        },
    }
}

} // verus!
