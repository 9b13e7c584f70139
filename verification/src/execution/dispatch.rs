//! From a request to the command that answers it.

use vstd::prelude::*;
use vstd::string::*;
use crate::commands::definition::DefinitionCommandRequest;
use crate::commands::diff_impact::DiffImpactCommandRequest;
use crate::commands::impact::ImpactCommandRequest;
use crate::commands::imports::ImportsCommandRequest;
use crate::commands::module_deps::ModuleDepsCommandRequest;
use crate::commands::references::ReferencesCommandRequest;
use crate::commands::relations::{RelationCommandRequest, RelationDirection};
use crate::commands::symbols::SymbolsCommandRequest;
use crate::execution::lifecycle::Purpose;
use crate::graph::{Confidence, RefRole, SymbolKind};
use crate::request::{CliRequest, CommandRequest, Selector};
use crate::text::same_bytes;

verus! {

/// How a selector is to be resolved.
#[derive(Debug, Clone, Copy)]
pub struct SelectorRequest<'a> {
    pub selector: &'a Selector,
    /// Only definitions in this file count, where one is named.
    pub file: Option<&'a str>,
    pub kind: Option<SymbolKind>,
    pub require_unique: bool,
    /// Only symbols with a definition count.
    pub definitions_only: bool,
}

/// The command that answers a request, with everything that it needs.
#[derive(Debug)]
pub enum CommandPlan<'a> {
    Index { force: bool, trust_mtime: bool },
    Status,
    Symbols(SymbolsCommandRequest<'a>),
    Def(SelectorRequest<'a>, DefinitionCommandRequest<'a>),
    Callers(SelectorRequest<'a>, RelationCommandRequest<'a>),
    Callees(SelectorRequest<'a>, RelationCommandRequest<'a>),
    Usages(SelectorRequest<'a>, RelationCommandRequest<'a>),
    Imports(ImportsCommandRequest<'a>),
    References(ReferencesCommandRequest<'a>),
    ModuleDeps(ModuleDepsCommandRequest),
    Impact(SelectorRequest<'a>, ImpactCommandRequest<'a>),
    DiffImpact(Option<&'a String>, DiffImpactCommandRequest),
}

/// The role that callers and callees are looked for by.
pub open spec fn call_role(role: Option<RefRole>) -> Option<RefRole> {
    match role {
        Some(role) => Some(role),
        None => Some(RefRole::Call),
    }
}

/// The texts of two optional ones are the same.
pub open spec fn same_optional(a: Option<&str>, b: Option<String>) -> bool {
    match (a, b) {
        (Some(x), Some(y)) => x@ == y@,
        (None, None) => true,
        _ => false,
    }
}

/// The selector of a plan is that of the request.
pub open spec fn is_selection(
    s: SelectorRequest<'_>,
    selector: Selector,
    file: Option<String>,
    kind: Option<SymbolKind>,
    require_unique: bool,
    definitions_only: bool,
) -> bool {
    &&& *s.selector == selector
    &&& same_optional(s.file, file)
    &&& s.kind == kind
    &&& s.require_unique == require_unique
    &&& s.definitions_only == definitions_only
}

/// The confidence below which nothing is shown.
pub open spec fn confidence_floor(request: CliRequest) -> Confidence {
    match request.global.min_confidence {
        Some(c) => c,
        None => request.global.tier.floor(),
    }
}

/// The relations that a plan asks for.
pub open spec fn is_relation_plan(
    r: RelationCommandRequest<'_>,
    request: CliRequest,
    file: Option<String>,
    role: Option<RefRole>,
    direction: RelationDirection,
) -> bool {
    &&& same_optional(r.file, file)
    &&& r.role == role
    &&& r.direction == direction
    &&& r.result_limit == request.global.limits.result_limit
    &&& r.min_confidence == confidence_floor(request)
}

/// The plan answers the request.
pub open spec fn is_plan_for(plan: CommandPlan<'_>, request: CliRequest) -> bool {
    let limit = request.global.limits.result_limit;
    let floor = confidence_floor(request);
    match request.command {
        CommandRequest::Index { path, force, trust_mtime } => plan == (CommandPlan::Index {
            force,
            trust_mtime,
        }),
        CommandRequest::Status => plan == CommandPlan::Status,
        CommandRequest::Symbols { text, file, kind, case_sensitive } => plan matches
            CommandPlan::Symbols(r) && {
            &&& r.text@ == text@
            &&& same_optional(r.file, file)
            &&& r.kind == kind
            &&& r.case_sensitive == case_sensitive
            &&& r.result_limit == limit
        },
        CommandRequest::Def { selector, file, kind, require_unique } => plan matches
            CommandPlan::Def(s, r) && {
            &&& is_selection(s, selector, file, kind, require_unique, true)
            &&& same_optional(r.file, file)
            &&& r.result_limit == limit
        },
        CommandRequest::Callers { selector, file, kind, require_unique, role } => plan matches
            CommandPlan::Callers(s, r) && {
            &&& is_selection(s, selector, file, kind, require_unique, false)
            &&& is_relation_plan(
                r,
                request,
                file,
                call_role(role),
                RelationDirection::Incoming,
            )
        },
        CommandRequest::Callees { selector, file, kind, require_unique, role } => plan matches
            CommandPlan::Callees(s, r) && {
            &&& is_selection(s, selector, file, kind, require_unique, false)
            &&& is_relation_plan(
                r,
                request,
                file,
                call_role(role),
                RelationDirection::Outgoing,
            )
        },
        CommandRequest::Usages { selector, file, kind, require_unique, role } => plan matches
            CommandPlan::Usages(s, r) && {
            &&& is_selection(s, selector, file, kind, require_unique, false)
            &&& is_relation_plan(r, request, file, role, RelationDirection::Incoming)
        },
        CommandRequest::Imports { file } => plan matches CommandPlan::Imports(r) && {
            &&& r.file@ == file@
            &&& r.result_limit == limit
            &&& r.min_confidence == floor
        },
        CommandRequest::References { file, name, role } => plan matches CommandPlan::References(r)
            && {
            &&& r.file@ == file@
            &&& same_optional(r.name, name)
            &&& r.role == role
            &&& r.result_limit == limit
        },
        CommandRequest::ModuleDeps => plan matches CommandPlan::ModuleDeps(r) && r.result_limit
            == limit && r.min_confidence == floor,
        CommandRequest::Impact { selector, file, kind, require_unique, role, depth } => plan matches
            CommandPlan::Impact(s, r) && {
            &&& is_selection(s, selector, file, kind, require_unique, false)
            &&& same_optional(r.file, file)
            &&& r.role == role
            &&& r.depth == depth
            &&& r.max_nodes == limit
            &&& r.min_confidence == floor
        },
        CommandRequest::DiffImpact { base, role, depth } => plan matches CommandPlan::DiffImpact(
            b,
            r,
        ) && {
            &&& match (b, base) {
                (Some(x), Some(y)) => *x == y,
                (None, None) => true,
                _ => false,
            }
            &&& r.role == role
            &&& r.depth == depth
            &&& r.max_nodes == limit
            &&& r.min_confidence == floor
        },
    }
}

fn text_of(s: &Option<String>) -> (r: Option<&str>)
    ensures
        same_optional(r, *s),
{
    match s {
        Some(text) => Some(text.as_str()),
        None => None,
    }
}

/// Selects the command that answers a request. Callers and callees follow calls unless
/// another role is asked for; usages follow every role.
pub fn execute<'a>(request: &'a CliRequest) -> (r: CommandPlan<'a>)
    ensures
        is_plan_for(r, *request),
{
    let result_limit = request.global.limits.result_limit;
    let min_confidence = request.global.effective_min_confidence();
    match &request.command {
        CommandRequest::Index { force, trust_mtime, .. } => CommandPlan::Index {
            force: *force,
            trust_mtime: *trust_mtime,
        },
        CommandRequest::Status => CommandPlan::Status,
        CommandRequest::Symbols { text, file, kind, case_sensitive } => CommandPlan::Symbols(
            SymbolsCommandRequest {
                text: text.as_str(),
                file: text_of(file),
                kind: *kind,
                case_sensitive: *case_sensitive,
                result_limit,
            },
        ),
        CommandRequest::Def { selector, file, kind, require_unique } => CommandPlan::Def(
            SelectorRequest {
                selector,
                file: text_of(file),
                kind: *kind,
                require_unique: *require_unique,
                definitions_only: true,
            },
            DefinitionCommandRequest { file: text_of(file), result_limit },
        ),
        CommandRequest::Callers { selector, file, kind, require_unique, role } => {
            CommandPlan::Callers(
                SelectorRequest {
                    selector,
                    file: text_of(file),
                    kind: *kind,
                    require_unique: *require_unique,
                    definitions_only: false,
                },
                RelationCommandRequest {
                    file: text_of(file),
                    role: match role {
                        Some(role) => Some(*role),
                        None => Some(RefRole::Call),
                    },
                    direction: RelationDirection::Incoming,
                    result_limit,
                    min_confidence,
                },
            )
        },
        CommandRequest::Callees { selector, file, kind, require_unique, role } => {
            CommandPlan::Callees(
                SelectorRequest {
                    selector,
                    file: text_of(file),
                    kind: *kind,
                    require_unique: *require_unique,
                    definitions_only: false,
                },
                RelationCommandRequest {
                    file: text_of(file),
                    role: match role {
                        Some(role) => Some(*role),
                        None => Some(RefRole::Call),
                    },
                    direction: RelationDirection::Outgoing,
                    result_limit,
                    min_confidence,
                },
            )
        },
        CommandRequest::Usages { selector, file, kind, require_unique, role } => {
            CommandPlan::Usages(
                SelectorRequest {
                    selector,
                    file: text_of(file),
                    kind: *kind,
                    require_unique: *require_unique,
                    definitions_only: false,
                },
                RelationCommandRequest {
                    file: text_of(file),
                    role: *role,
                    direction: RelationDirection::Incoming,
                    result_limit,
                    min_confidence,
                },
            )
        },
        CommandRequest::Imports { file } => CommandPlan::Imports(
            ImportsCommandRequest { file: file.as_str(), result_limit, min_confidence },
        ),
        CommandRequest::References { file, name, role } => CommandPlan::References(
            ReferencesCommandRequest {
                file: file.as_str(),
                name: text_of(name),
                role: *role,
                result_limit,
            },
        ),
        CommandRequest::ModuleDeps => CommandPlan::ModuleDeps(
            ModuleDepsCommandRequest { result_limit, min_confidence },
        ),
        CommandRequest::Impact { selector, file, kind, require_unique, role, depth } => {
            CommandPlan::Impact(
                SelectorRequest {
                    selector,
                    file: text_of(file),
                    kind: *kind,
                    require_unique: *require_unique,
                    definitions_only: false,
                },
                ImpactCommandRequest {
                    file: text_of(file),
                    role: *role,
                    depth: *depth,
                    max_nodes: result_limit,
                    min_confidence,
                },
            )
        },
        CommandRequest::DiffImpact { base, role, depth } => CommandPlan::DiffImpact(
            base.as_ref(),
            DiffImpactCommandRequest {
                role: *role,
                depth: *depth,
                max_nodes: result_limit,
                min_confidence,
            },
        ),
    }
}

/// What a command needs of a snapshot.
pub fn purpose_of(plan: &CommandPlan<'_>) -> (r: Purpose)
    ensures
        r == (match plan {
            CommandPlan::Index { .. } => Purpose::Index,
            CommandPlan::Status => Purpose::Status,
            _ => Purpose::Query,
        }),
{
    match plan {
        CommandPlan::Index { .. } => Purpose::Index,
        CommandPlan::Status => Purpose::Status,
        _ => Purpose::Query,
    }
}

/// Tells whether arguments ask for JSON before they are parsed: only options before a
/// lone `--` count. The first argument is the name of the program.
pub fn requests_json(args: &Vec<Vec<u8>>) -> (r: bool)
    ensures
        r == asks_for_json(args@),
{
    let ghost separator = vstd::utf8::encode_utf8("--"@);
    let ghost option = vstd::utf8::encode_utf8("--json"@);
    let mut i: usize = 1;
    while i < args.len()
        invariant
            1 <= i,
            i <= args.len() || args.len() == 0,
            separator == vstd::utf8::encode_utf8("--"@),
            option == vstd::utf8::encode_utf8("--json"@),
            forall|j: int| 1 <= j < i ==> (#[trigger] args@[j])@ != separator && args@[j]@ != option,
        decreases args.len() - i,
    {
        let argument = args[i].as_slice();
        if same_bytes(argument, "--json".as_bytes()) {
            assert(is_json_at(args@, i as int));
            return true;
        }
        if same_bytes(argument, "--".as_bytes()) {
            assert forall|k: int| !#[trigger] is_json_at(args@, k) by {
                if is_json_at(args@, k) {
                    if k > i {
                        assert(args@[i as int]@ != separator);
                    } else if k < i {
                        assert(args@[k]@ != option);
                    }
                }
            }
            return false;
        }
        i += 1;
    }
    assert forall|k: int| !#[trigger] is_json_at(args@, k) by {
        if is_json_at(args@, k) {
            assert(args@[k]@ != option);
        }
    }
    false
}

/// The argument is the option for JSON, and nothing before it ends the options.
pub open spec fn is_json_at(args: Seq<Vec<u8>>, k: int) -> bool {
    &&& 1 <= k < args.len()
    &&& args[k]@ == vstd::utf8::encode_utf8("--json"@)
    &&& forall|j: int| 1 <= j < k ==> (#[trigger] args[j])@ != vstd::utf8::encode_utf8("--"@)
}

/// Some argument asks for JSON.
pub open spec fn asks_for_json(args: Seq<Vec<u8>>) -> bool {
    exists|k: int| #[trigger] is_json_at(args, k)
}

/// Tells whether a command works on whole snapshots; the others look at what is shown
/// without its files and graphs.
pub fn loads_snapshots(command: &CommandRequest) -> (r: bool)
    ensures
        r == (command is Index),
{
    matches!(command, CommandRequest::Index { .. })
}

} // verus!
