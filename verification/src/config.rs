//! Invocation options, resource limits and project configuration.

use std::time::Duration;
use vstd::prelude::*;
use vstd::string::*;
use crate::cache::types::ResolverCacheTier;
use crate::error::CliError;
use crate::graph::{Confidence, Language};

verus! {

/// Filename of the project-local configuration file, read from the project root.
pub const CONFIG_FILE_NAME: &'static str = "code2graph.toml";

/// Default maximum number of files considered by one invocation.
pub const DEFAULT_MAX_FILES: usize = 10_000;

/// Default maximum bytes read from any one source file.
pub const DEFAULT_MAX_FILE_BYTES: usize = 1_048_576;

/// Default maximum aggregate source bytes read by one invocation.
pub const DEFAULT_MAX_TOTAL_BYTES: usize = 268_435_456;

/// Default directory and traversal depth cap.
pub const DEFAULT_MAX_DEPTH: u32 = 32;

/// Default number of rows rendered by a command.
pub const DEFAULT_LIMIT: usize = 50;

/// Default reverse-reachability depth for `impact`.
pub const DEFAULT_IMPACT_DEPTH: u32 = 2;

/// Resolver implementation selected for an invocation.
#[derive(Debug, Clone, Copy, PartialEq, Eq, Structural)]
pub enum ResolverTier {
    Name,
    Scope,
    Dense,
}

impl Default for ResolverTier {
    fn default() -> (r: Self)
        ensures
            r == ResolverTier::Scope,
    {
        ResolverTier::Scope
    }
}

impl ResolverTier {
    /// The cache tier of the same name.
    pub open spec fn cached(self) -> ResolverCacheTier {
        match self {
            ResolverTier::Name => ResolverCacheTier::Name,
            ResolverTier::Scope => ResolverCacheTier::Scope,
            ResolverTier::Dense => ResolverCacheTier::Dense,
        }
    }

    /// The resolver tier of the same name as a cache tier.
    pub open spec fn of_cache(tier: ResolverCacheTier) -> ResolverTier {
        match tier {
            ResolverCacheTier::Name => ResolverTier::Name,
            ResolverCacheTier::Scope => ResolverTier::Scope,
            ResolverCacheTier::Dense => ResolverTier::Dense,
        }
    }

    /// The stable spelling.
    pub open spec fn spelling(self) -> Seq<char> {
        match self {
            ResolverTier::Name => "name"@,
            ResolverTier::Scope => "scope"@,
            ResolverTier::Dense => "dense"@,
        }
    }

    /// Stable kebab-case spelling, matching the serialized representation.
    pub fn as_str(self) -> (r: &'static str)
        ensures
            r@ == self.spelling(),
    {
        match self {
            ResolverTier::Name => "name",
            ResolverTier::Scope => "scope",
            ResolverTier::Dense => "dense",
        }
    }

    /// The minimum that applies where none is asked for.
    pub open spec fn floor(self) -> Confidence {
        match self {
            ResolverTier::Name => Confidence::NameOnly,
            ResolverTier::Scope => Confidence::Scoped,
            ResolverTier::Dense => Confidence::Heuristic,
        }
    }

    /// Planned effective minimum when no minimum confidence is supplied.
    pub fn default_min_confidence(self) -> (r: Confidence)
        ensures
            r == self.floor(),
    {
        match self {
            ResolverTier::Name => Confidence::NameOnly,
            ResolverTier::Scope => Confidence::Scoped,
            ResolverTier::Dense => Confidence::Heuristic,
        }
    }
}

impl From<ResolverTier> for ResolverCacheTier {
    fn from(value: ResolverTier) -> (r: ResolverCacheTier) {
        match value {
            ResolverTier::Name => ResolverCacheTier::Name,
            ResolverTier::Scope => ResolverCacheTier::Scope,
            ResolverTier::Dense => ResolverCacheTier::Dense,
        }
    }
}

impl vstd::std_specs::convert::FromSpecImpl<ResolverTier> for ResolverCacheTier {
    open spec fn obeys_from_spec() -> bool {
        true
    }

    open spec fn from_spec(v: ResolverTier) -> ResolverCacheTier {
        v.cached()
    }
}

impl From<ResolverCacheTier> for ResolverTier {
    fn from(value: ResolverCacheTier) -> (r: ResolverTier) {
        match value {
            ResolverCacheTier::Name => ResolverTier::Name,
            ResolverCacheTier::Scope => ResolverTier::Scope,
            ResolverCacheTier::Dense => ResolverTier::Dense,
        }
    }
}

impl vstd::std_specs::convert::FromSpecImpl<ResolverCacheTier> for ResolverTier {
    open spec fn obeys_from_spec() -> bool {
        true
    }

    open spec fn from_spec(v: ResolverCacheTier) -> ResolverTier {
        ResolverTier::of_cache(v)
    }
}

/// The conversions between resolver tiers and cache tiers lose nothing.
pub proof fn tier_conversions_are_lossless(tier: ResolverTier, cached: ResolverCacheTier)
    ensures
        ResolverTier::of_cache(tier.cached()) == tier,
        ResolverTier::of_cache(cached).cached() == cached,
{
}

/// Bounded resources applied before project scanning and traversal.
#[derive(Debug, Clone, PartialEq, Eq)]
pub struct ResourceLimits {
    pub max_files: usize,
    pub max_file_bytes: usize,
    pub max_total_bytes: usize,
    pub max_depth: u32,
    pub result_limit: usize,
    pub timeout: Option<Duration>,
}

impl Default for ResourceLimits {
    fn default() -> (r: Self)
        ensures
            r.max_files == DEFAULT_MAX_FILES,
            r.max_file_bytes == DEFAULT_MAX_FILE_BYTES,
            r.max_total_bytes == DEFAULT_MAX_TOTAL_BYTES,
            r.max_depth == DEFAULT_MAX_DEPTH,
            r.result_limit == DEFAULT_LIMIT,
            r.timeout is None,
    {
        ResourceLimits {
            max_files: DEFAULT_MAX_FILES,
            max_file_bytes: DEFAULT_MAX_FILE_BYTES,
            max_total_bytes: DEFAULT_MAX_TOTAL_BYTES,
            max_depth: DEFAULT_MAX_DEPTH,
            result_limit: DEFAULT_LIMIT,
            timeout: None,
        }
    }
}

/// Options shared by every command. The root is held as the bytes of its native
/// spelling.
#[derive(Debug, Clone, PartialEq, Eq)]
pub struct GlobalOptions {
    pub root: Option<Vec<u8>>,
    pub tier: ResolverTier,
    /// `None` lets execution choose the tier-specific confidence default.
    pub min_confidence: Option<Confidence>,
    pub json: bool,
    pub limits: ResourceLimits,
    pub include_hidden: bool,
    pub frozen: bool,
    pub allow_stale: bool,
    pub allow_partial: bool,
    pub no_cache: bool,
}

impl GlobalOptions {
    /// Explicit override or the resolver tier's documented default.
    pub fn effective_min_confidence(&self) -> (r: Confidence)
        ensures
            r == match self.min_confidence {
                Some(c) => c,
                None => self.tier.floor(),
            },
    {
        match self.min_confidence {
            Some(c) => c,
            None => self.tier.default_min_confidence(),
        }
    }
}

impl Default for GlobalOptions {
    fn default() -> (r: Self)
        ensures
            r.root is None,
            r.tier == ResolverTier::Scope,
            r.min_confidence is None,
            !r.json,
            r.limits.max_files == DEFAULT_MAX_FILES,
            r.limits.max_file_bytes == DEFAULT_MAX_FILE_BYTES,
            r.limits.max_total_bytes == DEFAULT_MAX_TOTAL_BYTES,
            r.limits.max_depth == DEFAULT_MAX_DEPTH,
            r.limits.result_limit == DEFAULT_LIMIT,
            r.limits.timeout is None,
            !r.include_hidden,
            !r.frozen,
            !r.allow_stale,
            !r.allow_partial,
            !r.no_cache,
    {
        GlobalOptions {
            root: None,
            tier: ResolverTier::Scope,
            min_confidence: None,
            json: false,
            limits: ResourceLimits::default(),
            include_hidden: false,
            frozen: false,
            allow_stale: false,
            allow_partial: false,
            no_cache: false,
        }
    }
}

/// One `[[query_binding]]` table of the configuration file, as it is written.
#[derive(Debug, Clone, PartialEq, Eq)]
pub struct RawQueryBindingRule {
    pub lang: String,
    pub construct: String,
    pub sql_arg: usize,
}

/// A construct that carries embedded SQL in one of its arguments.
#[derive(Debug, Clone, PartialEq, Eq)]
pub struct QueryBindingRule {
    pub lang: Language,
    pub construct: String,
    pub sql_arg: usize,
}

/// The text that the standard library's `Debug` formatting gives for a text.
pub uninterp spec fn debug_text(s: Seq<char>) -> Seq<char>;

/// `format!` with `{:?}` on a text: its quoted and escaped form. Nothing is
/// claimed but that it depends on the text alone.
#[verifier::external_body]
pub(crate) fn quoted(s: &str) -> (r: String)
    ensures
        r@ == debug_text(s@),
{
    format!("{:?}", s)
}

/// The message for a rule that names no known language.
pub open spec fn unknown_language_message(path: Seq<char>, lang: Seq<char>) -> Seq<char> {
    path + ": unknown query-binding language "@ + debug_text(lang)
}

/// The message for a rule without a construct.
pub open spec fn empty_construct_message(path: Seq<char>, lang: Seq<char>) -> Seq<char> {
    path + ": query-binding rule for "@ + debug_text(lang) + " has an empty construct"@
}

/// The rule names a known language.
pub open spec fn names_language(raw: RawQueryBindingRule) -> bool {
    exists|l: Language| #[trigger] l.tag() == raw.lang@
}

/// The rule can be used.
pub open spec fn rule_ok(raw: RawQueryBindingRule) -> bool {
    names_language(raw) && raw.construct@.len() > 0
}

/// The rule that a usable table stands for.
pub open spec fn is_rule_of(raw: RawQueryBindingRule, rule: QueryBindingRule) -> bool {
    &&& rule.lang.tag() == raw.lang@
    &&& rule.construct == raw.construct
    &&& rule.sql_arg == raw.sql_arg
}

/// The failure that an unusable table gives.
pub open spec fn is_rule_failure(raw: RawQueryBindingRule, path: Seq<char>, e: CliError) -> bool {
    if !names_language(raw) {
        e.is_fatal(unknown_language_message(path, raw.lang@))
    } else {
        e.is_fatal(empty_construct_message(path, raw.lang@))
    }
}

/// Converts one table; `path` is the displayed path of the configuration file.
pub fn convert_rule(raw: RawQueryBindingRule, path: &str) -> (r: Result<
    QueryBindingRule,
    CliError,
>)
    ensures
        r is Ok <==> rule_ok(raw),
        r matches Ok(rule) ==> is_rule_of(raw, rule),
        r matches Err(e) ==> is_rule_failure(raw, path@, e),
{
    let lang = match Language::from_tag(raw.lang.as_str()) {
        Some(lang) => lang,
        None => {
            let mut message = path.to_owned();
            message.append(": unknown query-binding language ");
            message.append(quoted(raw.lang.as_str()).as_str());
            return Err(CliError::Fatal(message));
        },
    };
    assert(lang.tag() == raw.lang@);
    if raw.construct.as_str().is_empty() {
        let mut message = path.to_owned();
        message.append(": query-binding rule for ");
        message.append(quoted(raw.lang.as_str()).as_str());
        message.append(" has an empty construct");
        return Err(CliError::Fatal(message));
    }
    Ok(QueryBindingRule { lang, construct: raw.construct, sql_arg: raw.sql_arg })
}

/// Converts the tables of a configuration file in their order; the first that
/// cannot be used decides the failure.
pub fn convert_rules(raws: Vec<RawQueryBindingRule>, path: &str) -> (r: Result<
    Vec<QueryBindingRule>,
    CliError,
>)
    ensures
        r is Ok <==> (forall|i: int| 0 <= i < raws@.len() ==> rule_ok(#[trigger] raws@[i])),
        r matches Ok(rules) ==> rules@.len() == raws@.len() && forall|i: int|
            0 <= i < raws@.len() ==> is_rule_of(raws@[i], #[trigger] rules@[i]),
        r matches Err(e) ==> exists|i: int|
            0 <= i < raws@.len() && !rule_ok(#[trigger] raws@[i]) && is_rule_failure(
                raws@[i],
                path@,
                e,
            ) && forall|j: int| 0 <= j < i ==> rule_ok(#[trigger] raws@[j]),
{
    let mut rest = raws;
    let ghost all = rest@;
    let mut rules: Vec<QueryBindingRule> = Vec::new();
    while rest.len() > 0
        invariant
            all == raws@,
            rest@.len() + rules@.len() == all.len(),
            rest@ == all.skip(rules@.len() as int),
            forall|i: int| 0 <= i < rules@.len() ==> is_rule_of(all[i], #[trigger] rules@[i]),
            forall|i: int| 0 <= i < rules@.len() ==> rule_ok(#[trigger] all[i]),
        decreases rest.len(),
    {
        let ghost k = rules@.len();
        let raw = rest.remove(0);
        assert(raw == all[k as int]);
        match convert_rule(raw, path) {
            Ok(rule) => rules.push(rule),
            Err(e) => {
                return Err(e);
            },
        }
        assert(rest@ =~= all.skip(rules@.len() as int));
    }
    Ok(rules)
}

/// What became of reading the configuration file of a project.
#[derive(Debug)]
pub enum ConfigRead {
    /// There is no such file.
    Absent,
    /// It could not be read.
    Unreadable { why: String },
    /// It is not of the expected form.
    Malformed { why: String },
    /// Its tables.
    Tables(Vec<RawQueryBindingRule>),
}

/// The rules are those of the tables.
pub open spec fn are_rules_of(raws: Seq<RawQueryBindingRule>, rules: Seq<QueryBindingRule>) -> bool {
    rules.len() == raws.len() && forall|i: int|
        0 <= i < raws.len() ==> is_rule_of(raws[i], #[trigger] rules[i])
}

/// The failure is that of the first table that cannot be used.
pub open spec fn is_rules_failure(
    raws: Seq<RawQueryBindingRule>,
    path: Seq<char>,
    e: CliError,
) -> bool {
    exists|i: int|
        0 <= i < raws.len() && !rule_ok(#[trigger] raws[i]) && is_rule_failure(raws[i], path, e)
            && forall|j: int| 0 <= j < i ==> rule_ok(#[trigger] raws[j])
}

/// The rules that a project brings. That it has no configuration file is normal; a
/// file that cannot be read or used is a failure, which names it.
pub fn load_query_binding_rules(read: ConfigRead, path: &str) -> (r: Result<
    Vec<QueryBindingRule>,
    CliError,
>)
    ensures
        match read {
            ConfigRead::Absent => r matches Ok(rules) && rules@.len() == 0,
            ConfigRead::Unreadable { why } => r is Err && r->Err_0.is_fatal(
                "failed to read "@ + path@ + ": "@ + why@,
            ),
            ConfigRead::Malformed { why } => r is Err && r->Err_0.is_fatal(
                "failed to parse "@ + path@ + ": "@ + why@,
            ),
            ConfigRead::Tables(raws) => match r {
                Ok(rules) => (forall|i: int| 0 <= i < raws@.len() ==> rule_ok(#[trigger] raws@[i]))
                    && are_rules_of(raws@, rules@),
                Err(e) => is_rules_failure(raws@, path@, e),
            },
        },
{
    match read {
        ConfigRead::Absent => Ok(Vec::new()),
        ConfigRead::Unreadable { why } => {
            let mut message: String = "failed to read ".to_owned();
            message.append(path);
            message.append(": ");
            message.append(why.as_str());
            Err(CliError::Fatal(message))
        },
        ConfigRead::Malformed { why } => {
            let mut message: String = "failed to parse ".to_owned();
            message.append(path);
            message.append(": ");
            message.append(why.as_str());
            Err(CliError::Fatal(message))
        },
        ConfigRead::Tables(raws) => {
            let ghost all = raws@;
            let r = convert_rules(raws, path);
            let ghost res = r;
            proof {
                match res {
                    Ok(rules) => {
                        assert(are_rules_of(all, rules@));
                    },
                    Err(e) => {
                        assert(is_rules_failure(all, path@, e));
                    },
                }
            }
            r
        },
    }
}

} // verus!
