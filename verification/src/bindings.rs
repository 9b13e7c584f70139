//! What the language bindings decide before they extract, resolve or query.

use vstd::prelude::*;
use vstd::string::*;
use crate::config::{debug_text, quoted, QueryBindingRule};
use crate::graph::{path_language, Language};
use crate::text::same_text;

verus! {

/// A custom query-binding rule: the construct in the language carries embedded SQL in
/// an argument.
#[derive(Debug, Clone, PartialEq, Eq)]
pub struct QueryBindingRuleInput {
    pub lang: String,
    pub construct: String,
    pub sql_arg: u32,
}

/// The language tag of a path, where its language is known.
pub fn language_of(path: &str) -> (r: Option<String>)
    ensures
        match r {
            Some(tag) => path_language(path@) is Some && tag@ == path_language(path@)->0.tag(),
            None => path_language(path@) is None,
        },
{
    match Language::from_path(path) {
        Some(language) => Some(language.as_str().to_owned()),
        None => None,
    }
}

/// The rule that an input stands for.
pub open spec fn is_custom_rule(input: QueryBindingRuleInput, rule: QueryBindingRule) -> bool {
    &&& rule.lang.tag() == input.lang@
    &&& rule.construct == input.construct
    &&& rule.sql_arg == input.sql_arg
}

/// The language of an input is known.
pub open spec fn is_known_language(tag: Seq<char>) -> bool {
    exists|l: Language| #[trigger] l.tag() == tag
}

/// The message for an unknown language.
pub open spec fn unknown_tag_message(tag: Seq<char>) -> Seq<char> {
    "unknown language tag "@ + debug_text(tag)
}

/// The message is that of the first input whose language is unknown.
pub open spec fn names_first_unknown(inputs: Seq<QueryBindingRuleInput>, message: Seq<char>) -> bool {
    exists|i: int|
        0 <= i < inputs.len() && !is_known_language((#[trigger] inputs[i]).lang@) && message
            == unknown_tag_message(inputs[i].lang@) && forall|j: int|
            0 <= j < i ==> is_known_language((#[trigger] inputs[j]).lang@)
}

/// Converts custom rules in their order; the first of an unknown language is refused.
pub fn custom_rules(inputs: Vec<QueryBindingRuleInput>) -> (r: Result<
    Vec<QueryBindingRule>,
    String,
>)
    ensures
        match r {
            Ok(rules) => {
                &&& forall|i: int|
                    0 <= i < inputs@.len() ==> is_known_language((#[trigger] inputs@[i]).lang@)
                &&& rules@.len() == inputs@.len()
                &&& forall|i: int|
                    0 <= i < rules@.len() ==> is_custom_rule(inputs@[i], #[trigger] rules@[i])
            },
            Err(message) => names_first_unknown(inputs@, message@),
        },
{
    let mut rest = inputs;
    let ghost all = rest@;
    let mut rules: Vec<QueryBindingRule> = Vec::new();
    while rest.len() > 0
        invariant
            all == inputs@,
            rest@.len() + rules@.len() == all.len(),
            rest@ == all.skip(rules@.len() as int),
            forall|i: int|
                0 <= i < rules@.len() ==> is_known_language((#[trigger] all[i]).lang@),
            forall|i: int| 0 <= i < rules@.len() ==> is_custom_rule(all[i], #[trigger] rules@[i]),
        decreases rest.len(),
    {
        let ghost k = rules@.len();
        let input = rest.remove(0);
        assert(input == all[k as int]);
        match Language::from_tag(input.lang.as_str()) {
            Some(lang) => {
                assert(lang.tag() == input.lang@);
                rules.push(
                    QueryBindingRule {
                        lang,
                        construct: input.construct,
                        sql_arg: input.sql_arg as usize,
                    },
                );
            },
            None => {
                let mut message: String = "unknown language tag ".to_owned();
                message.append(quoted(input.lang.as_str()).as_str());
                assert(!is_known_language(all[k as int].lang@));
                assert(names_first_unknown(all, message@));
                return Err(message);
            },
        }
        assert(rest@ =~= all.skip(rules@.len() as int));
    }
    Ok(rules)
}

/// The resolution that builds a graph.
#[derive(Debug, Clone, Copy, PartialEq, Eq, Structural)]
pub enum GraphResolver {
    Name,
    Scope,
}

/// The text after the name of an unknown tier.
pub open spec fn unknown_tier_message(tier: Seq<char>) -> Seq<char> {
    "unknown tier "@ + debug_text(tier) + "; expected \"name\" or \"scope\""@
}

/// Selects the resolution by the name of a tier; without one it is that by names.
pub fn graph_resolver(tier: Option<&str>) -> (r: Result<GraphResolver, String>)
    ensures
        match tier {
            None => r == Ok::<GraphResolver, String>(GraphResolver::Name),
            Some(t) => if t@ == "name"@ {
                r == Ok::<GraphResolver, String>(GraphResolver::Name)
            } else if t@ == "scope"@ {
                r == Ok::<GraphResolver, String>(GraphResolver::Scope)
            } else {
                r is Err && r->Err_0@ == unknown_tier_message(t@)
            },
        },
{
    match tier {
        None => Ok(GraphResolver::Name),
        Some(t) => if same_text(t, "name") {
            Ok(GraphResolver::Name)
        } else if same_text(t, "scope") {
            Ok(GraphResolver::Scope)
        } else {
            let mut message: String = "unknown tier ".to_owned();
            message.append(quoted(t).as_str());
            message.append("; expected \"name\" or \"scope\"");
            Err(message)
        },
    }
}

} // verus!
