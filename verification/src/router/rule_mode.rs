//! The rules that apply where the user chose to route by rules.

use vstd::prelude::*;

use crate::config::RoutingRule;
use crate::router::engine;
use crate::router::engine::RuleSet;

verus! {

/// One of the rules is switched on.
pub open spec fn any_enabled(rules: Seq<RoutingRule>) -> bool {
    exists|i: int| 0 <= i < rules.len() && (#[trigger] rules[i]).enabled
}

/// The rules that apply: those of the user if one of them is switched on,
/// and otherwise the built-in ones.
pub fn rule_mode_ruleset(rules: &[RoutingRule], builtin: RuleSet) -> (r: RuleSet)
    requires
        builtin.wf(),
    ensures
        r.wf(),
        applies(rules@, builtin, r),
{
    let mut i: usize = 0;
    while i < rules.len()
        invariant
            i <= rules@.len(),
            forall|k: int| 0 <= k < i ==> !(#[trigger] rules@[k]).enabled,
        decreases rules@.len() - i,
    {
        if rules[i].enabled {
            assert(rules@[i as int].enabled);
            return RuleSet::from_config(rules);
        }
        i = i + 1;
    }
    builtin
}

/// The rules that apply.
pub open spec fn applies(rules: Seq<RoutingRule>, builtin: RuleSet, r: RuleSet) -> bool {
    &&& any_enabled(rules) ==> engine::entry_models(r.rules@) == engine::compiled(rules)
        && r.default_action == engine::RouteAction::Proxy
    &&& !any_enabled(rules) ==> r == builtin
}

/// One rule that is switched on is enough for the user's rules to apply, and what none of them
/// decides then goes through the proxy; without one the built-in rules apply as they are.
pub proof fn law_own_rules_apply(rules: Seq<RoutingRule>, builtin: RuleSet, r: RuleSet, k: int)
    requires
        applies(rules, builtin, r),
    ensures
        0 <= k < rules.len() && rules[k].enabled ==> r.default_action is Proxy
            && engine::entry_models(r.rules@) == engine::compiled(rules),
        (forall|i: int| 0 <= i < rules.len() ==> !(#[trigger] rules[i]).enabled) ==> r == builtin,
{
}

} // verus!
