//! Role-based access control: rules pair an action with a pattern of secret names.

use vstd::prelude::*;
use crate::text::{chars_of, has_prefix, starts_with, str_eq, string_of};

verus! {

/// The actions that a rule can name.
pub const ACTIONS: [&'static str; 4] = ["create", "update", "delete", "rotate"];

/// Whether a rule may name `action`: one of the four actions, or `*` for all of them.
pub open spec fn valid_action(action: Seq<char>) -> bool {
    action == "*"@ || action == "create"@ || action == "update"@ || action == "delete"@ || action
        == "rotate"@
}

pub fn is_valid_action(action: &str) -> (r: bool)
    ensures
        r == valid_action(action@),
{
    if str_eq(action, "*") {
        return true;
    }
    let known = ACTIONS;
    let mut i: usize = 0;
    while i < 4
        invariant
            i <= 4,
            known@.len() == 4,
            known@[0]@ == "create"@,
            known@[1]@ == "update"@,
            known@[2]@ == "delete"@,
            known@[3]@ == "rotate"@,
            action@ != "*"@,
            forall|j: int| 0 <= j < i ==> (#[trigger] known@[j])@ != action@,
        decreases 4 - i,
    {
        if str_eq(known[i], action) {
            return true;
        }
        i = i + 1;
    }
    assert(known@[0]@ != action@ && known@[1]@ != action@ && known@[2]@ != action@ && known@[3]@
        != action@);
    false
}

/// Whether a pattern covers a name: a pattern that ends in `*` covers every name that starts with
/// what stands before it, any other pattern only the name that equals it.
pub open spec fn pattern_covers(pattern: Seq<char>, name: Seq<char>) -> bool {
    if pattern.len() > 0 && pattern.last() == '*' {
        has_prefix(name, pattern.drop_last())
    } else {
        pattern == name
    }
}

pub fn path_matches(pattern: &str, name: &str) -> (r: bool)
    ensures
        r == pattern_covers(pattern@, name@),
{
    let chars = chars_of(pattern);
    if chars.len() > 0 && chars[chars.len() - 1] == '*' {
        let prefix = string_of(&chars, 0, chars.len() - 1);
        assert(prefix@ =~= pattern@.drop_last());
        starts_with(name, prefix.as_str())
    } else {
        str_eq(pattern, name)
    }
}

/// Whether a rule's action covers an action.
pub open spec fn action_covers(rule_action: Seq<char>, action: Seq<char>) -> bool {
    rule_action == "*"@ || rule_action == action
}

pub fn action_matches(rule_action: &str, action: &str) -> (r: bool)
    ensures
        r == action_covers(rule_action@, action@),
{
    str_eq(rule_action, "*") || str_eq(rule_action, action)
}

/// The rules of a role: pairs of an action and a pattern.
pub type Rules = Seq<(Seq<char>, Seq<char>)>;

/// Whether some rule allows `action` on `name`, or the actor is an admin.
pub open spec fn authorized(is_admin: bool, rules: Rules, action: Seq<char>, name: Seq<char>) -> bool {
    is_admin || exists|i: int|
        0 <= i < rules.len() && action_covers((#[trigger] rules[i]).0, action) && pattern_covers(
            rules[i].1,
            name,
        )
}

/// Whether some rule names `name`, whatever its action, or the actor is an admin.
pub open spec fn can_see(is_admin: bool, rules: Rules, name: Seq<char>) -> bool {
    is_admin || exists|i: int|
        0 <= i < rules.len() && pattern_covers((#[trigger] rules[i]).1, name)
}

pub fn authorize(is_admin: bool, rules: &[(String, String)], action: &str, name: &str) -> (r: bool)
    ensures
        r == authorized(is_admin, rules.deep_view(), action@, name@),
{
    if is_admin {
        return true;
    }
    let ghost all = rules.deep_view();
    let mut i: usize = 0;
    while i < rules.len()
        invariant
            i <= rules@.len(),
            all == rules.deep_view(),
            all.len() == rules@.len(),
            forall|j: int|
                0 <= j < i ==> !(action_covers((#[trigger] all[j]).0, action@) && pattern_covers(
                    all[j].1,
                    name@,
                )),
        decreases rules@.len() - i,
    {
        assert(all[i as int] == (rules@[i as int].0@, rules@[i as int].1@));
        if action_matches(rules[i].0.as_str(), action) && path_matches(rules[i].1.as_str(), name) {
            return true;
        }
        i = i + 1;
    }
    false
}

pub fn visible(is_admin: bool, rules: &[(String, String)], name: &str) -> (r: bool)
    ensures
        r == can_see(is_admin, rules.deep_view(), name@),
{
    if is_admin {
        return true;
    }
    let ghost all = rules.deep_view();
    let mut i: usize = 0;
    while i < rules.len()
        invariant
            i <= rules@.len(),
            all == rules.deep_view(),
            all.len() == rules@.len(),
            forall|j: int| 0 <= j < i ==> !pattern_covers((#[trigger] all[j]).1, name@),
        decreases rules@.len() - i,
    {
        assert(all[i as int] == (rules@[i as int].0@, rules@[i as int].1@));
        if path_matches(rules[i].1.as_str(), name) {
            return true;
        }
        i = i + 1;
    }
    false
}

/// Without a rule nobody but an admin may do or see anything.
pub proof fn law_deny_by_default(action: Seq<char>, name: Seq<char>)
    ensures
        !authorized(false, Seq::empty(), action, name),
        !can_see(false, Seq::empty(), name),
{
}

/// An admin may do and see everything.
pub proof fn law_admin_bypasses_rules(rules: Rules, action: Seq<char>, name: Seq<char>)
    ensures
        authorized(true, rules, action, name),
        can_see(true, rules, name),
{
}

/// Rules add up: a list of rules allows exactly what one of its two parts allows.
pub proof fn law_rules_are_a_union(a: Rules, b: Rules, action: Seq<char>, name: Seq<char>)
    ensures
        authorized(false, a + b, action, name) <==> authorized(false, a, action, name)
            || authorized(false, b, action, name),
        can_see(false, a + b, name) <==> can_see(false, a, name) || can_see(false, b, name),
{
    let all = a + b;
    if authorized(false, all, action, name) {
        let i = choose|i: int|
            0 <= i < all.len() && action_covers((#[trigger] all[i]).0, action) && pattern_covers(
                all[i].1,
                name,
            );
        if i < a.len() {
            assert(a[i] == all[i]);
        } else {
            assert(b[i - a.len()] == all[i]);
        }
    }
    if can_see(false, all, name) {
        let i = choose|i: int| 0 <= i < all.len() && pattern_covers((#[trigger] all[i]).1, name);
        if i < a.len() {
            assert(a[i] == all[i]);
        } else {
            assert(b[i - a.len()] == all[i]);
        }
    }
    assert forall|i: int| 0 <= i < a.len() implies #[trigger] a[i] == all[i] by {}
    assert forall|i: int| 0 <= i < b.len() implies #[trigger] b[i] == all[a.len() + i] by {}
}

/// Whoever may act on a secret may see it.
pub proof fn law_authorized_is_visible(
    is_admin: bool,
    rules: Rules,
    action: Seq<char>,
    name: Seq<char>,
)
    requires
        authorized(is_admin, rules, action, name),
    ensures
        can_see(is_admin, rules, name),
{
}

/// A role whose patterns all end in `*` behind one prefix reaches nothing outside that prefix.
pub proof fn law_confined_to_prefix(
    rules: Rules,
    prefix: Seq<char>,
    action: Seq<char>,
    name: Seq<char>,
)
    requires
        forall|i: int| 0 <= i < rules.len() ==> (#[trigger] rules[i]).1 == prefix.push('*'),
        !has_prefix(name, prefix),
    ensures
        !authorized(false, rules, action, name),
        !can_see(false, rules, name),
{
    assert(prefix.push('*').drop_last() =~= prefix);
}

} // verus!
