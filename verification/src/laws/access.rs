//! Who may do and see what: rules, roles, tokens, and how refusals are counted.

use vstd::prelude::*;
use vstd::utf8::encode_utf8;
use crate::api_error::{ApiErrorView, ApiResult};
use crate::auth::{fingerprint_of, sha256};
use crate::clock::rfc3339_of;
use crate::dto::{
    rule_pairs, CreateRoleRequest, CreateTokenRequest, RoleInfo, TokenCreated, TokenInfo,
};
use crate::guards::{bearer_of, let_through, rights_of, valid_token};
use crate::lockout::{failure_command, LockoutPolicy};
use crate::manage::{
    created_role, role_refusal, rules_refusal, tells_role, tells_token, token_made, token_refusal,
};
use crate::order::{bytes_precede, lemma_bytes_skip, text_precedes, Key};
use crate::rbac::{authorized, can_see, pattern_covers, Rules};
use crate::service::visible_of;
use crate::store::apply::outcome;
use crate::store::engine::{listed, values_where};
use crate::store::laws::keyed_by_name;
use crate::store::model::{
    Command, CommandView, RoleRecord, RoleView, SecretRecord, SecretView, StoreErrorView,
    TokenRecord, TokenView,
};
use crate::store::sorting::{law_sorted_in_order, stably_sorted, Ranked};
use crate::store::table::{
    ascending, lemma_ordered_exists, lemma_ordered_has, lemma_rows_map_len, ordered,
};
use crate::store::tables::StoreView;
use crate::text::trimmed;

verus! {

/// Whether a pattern reaches a name: it is the name, or a beginning of it with a star behind.
pub open spec fn reaches(pattern: Seq<char>, name: Seq<char>) -> bool {
    pattern == name || exists|start: Seq<char>| #[trigger]
        start.is_prefix_of(name) && pattern == start.push('*')
}

/// A pattern without a star covers one name, a pattern with a star at its end covers every name
/// that begins as it does.
pub proof fn law_pattern_covers_what_it_reaches(pattern: Seq<char>, name: Seq<char>)
    ensures
        pattern_covers(pattern, name) <==> reaches(pattern, name),
{
    if pattern.len() > 0 && pattern.last() == '*' {
        let start = pattern.drop_last();
        assert(pattern =~= start.push('*'));
        if pattern_covers(pattern, name) {
            assert(start.is_prefix_of(name)) by {
                assert(name.subrange(0, start.len() as int) =~= name.take(start.len() as int));
            }
        }
        if pattern == name {
            assert(name.take(start.len() as int) =~= start);
        }
    }
    if exists|start: Seq<char>| #[trigger]
        start.is_prefix_of(name) && pattern == start.push('*') {
        let start = choose|start: Seq<char>| #[trigger]
            start.is_prefix_of(name) && pattern == start.push('*');
        assert(pattern.drop_last() =~= start);
        assert(name.take(start.len() as int) =~= start);
    }
}

/// An action on a name is allowed exactly for admins and for those who have a rule with that
/// action, or with any action, whose pattern reaches the name.
pub proof fn law_who_may_act(is_admin: bool, rules: Rules, action: Seq<char>, name: Seq<char>)
    ensures
        authorized(is_admin, rules, action, name) <==> is_admin || exists|i: int|
            #![trigger rules[i]]
            0 <= i < rules.len() && (rules[i].0 == "*"@ || rules[i].0 == action) && reaches(
                rules[i].1,
                name,
            ),
{
    assert forall|i: int| 0 <= i < rules.len() implies pattern_covers(
        (#[trigger] rules[i]).1,
        name,
    ) == reaches(rules[i].1, name) by {
        law_pattern_covers_what_it_reaches(rules[i].1, name);
    }
}

/// A name is visible exactly to admins and to those who have a rule whose pattern reaches it.
pub proof fn law_who_may_see(is_admin: bool, rules: Rules, name: Seq<char>)
    ensures
        can_see(is_admin, rules, name) <==> is_admin || exists|i: int|
            #![trigger rules[i]]
            0 <= i < rules.len() && reaches(rules[i].1, name),
{
    assert forall|i: int| 0 <= i < rules.len() implies pattern_covers(
        (#[trigger] rules[i]).1,
        name,
    ) == reaches(rules[i].1, name) by {
        law_pattern_covers_what_it_reaches(rules[i].1, name);
    }
}

/// Byte strings are ordered by the first byte in which they differ, and a string comes before its
/// continuations.
pub proof fn law_order_of_bytes(a: Seq<u8>, b: Seq<u8>, i: int)
    requires
        0 <= i <= a.len(),
        i <= b.len(),
        forall|j: int| 0 <= j < i ==> a[j] == b[j],
        i < a.len() && i < b.len() ==> a[i] != b[i],
    ensures
        bytes_precede(a, b) <==> (if i < a.len() && i < b.len() {
            a[i] < b[i]
        } else {
            a.len() < b.len()
        }),
{
    lemma_bytes_skip(a, b, i);
}

proof fn lemma_all_values<A, B>(rows: Seq<(A, B)>, keep: spec_fn(A, B) -> bool)
    requires
        forall|key: A, value: B| #[trigger] keep(key, value),
    ensures
        values_where(rows, keep).len() == rows.len(),
        forall|i: int|
            0 <= i < rows.len() ==> #[trigger] values_where(rows, keep)[i] == rows[i].1,
    decreases rows.len(),
{
    if rows.len() > 0 {
        lemma_all_values(rows.drop_last(), keep);
    }
}

/// A listing holds every value of the table, as many as there are and no others, and no value
/// stands before one that ranks above it.
pub proof fn law_listing_is_complete<K: Key, V: Ranked>(table: Map<K::V, V::V>)
    requires
        table.dom().finite(),
    ensures
        listed::<K, V>(table).len() == table.dom().len(),
        forall|key: K::V| #[trigger]
            table.contains_key(key) ==> listed::<K, V>(table).contains(table[key]),
        forall|value: V::V| #[trigger]
            listed::<K, V>(table).contains(value) ==> exists|key: K::V| #[trigger]
                table.contains_key(key) && table[key] == value,
        forall|i: int, j: int|
            0 <= i < j < listed::<K, V>(table).len() ==> !V::above(
                #[trigger] listed::<K, V>(table)[j],
                #[trigger] listed::<K, V>(table)[i],
            ),
{
    broadcast use vstd::seq_lib::group_to_multiset_ensures;

    let rows = ordered::<K, V::V>(table);
    let keep = |key: K::V, value: V::V| true;
    let values = values_where(rows, keep);
    let list = listed::<K, V>(table);
    lemma_ordered_exists::<K, V::V>(table);
    lemma_rows_map_len::<K, V::V>(rows);
    lemma_all_values(rows, keep);
    law_sorted_in_order::<V>(values);
    assert forall|key: K::V| #[trigger] table.contains_key(key) implies list.contains(
        table[key],
    ) by {
        lemma_ordered_has::<K, V::V>(table, key);
        let i = choose|i: int| 0 <= i < rows.len() && (#[trigger] rows[i]).0 == key;
        assert(values[i] == table[key]);
        assert(values.contains(table[key]));
        assert(values.to_multiset().contains(table[key]));
    }
    assert forall|value: V::V| #[trigger] list.contains(value) implies exists|key: K::V| #[trigger]
        table.contains_key(key) && table[key] == value by {
        assert(list.to_multiset().contains(value));
        assert(values.contains(value));
        let i = values.index_of(value);
        assert(values[i] == rows[i].1);
        lemma_ordered_has::<K, V::V>(table, rows[i].0);
        assert(table.contains_key(rows[i].0));
    }
}

/// Secrets stored under their names are already in their order.
proof fn lemma_listed_in_key_order(secrets: Map<Seq<char>, SecretView>)
    requires
        secrets.dom().finite(),
        forall|name: Seq<char>| #[trigger]
            secrets.contains_key(name) ==> secrets[name].name == name,
    ensures
        ({
            let rows = ordered::<String, SecretView>(secrets);
            let list = listed::<String, SecretRecord>(secrets);
            &&& ascending::<String, SecretView>(rows)
            &&& rows.len() == secrets.dom().len()
            &&& list.len() == rows.len()
            &&& forall|i: int|
                0 <= i < rows.len() ==> (#[trigger] list[i]) == rows[i].1 && rows[i].1.name
                    == rows[i].0 && secrets.contains_key(rows[i].0) && secrets[rows[i].0]
                    == rows[i].1
        }),
{
    let rows = ordered::<String, SecretView>(secrets);
    let keep = |key: Seq<char>, value: SecretView| true;
    let values = values_where(rows, keep);
    lemma_ordered_exists::<String, SecretView>(secrets);
    lemma_rows_map_len::<String, SecretView>(rows);
    lemma_all_values(rows, keep);
    assert forall|i: int| 0 <= i < rows.len() implies rows[i].1.name == (#[trigger] rows[i]).0
        && secrets.contains_key(rows[i].0) && secrets[rows[i].0] == rows[i].1 by {
        lemma_ordered_has::<String, SecretView>(secrets, rows[i].0);
    }
    assert forall|i: int, j: int| 0 <= i < j < values.len() implies text_precedes(
        (#[trigger] values[i]).name,
        (#[trigger] values[j]).name,
    ) by {
        assert(<String as Key>::precedes(rows[i].0, rows[j].0));
    }
    lemma_sorted_stays(values);
}

proof fn lemma_sorted_stays(values: Seq<SecretView>)
    requires
        forall|i: int, j: int|
            0 <= i < j < values.len() ==> text_precedes(
                (#[trigger] values[i]).name,
                (#[trigger] values[j]).name,
            ),
    ensures
        stably_sorted::<SecretRecord>(values) == values,
    decreases values.len(),
{
    if values.len() > 0 {
        let front = values.drop_last();
        assert forall|i: int, j: int| 0 <= i < j < front.len() implies text_precedes(
            (#[trigger] front[i]).name,
            (#[trigger] front[j]).name,
        ) by {
            assert(front[i] == values[i] && front[j] == values[j]);
        }
        lemma_sorted_stays(front);
        if front.len() > 0 {
            let a = values[values.len() - 2].name;
            let b = values[values.len() - 1].name;
            assert(text_precedes(a, b));
            if text_precedes(b, a) {
                <String as Key>::transitive(a, b, a);
                <String as Key>::irreflexive(a);
            }
        }
        assert(front.push(values.last()) =~= values);
    }
}

proof fn lemma_visible(secrets: Seq<SecretView>, is_admin: bool, rules: Rules)
    ensures
        ({
            let shown = visible_of(secrets, is_admin, rules);
            &&& shown.len() <= secrets.len()
            &&& is_admin ==> shown == secrets
            &&& forall|i: int|
                0 <= i < secrets.len() && can_see(is_admin, rules, (#[trigger] secrets[i]).name)
                    ==> shown.contains(secrets[i])
            &&& forall|j: int|
                0 <= j < shown.len() ==> can_see(is_admin, rules, (#[trigger] shown[j]).name)
                    && secrets.contains(shown[j])
        }),
    decreases secrets.len(),
{
    if secrets.len() > 0 {
        let front = secrets.drop_last();
        let before = visible_of(front, is_admin, rules);
        let shown = visible_of(secrets, is_admin, rules);
        lemma_visible(front, is_admin, rules);
        assert(front.push(secrets.last()) =~= secrets);
        assert forall|i: int|
            0 <= i < secrets.len() && can_see(
                is_admin,
                rules,
                (#[trigger] secrets[i]).name,
            ) implies shown.contains(secrets[i]) by {
            if i < front.len() {
                assert(front[i] == secrets[i]);
                let j = before.index_of(secrets[i]);
                assert(shown[j] == secrets[i]);
            } else {
                assert(shown[shown.len() - 1] == secrets[i]);
            }
        }
        assert forall|j: int| 0 <= j < shown.len() implies can_see(
            is_admin,
            rules,
            (#[trigger] shown[j]).name,
        ) && secrets.contains(shown[j]) by {
            if j < before.len() {
                assert(shown[j] == before[j]);
                let i = front.index_of(before[j]);
                assert(secrets[i] == shown[j]);
            } else {
                assert(secrets[secrets.len() - 1] == shown[j]);
            }
        }
    }
}

proof fn lemma_visible_in_order(secrets: Seq<SecretView>, is_admin: bool, rules: Rules)
    requires
        forall|i: int, j: int|
            0 <= i < j < secrets.len() ==> text_precedes(
                (#[trigger] secrets[i]).name,
                (#[trigger] secrets[j]).name,
            ),
    ensures
        ({
            let shown = visible_of(secrets, is_admin, rules);
            forall|i: int, j: int|
                0 <= i < j < shown.len() ==> text_precedes(
                    (#[trigger] shown[i]).name,
                    (#[trigger] shown[j]).name,
                )
        }),
    decreases secrets.len(),
{
    if secrets.len() > 0 {
        let front = secrets.drop_last();
        let before = visible_of(front, is_admin, rules);
        let shown = visible_of(secrets, is_admin, rules);
        assert forall|i: int, j: int| 0 <= i < j < front.len() implies text_precedes(
            (#[trigger] front[i]).name,
            (#[trigger] front[j]).name,
        ) by {
            assert(front[i] == secrets[i] && front[j] == secrets[j]);
        }
        lemma_visible_in_order(front, is_admin, rules);
        lemma_visible(front, is_admin, rules);
        assert forall|i: int, j: int| 0 <= i < j < shown.len() implies text_precedes(
            (#[trigger] shown[i]).name,
            (#[trigger] shown[j]).name,
        ) by {
            assert(shown[i] == before[i]);
            if j < before.len() {
                assert(shown[j] == before[j]);
            } else {
                let k = front.index_of(before[i]);
                assert(secrets[k] == shown[i]);
                assert(secrets[secrets.len() - 1] == shown[j]);
            }
        }
    }
}

/// A stored secret is listed exactly where the actor is an admin or has a rule whose pattern
/// reaches its name, whatever its kind and format. Nothing else is listed, nothing twice, and all
/// in the order of names; an admin's list has as many entries as there are secrets.
pub proof fn law_list_shows_what_may_be_seen(state: StoreView, is_admin: bool, rules: Rules)
    requires
        state.secrets.dom().finite(),
        keyed_by_name(state),
    ensures
        ({
            let shown = visible_of(
                listed::<String, SecretRecord>(state.secrets),
                is_admin,
                rules,
            );
            &&& forall|name: Seq<char>| #[trigger]
                state.secrets.contains_key(name) ==> (shown.contains(state.secrets[name]) <==> {
                    is_admin || exists|i: int|
                        #![trigger rules[i]]
                        0 <= i < rules.len() && reaches(rules[i].1, name)
                })
            &&& forall|i: int|
                #![trigger shown[i]]
                0 <= i < shown.len() ==> state.secrets.contains_key(shown[i].name)
                    && state.secrets[shown[i].name] == shown[i]
            &&& forall|i: int, j: int|
                0 <= i < j < shown.len() ==> text_precedes(
                    (#[trigger] shown[i]).name,
                    (#[trigger] shown[j]).name,
                ) && shown[i].name != shown[j].name
            &&& is_admin ==> shown.len() == state.secrets.dom().len()
        }),
{
    let rows = ordered::<String, SecretView>(state.secrets);
    let list = listed::<String, SecretRecord>(state.secrets);
    let shown = visible_of(list, is_admin, rules);
    lemma_listed_in_key_order(state.secrets);
    lemma_visible(list, is_admin, rules);
    assert forall|i: int, j: int| 0 <= i < j < list.len() implies text_precedes(
        (#[trigger] list[i]).name,
        (#[trigger] list[j]).name,
    ) by {
        assert(<String as Key>::precedes(rows[i].0, rows[j].0));
    }
    lemma_visible_in_order(list, is_admin, rules);
    assert forall|i: int| 0 <= i < shown.len() implies state.secrets.contains_key(
        (#[trigger] shown[i]).name,
    ) && state.secrets[shown[i].name] == shown[i] by {
        let k = list.index_of(shown[i]);
        assert(list[k] == rows[k].1);
    }
    assert forall|name: Seq<char>| #[trigger] state.secrets.contains_key(name) implies (
    shown.contains(state.secrets[name]) <==> (is_admin || exists|i: int|
        #![trigger rules[i]]
        0 <= i < rules.len() && reaches(rules[i].1, name))) by {
        law_who_may_see(is_admin, rules, name);
        lemma_ordered_exists::<String, SecretView>(state.secrets);
        lemma_ordered_has::<String, SecretView>(state.secrets, name);
        let k = choose|k: int| 0 <= k < rows.len() && (#[trigger] rows[k]).0 == name;
        assert(list[k] == state.secrets[name]);
        if shown.contains(state.secrets[name]) {
            let j = shown.index_of(state.secrets[name]);
            assert(can_see(is_admin, rules, shown[j].name));
        }
    }
    assert forall|i: int, j: int| 0 <= i < j < shown.len() implies (#[trigger] shown[i]).name != (
    #[trigger] shown[j]).name by {
        <String as Key>::irreflexive(shown[i].name);
    }
}

/// Roles and tokens are listed completely, in the order of their names.
pub proof fn law_roles_and_tokens_are_listed(state: StoreView)
    requires
        state.roles.dom().finite(),
        state.tokens.dom().finite(),
    ensures
        ({
            let roles = listed::<String, RoleRecord>(state.roles);
            let tokens = listed::<Vec<u8>, TokenRecord>(state.tokens);
            &&& roles.len() == state.roles.dom().len()
            &&& tokens.len() == state.tokens.dom().len()
            &&& forall|name: Seq<char>| #[trigger]
                state.roles.contains_key(name) ==> roles.contains(state.roles[name])
            &&& forall|print: Seq<u8>| #[trigger]
                state.tokens.contains_key(print) ==> tokens.contains(state.tokens[print])
            &&& forall|i: int, j: int|
                0 <= i < j < roles.len() ==> !text_precedes(
                    (#[trigger] roles[j]).name,
                    (#[trigger] roles[i]).name,
                )
            &&& forall|i: int, j: int|
                0 <= i < j < tokens.len() ==> !text_precedes(
                    (#[trigger] tokens[j]).name,
                    (#[trigger] tokens[i]).name,
                )
        }),
{
    law_listing_is_complete::<String, RoleRecord>(state.roles);
    law_listing_is_complete::<Vec<u8>, TokenRecord>(state.tokens);
    let roles = listed::<String, RoleRecord>(state.roles);
    let tokens = listed::<Vec<u8>, TokenRecord>(state.tokens);
    assert forall|i: int, j: int| 0 <= i < j < roles.len() implies !text_precedes(
        (#[trigger] roles[j]).name,
        (#[trigger] roles[i]).name,
    ) by {
        assert(!<RoleRecord as Ranked>::above(roles[j], roles[i]));
    }
    assert forall|i: int, j: int| 0 <= i < j < tokens.len() implies !text_precedes(
        (#[trigger] tokens[j]).name,
        (#[trigger] tokens[i]).name,
    ) by {
        assert(!<TokenRecord as Ranked>::above(tokens[j], tokens[i]));
    }
}

/// A presented token is valid exactly where a token with its fingerprint is stored that was not
/// revoked, and then stands for that token; no token at all is never valid.
pub proof fn law_which_tokens_are_valid(state: StoreView, token: Seq<char>)
    ensures
        valid_token(state, Some(token)) is Some <==> state.tokens.contains_key(
            fingerprint_of(token),
        ) && state.tokens[fingerprint_of(token)].revoked_at is None,
        valid_token(state, Some(token)) matches Some(record) ==> record
            == state.tokens[fingerprint_of(token)],
        valid_token(state, None) is None,
{
}

/// A token has the rights of its role, and none where it has no role or its role is gone.
pub proof fn law_token_acts_with_its_role(
    state: StoreView,
    token: TokenView,
    action: Seq<char>,
    name: Seq<char>,
)
    ensures
        ({
            let (is_admin, rules) = rights_of(state, token);
            let role = state.roles[token.role->0];
            if token.role is Some && state.roles.contains_key(token.role->0) {
                &&& is_admin == role.is_admin
                &&& rules == role.permissions
            } else {
                !authorized(is_admin, rules, action, name) && !can_see(is_admin, rules, name)
            }
        }),
{
}

/// A failure is counted against the address it came from, with the limits in force; without an
/// address, or where failures are not counted, nothing is.
pub proof fn law_failures_are_counted_by_address(
    policy: LockoutPolicy,
    ip: Option<Seq<char>>,
    now: i64,
)
    ensures
        failure_command(policy, ip, now) is Some <==> policy.max_failures > 0 && ip is Some,
        failure_command(policy, ip, now) matches Some(command) ==> command
            == (CommandView::RecordAuthFailure {
            ip: ip->0,
            now,
            max: policy.max_failures,
            window_secs: policy.window_secs,
            lockout_secs: policy.lockout_secs,
        }),
{
}

/// Who is not allowed is refused, and the refusal is counted; who is allowed is not.
pub proof fn law_refusals_are_counted(
    allowed: bool,
    r: (ApiResult<()>, Option<Command>),
    policy: LockoutPolicy,
    ip: Option<Seq<char>>,
    now: i64,
)
    requires
        let_through(allowed, r, policy, ip, now),
    ensures
        r.0 is Ok <==> allowed,
        r.0 matches Err(e) ==> e@ == ApiErrorView::Forbidden,
        allowed ==> r.1 is None,
        !allowed && policy.max_failures > 0 && ip is Some ==> r.1 is Some && (
        r.1->0@ matches CommandView::RecordAuthFailure { ip: counted, now: at, .. } && counted
            == ip->0 && at == now),
        policy.max_failures == 0 || ip is None ==> r.1 is None,
{
}

/// A bearer token is what follows the scheme, without white space around it.
pub proof fn law_bearer_token(token: Seq<char>)
    ensures
        bearer_of("Bearer "@ + token) == bearer_of("bearer "@ + token),
        bearer_of("Bearer "@ + token) is Some <==> trimmed(token).len() > 0,
        bearer_of("Bearer "@ + token) matches Some(text) ==> text == trimmed(token),
{
    reveal_strlit("Bearer ");
    reveal_strlit("bearer ");
    assert(("Bearer "@ + token).take(7) =~= "Bearer "@);
    assert(("bearer "@ + token).take(7) =~= "bearer "@);
    assert(("Bearer "@ + token).skip(7) =~= token);
    assert(("bearer "@ + token).skip(7) =~= token);
}

/// Nothing but a header of that scheme brings a token.
pub proof fn law_other_headers_bring_no_token(header: Seq<char>)
    requires
        bearer_of(header) is Some,
    ensures
        header.len() > 7,
        header.take(7) == "Bearer "@ || header.take(7) == "bearer "@,
{
    reveal_strlit("Bearer ");
    reveal_strlit("bearer ");
    if header.len() == 7 {
        assert(header.skip(7) =~= Seq::empty());
    }
}

/// A role is accepted exactly where its name is not blank and not longer than 255 bytes, and every
/// rule has a known action and a pattern.
pub proof fn law_which_roles_are_accepted(req: CreateRoleRequest)
    ensures
        role_refusal(req) is None <==> trimmed(req.name@).len() > 0 && encode_utf8(req.name@).len()
            <= 255 && forall|i: int|
            #![trigger rule_pairs(req.permissions@)[i]]
            0 <= i < rule_pairs(req.permissions@).len() ==> sound_rule(
                rule_pairs(req.permissions@)[i],
            ),
        role_refusal(req) matches Some(error) ==> error is BadRequest,
{
    law_which_rules_are_accepted(rule_pairs(req.permissions@));
}

/// Whether a rule has one of the actions, or any, and a pattern.
pub open spec fn sound_rule(rule: (Seq<char>, Seq<char>)) -> bool {
    seq!["*"@, "create"@, "update"@, "delete"@, "rotate"@].contains(rule.0) && rule.1.len() > 0
}

/// Rules are accepted exactly where each of them is.
pub proof fn law_which_rules_are_accepted(rules: Seq<(Seq<char>, Seq<char>)>)
    ensures
        rules_refusal(rules) is None <==> forall|i: int|
            0 <= i < rules.len() ==> sound_rule(#[trigger] rules[i]),
        rules_refusal(rules) matches Some(error) ==> error is BadRequest,
    decreases rules.len(),
{
    let known = seq!["*"@, "create"@, "update"@, "delete"@, "rotate"@];
    assert(known[0] == "*"@ && known[1] == "create"@ && known[2] == "update"@ && known[3]
        == "delete"@ && known[4] == "rotate"@);
    if rules.len() > 0 {
        let front = rules.drop_last();
        law_which_rules_are_accepted(front);
        assert(rules.last() == rules[rules.len() - 1]);
        assert(forall|i: int| 0 <= i < front.len() ==> front[i] == #[trigger] rules[i]);
        if known.contains(rules.last().0) {
            let k = known.index_of(rules.last().0);
            assert(known[k] == rules.last().0);
        }
    }
}

/// A role that was created is stored as it was asked for, and nothing else changes.
pub proof fn law_created_role_is_as_asked(
    state: StoreView,
    node_id: u64,
    req: CreateRoleRequest,
    now: i64,
)
    requires
        !state.roles.contains_key(req.name@),
    ensures
        ({
            let result = outcome(
                state,
                node_id,
                CommandView::CreateRole { role: created_role(req, now) },
            );
            let role = result->Ok_0.roles[req.name@];
            &&& result is Ok
            &&& result->Ok_0 == (StoreView {
                roles: state.roles.insert(req.name@, role),
                ..state
            })
            &&& role.name == req.name@
            &&& role.description is Some <==> req.description is Some
            &&& req.description is Some ==> role.description->0 == req.description->0@
            &&& role.is_admin == req.is_admin
            &&& role.created_at == now
            &&& role.permissions.len() == req.permissions@.len()
            &&& forall|i: int|
                0 <= i < req.permissions@.len() ==> (#[trigger] role.permissions[i]).0
                    == req.permissions@[i].action@ && role.permissions[i].1
                    == req.permissions@[i].path@
        }),
{
}

/// What a client is told of a role determines the role, but for the time it was made.
pub proof fn law_role_is_told_whole(answer: RoleInfo, a: RoleView, b: RoleView)
    requires
        tells_role(answer, a),
        tells_role(answer, b),
    ensures
        a.name == b.name,
        a.description == b.description,
        a.is_admin == b.is_admin,
        a.permissions == b.permissions,
        answer.name@ == a.name,
        answer.is_admin == a.is_admin,
        answer.permissions@.len() == a.permissions.len(),
        forall|i: int|
            0 <= i < a.permissions.len() ==> (#[trigger] answer.permissions@[i]).action@
                == a.permissions[i].0 && answer.permissions@[i].path@ == a.permissions[i].1,
        answer.description is Some <==> a.description is Some,
        a.description is Some ==> answer.description->0@ == a.description->0,
        answer.created_at@ == rfc3339_of(a.created_at),
{
    assert(rule_pairs(answer.permissions@).len() == answer.permissions@.len());
    assert forall|i: int| 0 <= i < a.permissions.len() implies (
    #[trigger] answer.permissions@[i]).action@ == a.permissions[i].0
        && answer.permissions@[i].path@ == a.permissions[i].1 by {
        assert(rule_pairs(answer.permissions@)[i] == a.permissions[i]);
    }
}

/// The fingerprint of a token is the digest of its text as it is.
pub proof fn law_fingerprint_is_the_digest(token: Seq<char>)
    ensures
        fingerprint_of(token) == sha256(encode_utf8(token)),
{
}

/// What a client is told of a token names it and its role and tells whether it was used and
/// revoked.
pub proof fn law_token_is_told(answer: TokenInfo, token: TokenView)
    requires
        tells_token(answer, token),
    ensures
        answer.name@ == token.name,
        answer.role is Some <==> token.role is Some,
        token.role is Some ==> answer.role->0@ == token.role->0,
        answer.last_used_at is Some <==> token.last_used_at is Some,
        answer.revoked_at is Some <==> token.revoked_at is Some,
        answer.created_at@ == rfc3339_of(token.created_at),
        token.last_used_at is Some ==> answer.last_used_at->0@ == rfc3339_of(
            token.last_used_at->0,
        ),
        token.revoked_at is Some ==> answer.revoked_at->0@ == rfc3339_of(token.revoked_at->0),
{
}

/// Setting the permissions of a role replaces all of them and nothing else.
pub proof fn law_permissions_are_replaced(
    state: StoreView,
    node_id: u64,
    name: Seq<char>,
    permissions: Rules,
)
    ensures
        ({
            let result = outcome(
                state,
                node_id,
                CommandView::SetPermissions { name, permissions },
            );
            if state.roles.contains_key(name) {
                let role = result->Ok_0.roles[name];
                &&& result is Ok
                &&& role.permissions == permissions
                &&& role.name == state.roles[name].name
                &&& role.description == state.roles[name].description
                &&& role.is_admin == state.roles[name].is_admin
                &&& role.created_at == state.roles[name].created_at
                &&& result->Ok_0 == (StoreView { roles: state.roles.insert(name, role), ..state })
            } else {
                result == Err::<StoreView, StoreErrorView>(StoreErrorView::NotFound)
            }
        }),
{
}

/// A role is deleted exactly where it exists and no token has it, revoked or not, and nothing else
/// goes with it.
pub proof fn law_role_deletion(state: StoreView, node_id: u64, name: Seq<char>)
    ensures
        ({
            let result = outcome(state, node_id, CommandView::DeleteRole { name });
            &&& result is Ok <==> state.roles.contains_key(name) && forall|print: Seq<u8>|
                #[trigger]
                state.tokens.contains_key(print) ==> state.tokens[print].role != Some(name)
            &&& result matches Ok(after) ==> after == (StoreView {
                roles: state.roles.remove(name),
                ..state
            })
        }),
{
}

/// A token is accepted exactly where it has a name that is not blank and its role exists.
pub proof fn law_which_tokens_are_accepted(state: StoreView, req: CreateTokenRequest)
    ensures
        token_refusal(state, req) is None <==> trimmed(req.name@).len() > 0
            && state.roles.contains_key(req.role@),
        token_refusal(state, req) matches Some(error) ==> error is BadRequest,
{
}

/// A new token is stored under its fingerprint only, with the name and role asked for, unused and
/// not revoked; the client is told the token itself, and presenting it is then accepted.
pub proof fn law_new_token_is_as_asked(
    state: StoreView,
    node_id: u64,
    made: (Command, TokenCreated),
    req: CreateTokenRequest,
    token: Seq<char>,
    now: i64,
)
    requires
        token_made(made, req, token, now),
        !state.tokens_by_name.contains_key(req.name@),
    ensures
        ({
            let result = outcome(state, node_id, made.0@);
            let after = result->Ok_0;
            let print = fingerprint_of(token);
            let record = after.tokens[print];
            &&& result is Ok
            &&& made.1.token@ == token
            &&& made.1.name@ == req.name@
            &&& made.1.role@ == req.role@
            &&& record.name == req.name@
            &&& record.role == Some(req.role@)
            &&& record.fingerprint == print
            &&& record.created_at == now
            &&& record.last_used_at is None
            &&& record.revoked_at is None
            &&& valid_token(after, Some(made.1.token@)) == Some(record)
            &&& after == (StoreView {
                tokens: state.tokens.insert(print, record),
                tokens_by_name: state.tokens_by_name.insert(req.name@, print),
                ..state
            })
        }),
{
}

/// Revoking a token marks that token as revoked at the time given and changes nothing else; a token
/// that is unknown or already revoked is not found.
pub proof fn law_revocation(state: StoreView, node_id: u64, name: Seq<char>, at: i64)
    ensures
        ({
            let result = outcome(state, node_id, CommandView::RevokeToken { name, revoked_at: at });
            let print = state.tokens_by_name[name];
            if state.tokens_by_name.contains_key(name) && state.tokens.contains_key(print)
                && state.tokens[print].revoked_at is None {
                &&& result is Ok
                &&& result->Ok_0 == (StoreView {
                    tokens: state.tokens.insert(
                        print,
                        TokenView { revoked_at: Some(at), ..state.tokens[print] },
                    ),
                    ..state
                })
            } else {
                result == Err::<StoreView, StoreErrorView>(StoreErrorView::NotFound)
            }
        }),
{
}

/// Noting the use of a token changes the time of its last use and nothing else; it is never
/// refused.
pub proof fn law_token_use_is_noted(state: StoreView, node_id: u64, print: Seq<u8>, at: i64)
    ensures
        ({
            let result = outcome(
                state,
                node_id,
                CommandView::TouchToken { fingerprint: print, at },
            );
            &&& result is Ok
            &&& state.tokens.contains_key(print) ==> result->Ok_0 == (StoreView {
                tokens: state.tokens.insert(
                    print,
                    TokenView { last_used_at: Some(at), ..state.tokens[print] },
                ),
                ..state
            })
            &&& !state.tokens.contains_key(print) ==> result->Ok_0 == state
        }),
{
}

/// A token name is taken once.
pub proof fn law_token_names_are_unique(state: StoreView, node_id: u64, token: TokenView)
    ensures
        outcome(state, node_id, CommandView::AddToken { token }) is Ok
            <==> !state.tokens_by_name.contains_key(token.name),
        outcome(state, node_id, CommandView::AddToken { token }) matches Err(error) ==> error
            == StoreErrorView::Conflict("token '"@ + token.name + "' already exists"@),
{
}

/// A role name is taken once.
pub proof fn law_role_names_are_unique(state: StoreView, node_id: u64, role: RoleView)
    ensures
        outcome(state, node_id, CommandView::CreateRole { role }) is Ok
            <==> !state.roles.contains_key(role.name),
        outcome(state, node_id, CommandView::CreateRole { role }) matches Err(error) ==> error
            == StoreErrorView::Conflict("role '"@ + role.name + "' already exists"@),
{
}

} // verus!
