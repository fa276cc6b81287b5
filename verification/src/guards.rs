//! Who may do what: clients with a token administer, clients with an allowed address read.

use vstd::prelude::*;
use crate::api_error::{ApiError, ApiErrorView, ApiResult};
use crate::auth::{fingerprint, fingerprint_of};
use crate::ip_allowlist::{admits, IpAllowlist, Ipv4};
use crate::lockout::{
    check, check_ip, command_view, failure_command, locked_out, record, LockoutPolicy,
};
use crate::rbac;
use crate::rbac::authorized;
use crate::store::apply::row_of;
use crate::store::model::{clone_pairs, Command, CommandView, TokenView};
use crate::store::tables::{StoreView, Tables};
use crate::text::{
    chars_of, clone_bytes, has_prefix, split, split_by, starts_with, string_of, trim, trimmed,
    views,
};

verus! {

/// The token in an `Authorization` header: what follows `Bearer ` or `bearer `, white space around
/// it removed.
pub open spec fn bearer_of(header: Seq<char>) -> Option<Seq<char>> {
    if has_prefix(header, "Bearer "@) || has_prefix(header, "bearer "@) {
        let token = trimmed(header.skip(7));
        if token.len() == 0 {
            None
        } else {
            Some(token)
        }
    } else {
        None
    }
}

pub fn bearer_token(header: &str) -> (r: Option<String>)
    ensures
        r.deep_view() == bearer_of(header@),
{
    proof {
        reveal_strlit("Bearer ");
        reveal_strlit("bearer ");
    }
    if !starts_with(header, "Bearer ") && !starts_with(header, "bearer ") {
        return None;
    }
    let chars = chars_of(header);
    let rest = string_of(&chars, 7, chars.len());
    assert(rest@ =~= header@.skip(7));
    let token = trim(rest.as_str());
    if token.as_str().is_empty() {
        None
    } else {
        Some(token)
    }
}

/// A client's address: as it is written, and as a number where it is an IPv4 address.
#[derive(Debug)]
pub struct ClientIp {
    pub text: String,
    pub v4: Option<Ipv4>,
}

/// The first address in an `X-Forwarded-For` header.
pub fn forwarded_for(header: &str) -> (r: String)
    ensures
        r@ == trimmed(split_by(header@, ',')[0]),
{
    let pieces = split(header, ',');
    proof {
        crate::text::lemma_split_by_nonempty(header@, ',');
        assert(views(pieces@)[0] == split_by(header@, ',')[0]);
    }
    trim(pieces[0].as_str())
}

/// The address of a client: behind a trusted proxy the one that the proxy names, if it names one,
/// otherwise that of the connection.
pub fn client_ip(
    trust_proxy: bool,
    forwarded: Option<ClientIp>,
    peer: Option<ClientIp>,
) -> (r: Option<ClientIp>)
    ensures
        r == (if trust_proxy && forwarded is Some {
            forwarded
        } else {
            peer
        }),
{
    if trust_proxy && forwarded.is_some() {
        forwarded
    } else {
        peer
    }
}

pub open spec fn ip_text(ip: Option<ClientIp>) -> Option<Seq<char>> {
    match ip {
        Some(ip) => Some(ip.text@),
        None => None,
    }
}

fn text_of_ip(ip: &Option<ClientIp>) -> (r: Option<String>)
    ensures
        r.deep_view() == ip_text(*ip),
{
    match ip {
        Some(ip) => Some(ip.text.clone()),
        None => None,
    }
}

/// Somebody who presented a valid token, with what its role allows.
pub struct AdminActor {
    pub name: String,
    pub is_admin: bool,
    pub rules: Vec<(String, String)>,
    pub client_ip: Option<ClientIp>,
}

/// What a token's role allows: a token without a role, or with one that no longer exists, allows
/// nothing.
pub open spec fn rights_of(state: StoreView, token: TokenView) -> (bool, rbac::Rules) {
    match token.role {
        Some(role) => match row_of(state.roles, role) {
            Some(record) => (record.is_admin, record.permissions),
            None => (false, Seq::empty()),
        },
        None => (false, Seq::empty()),
    }
}

/// The token record that a presented token stands for: known and not revoked.
pub open spec fn valid_token(state: StoreView, token: Option<Seq<char>>) -> Option<TokenView> {
    match token {
        Some(text) => match row_of(state.tokens, fingerprint_of(text)) {
            Some(record) => if record.revoked_at is None {
                Some(record)
            } else {
                None
            },
            None => None,
        },
        None => None,
    }
}

/// Lets in who presents a valid token and is not locked out. Besides the answer there may be a
/// command to apply: it counts a failure, or notes the use of the token.
pub fn authenticate(
    tables: &Tables,
    policy: &LockoutPolicy,
    ip: Option<ClientIp>,
    token: Option<String>,
    now: i64,
) -> (r: (ApiResult<AdminActor>, Option<Command>))
    ensures
        if ip is Some && locked_out(tables@, *policy, ip->0.text@, now) {
            (r.0 matches Err(e) && e@ == ApiErrorView::TooManyRequests) && r.1 is None
        } else {
            match valid_token(tables@, token.deep_view()) {
                None => (r.0 matches Err(e) && e@ == ApiErrorView::Unauthorized) && command_view(
                    r.1,
                ) == failure_command(*policy, ip_text(ip), now),
                Some(record) => {
                    &&& r.0 matches Ok(actor) && actor.name@ == record.name && (
                    actor.is_admin, actor.rules.deep_view()) == rights_of(tables@, record)
                        && actor.client_ip == ip
                    &&& command_view(r.1) == Some(
                        CommandView::TouchToken {
                            fingerprint: fingerprint_of(token->0@),
                            at: now,
                        },
                    )
                },
            }
        },
{
    let text = text_of_ip(&ip);
    match check(tables, policy, &text, now) {
        Ok(_) => {},
        Err(error) => return (Err(error), None),
    }
    let token = match token {
        Some(token) => token,
        None => return (Err(ApiError::Unauthorized), record(policy, &text, now)),
    };
    let print_bytes = fingerprint(token.as_str());
    let print = clone_bytes(&print_bytes);
    let known = match tables.tokens.get(&print) {
        Some(known) => known,
        None => return (Err(ApiError::Unauthorized), record(policy, &text, now)),
    };
    if known.revoked_at.is_some() {
        return (Err(ApiError::Unauthorized), record(policy, &text, now));
    }
    let mut is_admin = false;
    let mut rules: Vec<(String, String)> = Vec::new();
    assert(rules.deep_view() =~= Seq::empty());
    if let Some(role) = &known.role {
        if let Some(granted) = tables.roles.get(role) {
            is_admin = granted.is_admin;
            rules = clone_pairs(&granted.permissions);
        }
    }
    let actor = AdminActor { name: known.name.clone(), is_admin, rules, client_ip: ip };
    (Ok(actor), Some(Command::TouchToken { fingerprint: print, at: now }))
}

/// Lets in readers whose address is on the list and who are not locked out; refused addresses
/// count as failures.
pub fn admit_reader(
    tables: &Tables,
    policy: &LockoutPolicy,
    allowlist: &IpAllowlist,
    ip: Option<ClientIp>,
    now: i64,
) -> (r: (ApiResult<Ipv4>, Option<Command>))
    ensures
        match ip {
            None => (r.0 matches Err(e) && e@ == ApiErrorView::Forbidden) && r.1 is None,
            Some(client) => if locked_out(tables@, *policy, client.text@, now) {
                (r.0 matches Err(e) && e@ == ApiErrorView::TooManyRequests) && r.1 is None
            } else if client.v4 is Some && admits(allowlist@, client.v4->0) {
                r.0 == Ok::<Ipv4, ApiError>(client.v4->0) && r.1 is None
            } else {
                (r.0 matches Err(e) && e@ == ApiErrorView::Forbidden) && command_view(r.1)
                    == failure_command(*policy, ip_text(ip), now)
            },
        },
{
    let text = text_of_ip(&ip);
    let client = match ip {
        Some(client) => client,
        None => return (Err(ApiError::Forbidden), None),
    };
    match check_ip(tables, policy, &client.text, now) {
        Ok(_) => {},
        Err(error) => return (Err(error), None),
    }
    if let Some(v4) = client.v4 {
        if allowlist.contains(v4) {
            return (Ok(v4), None);
        }
    }
    (Err(ApiError::Forbidden), record(policy, &text, now))
}

/// Whether an actor was let through, or refused with the failure counted.
pub open spec fn let_through(
    allowed: bool,
    r: (ApiResult<()>, Option<Command>),
    policy: LockoutPolicy,
    ip: Option<Seq<char>>,
    now: i64,
) -> bool {
    if allowed {
        r.0 is Ok && r.1 is None
    } else {
        (r.0 matches Err(e) && e@ == ApiErrorView::Forbidden) && command_view(r.1)
            == failure_command(policy, ip, now)
    }
}

/// Lets an actor do what the rules of its role allow.
pub fn authorize(
    policy: &LockoutPolicy,
    actor: &AdminActor,
    action: &str,
    name: &str,
    now: i64,
) -> (r: (ApiResult<()>, Option<Command>))
    ensures
        let_through(
            authorized(actor.is_admin, actor.rules.deep_view(), action@, name@),
            r,
            *policy,
            ip_text(actor.client_ip),
            now,
        ),
{
    let rules = actor.rules.as_slice();
    assert(rules.deep_view() =~= actor.rules.deep_view());
    if rbac::authorize(actor.is_admin, rules, action, name) {
        (Ok(()), None)
    } else {
        (Err(ApiError::Forbidden), record(policy, &text_of_ip(&actor.client_ip), now))
    }
}

/// Lets admins only.
pub fn require_admin(policy: &LockoutPolicy, actor: &AdminActor, now: i64) -> (r: (
    ApiResult<()>,
    Option<Command>,
))
    ensures
        let_through(actor.is_admin, r, *policy, ip_text(actor.client_ip), now),
{
    if actor.is_admin {
        (Ok(()), None)
    } else {
        (Err(ApiError::Forbidden), record(policy, &text_of_ip(&actor.client_ip), now))
    }
}

} // verus!
