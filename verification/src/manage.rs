//! Administration: roles, tokens and backups.

use vstd::prelude::*;
use vstd::utf8::encode_utf8;
use crate::api_error::{bad_request, ApiError, ApiErrorView, ApiResult};
use crate::auth::{fingerprint, fingerprint_of, generate_token, token_text};
use crate::clock::{rfc3339, rfc3339_of, rfc3339_opt, rfc3339_opt_of};
use crate::dto::{
    rule_pairs, CreateRoleRequest, CreateTokenRequest, PermissionRule, RoleInfo, TokenCreated,
    TokenInfo,
};
use crate::rbac::{is_valid_action, valid_action};
use crate::store::apply::row_of;
use crate::store::backup::{
    unsupported_version, unsupported_version_message, BackupData, BACKUP_VERSION,
};
use crate::store::engine::{list_values, listed};
use crate::store::model::{
    Command, CommandView, RoleRecord, RoleView, TokenRecord, TokenView,
};
use crate::store::sorting::list_view;
use crate::store::tables::{StoreView, Tables};
use crate::text::{clone_bytes, clone_text, concat3, str_eq, trim, trimmed};
use crate::validate::checked;

verus! {

/// The built-in role, which cannot be deleted.
pub const BUILTIN_ADMIN_ROLE: &'static str = "admin";

/// Why the name of a role is refused, if it is.
pub open spec fn role_name_refusal(name: Seq<char>) -> Option<ApiErrorView> {
    if trimmed(name).len() == 0 || encode_utf8(name).len() > 255 {
        Some(ApiErrorView::BadRequest("role name must be between 1 and 255 characters"@))
    } else {
        None
    }
}

pub fn validate_role_name(name: &str) -> (r: ApiResult<()>)
    ensures
        checked(r, role_name_refusal(name@)),
{
    let bare = trim(name);
    if bare.as_str().is_empty() || name.as_bytes().len() > 255 {
        return Err(bad_request("role name must be between 1 and 255 characters"));
    }
    Ok(())
}

/// Why a rule is refused, if it is.
pub open spec fn rule_refusal(rule: (Seq<char>, Seq<char>)) -> Option<ApiErrorView> {
    if !valid_action(rule.0) {
        Some(
            ApiErrorView::BadRequest(
                "invalid action '"@ + rule.0 + "' (allowed: create, update, delete, rotate, *)"@,
            ),
        )
    } else if rule.1.len() == 0 {
        Some(ApiErrorView::BadRequest("permission path must not be empty"@))
    } else {
        None
    }
}

/// Why a list of rules is refused, if it is: because of the first rule that is.
pub open spec fn rules_refusal(rules: Seq<(Seq<char>, Seq<char>)>) -> Option<ApiErrorView>
    decreases rules.len(),
{
    if rules.len() == 0 {
        None
    } else if rules_refusal(rules.drop_last()) is Some {
        rules_refusal(rules.drop_last())
    } else {
        rule_refusal(rules.last())
    }
}

proof fn lemma_first_refusal(rules: Seq<(Seq<char>, Seq<char>)>, n: int)
    requires
        0 <= n <= rules.len(),
        rules_refusal(rules.take(n)) is Some,
    ensures
        rules_refusal(rules) == rules_refusal(rules.take(n)),
    decreases rules.len() - n,
{
    if n < rules.len() {
        assert(rules.take(n + 1).drop_last() =~= rules.take(n));
        lemma_first_refusal(rules, n + 1);
    } else {
        assert(rules.take(n) =~= rules);
    }
}

pub fn validate_permissions(permissions: &Vec<PermissionRule>) -> (r: ApiResult<()>)
    ensures
        checked(r, rules_refusal(rule_pairs(permissions@))),
{
    let ghost all = rule_pairs(permissions@);
    let mut i: usize = 0;
    while i < permissions.len()
        invariant
            i <= permissions@.len() == all.len(),
            all == rule_pairs(permissions@),
            rules_refusal(all.take(i as int)) is None,
        decreases permissions@.len() - i,
    {
        let rule = &permissions[i];
        proof {
            assert(all.take(i as int + 1).drop_last() =~= all.take(i as int));
            assert(all.take(i as int + 1).last() == (rule.action@, rule.path@));
            if rules_refusal(all.take(i as int + 1)) is Some {
                lemma_first_refusal(all, i as int + 1);
            }
        }
        if !is_valid_action(rule.action.as_str()) {
            return Err(
                ApiError::BadRequest(
                    concat3(
                        "invalid action '",
                        rule.action.as_str(),
                        "' (allowed: create, update, delete, rotate, *)",
                    ),
                ),
            );
        }
        if rule.path.as_str().is_empty() {
            return Err(bad_request("permission path must not be empty"));
        }
        i = i + 1;
    }
    assert(all.take(i as int) =~= all);
    Ok(())
}

fn to_pairs(permissions: &Vec<PermissionRule>) -> (r: Vec<(String, String)>)
    ensures
        r.deep_view() == rule_pairs(permissions@),
{
    let mut out: Vec<(String, String)> = Vec::new();
    let mut i: usize = 0;
    while i < permissions.len()
        invariant
            i <= permissions@.len(),
            out@.len() == i,
            forall|j: int|
                0 <= j < i ==> (#[trigger] out@[j]).0@ == permissions@[j].action@ && out@[j].1@
                    == permissions@[j].path@,
        decreases permissions@.len() - i,
    {
        out.push((permissions[i].action.clone(), permissions[i].path.clone()));
        i = i + 1;
    }
    assert(out.deep_view() =~= rule_pairs(permissions@));
    out
}

fn to_rules(pairs: &Vec<(String, String)>) -> (r: Vec<PermissionRule>)
    ensures
        rule_pairs(r@) == pairs.deep_view(),
{
    let mut out: Vec<PermissionRule> = Vec::new();
    let mut i: usize = 0;
    while i < pairs.len()
        invariant
            i <= pairs@.len(),
            out@.len() == i,
            forall|j: int|
                0 <= j < i ==> (#[trigger] out@[j]).action@ == pairs@[j].0@ && out@[j].path@
                    == pairs@[j].1@,
        decreases pairs@.len() - i,
    {
        out.push(PermissionRule { action: pairs[i].0.clone(), path: pairs[i].1.clone() });
        i = i + 1;
    }
    assert(rule_pairs(out@) =~= pairs.deep_view());
    out
}

/// Why a new role is refused, if it is.
pub open spec fn role_refusal(req: CreateRoleRequest) -> Option<ApiErrorView> {
    if role_name_refusal(req.name@) is Some {
        role_name_refusal(req.name@)
    } else {
        rules_refusal(rule_pairs(req.permissions@))
    }
}

/// Whether an answer tells a role.
pub open spec fn tells_role(answer: RoleInfo, role: RoleView) -> bool {
    &&& answer.name@ == role.name
    &&& answer.description.deep_view() == role.description
    &&& answer.is_admin == role.is_admin
    &&& rule_pairs(answer.permissions@) == role.permissions
    &&& answer.created_at@ == rfc3339_of(role.created_at)
}

pub fn to_role_info(role: &RoleRecord) -> (r: RoleInfo)
    ensures
        tells_role(r, role@),
{
    RoleInfo {
        name: role.name.clone(),
        description: clone_text(&role.description),
        is_admin: role.is_admin,
        permissions: to_rules(&role.permissions),
        created_at: rfc3339(role.created_at),
    }
}

/// The record of a new role.
pub open spec fn created_role(req: CreateRoleRequest, now: i64) -> RoleView {
    RoleView {
        name: req.name@,
        description: req.description.deep_view(),
        is_admin: req.is_admin,
        permissions: rule_pairs(req.permissions@),
        created_at: now,
    }
}

/// The command that stores a new role, and the answer.
pub fn create_role(req: CreateRoleRequest, now: i64) -> (r: ApiResult<(Command, RoleInfo)>)
    ensures
        match role_refusal(req) {
            Some(error) => r matches Err(e) && e@ == error,
            None => {
                let role = created_role(req, now);
                r matches Ok(done) && done.0@ == (CommandView::CreateRole { role }) && tells_role(
                    done.1,
                    role,
                )
            },
        },
{
    match validate_role_name(req.name.as_str()) {
        Ok(_) => {},
        Err(error) => return Err(error),
    }
    match validate_permissions(&req.permissions) {
        Ok(_) => {},
        Err(error) => return Err(error),
    }
    let role = RoleRecord {
        name: req.name,
        description: req.description,
        is_admin: req.is_admin,
        permissions: to_pairs(&req.permissions),
        created_at: now,
    };
    let answer = to_role_info(&role);
    Ok((Command::CreateRole { role }, answer))
}

/// The stored role.
pub fn get_role(tables: &Tables, name: &String) -> (r: ApiResult<RoleInfo>)
    ensures
        match row_of(tables@.roles, name@) {
            Some(role) => r matches Ok(answer) && tells_role(answer, role),
            None => r matches Err(e) && e@ == ApiErrorView::NotFound,
        },
{
    match tables.roles.get(name) {
        Some(role) => Ok(to_role_info(role)),
        None => Err(ApiError::NotFound),
    }
}

/// All roles, in the order of their names.
pub fn list_roles(tables: &Tables) -> (r: Vec<RoleInfo>)
    ensures
        ({
            let roles = listed::<String, RoleRecord>(tables@.roles);
            &&& r@.len() == roles.len()
            &&& forall|i: int| 0 <= i < r@.len() ==> tells_role(#[trigger] r@[i], roles[i])
        }),
{
    let roles = list_values(&tables.roles);
    let ghost all = list_view(roles@);
    let mut out: Vec<RoleInfo> = Vec::new();
    let mut i: usize = 0;
    while i < roles.len()
        invariant
            i <= roles@.len() == all.len(),
            all == list_view(roles@),
            out@.len() == i,
            forall|j: int| 0 <= j < i ==> tells_role(#[trigger] out@[j], all[j]),
        decreases roles@.len() - i,
    {
        out.push(to_role_info(&roles[i]));
        i = i + 1;
    }
    out
}

/// The command that replaces the rules of a role.
pub fn set_permissions(name: &str, permissions: &Vec<PermissionRule>) -> (r: ApiResult<Command>)
    ensures
        match rules_refusal(rule_pairs(permissions@)) {
            Some(error) => r matches Err(e) && e@ == error,
            None => r matches Ok(command) && command@ == (CommandView::SetPermissions {
                name: name@,
                permissions: rule_pairs(permissions@),
            }),
        },
{
    match validate_permissions(permissions) {
        Ok(_) => {},
        Err(error) => return Err(error),
    }
    Ok(Command::SetPermissions { name: name.to_owned(), permissions: to_pairs(permissions) })
}

/// The command that deletes a role; the built-in role is refused.
pub fn delete_role(name: &str) -> (r: ApiResult<Command>)
    ensures
        if name@ == BUILTIN_ADMIN_ROLE@ {
            r matches Err(e) && e@ == ApiErrorView::BadRequest(
                "the built-in 'admin' role cannot be deleted"@,
            )
        } else {
            r matches Ok(command) && command@ == (CommandView::DeleteRole { name: name@ })
        },
{
    if str_eq(name, BUILTIN_ADMIN_ROLE) {
        return Err(bad_request("the built-in 'admin' role cannot be deleted"));
    }
    Ok(Command::DeleteRole { name: name.to_owned() })
}

/// Why a new token is refused, if it is.
pub open spec fn token_refusal(state: StoreView, req: CreateTokenRequest) -> Option<ApiErrorView> {
    if trimmed(req.name@).len() == 0 {
        Some(ApiErrorView::BadRequest("token name is required"@))
    } else if !state.roles.contains_key(req.role@) {
        Some(ApiErrorView::BadRequest("role '"@ + req.role@ + "' does not exist"@))
    } else {
        None
    }
}

/// The record of a new token: its fingerprint in place of the token itself.
pub open spec fn token_record(
    name: Seq<char>,
    role: Seq<char>,
    token: Seq<char>,
    now: i64,
) -> TokenView {
    TokenView {
        name,
        role: Some(role),
        fingerprint: fingerprint_of(token),
        created_at: now,
        last_used_at: None,
        revoked_at: None,
    }
}

/// Whether a new token was made as asked.
pub open spec fn token_made(
    made: (Command, TokenCreated),
    req: CreateTokenRequest,
    token: Seq<char>,
    now: i64,
) -> bool {
    &&& made.0@ == (CommandView::AddToken {
        token: token_record(req.name@, req.role@, token, now),
    })
    &&& made.1.name@ == req.name@
    &&& made.1.role@ == req.role@
    &&& made.1.token@ == token
}

/// Checks a request for a new token.
pub fn check_token(tables: &Tables, req: &CreateTokenRequest) -> (r: ApiResult<()>)
    ensures
        checked(r, token_refusal(tables@, *req)),
{
    let bare = trim(req.name.as_str());
    if bare.as_str().is_empty() {
        return Err(bad_request("token name is required"));
    }
    if !tables.roles.contains(&req.role) {
        return Err(
            ApiError::BadRequest(concat3("role '", req.role.as_str(), "' does not exist")),
        );
    }
    Ok(())
}

/// The command that stores the given token, and the answer that tells it.
pub fn create_token_with(
    tables: &Tables,
    req: CreateTokenRequest,
    token: String,
    now: i64,
) -> (r: ApiResult<(Command, TokenCreated)>)
    ensures
        match token_refusal(tables@, req) {
            Some(error) => r matches Err(e) && e@ == error,
            None => r matches Ok(made) && token_made(made, req, token@, now),
        },
{
    match check_token(tables, &req) {
        Ok(_) => {},
        Err(error) => return Err(error),
    }
    let print = fingerprint(token.as_str());
    let record = TokenRecord {
        name: req.name.clone(),
        role: Some(req.role.clone()),
        fingerprint: clone_bytes(&print),
        created_at: now,
        last_used_at: None,
        revoked_at: None,
    };
    Ok(
        (
            Command::AddToken { token: record },
            TokenCreated { name: req.name, role: req.role, token },
        ),
    )
}

/// The command that stores a new token, and the answer that tells it.
pub fn create_token(tables: &Tables, req: CreateTokenRequest, now: i64) -> (r: ApiResult<
    (Command, TokenCreated),
>)
    ensures
        match token_refusal(tables@, req) {
            Some(error) => r matches Err(e) && e@ == error,
            None => r matches Ok(made) && token_text(made.1.token@) && token_made(
                made,
                req,
                made.1.token@,
                now,
            ),
        },
{
    match check_token(tables, &req) {
        Ok(_) => {},
        Err(error) => return Err(error),
    }
    let token = generate_token();
    create_token_with(tables, req, token, now)
}

/// Whether an answer tells a token.
pub open spec fn tells_token(answer: TokenInfo, token: TokenView) -> bool {
    &&& answer.name@ == token.name
    &&& answer.role.deep_view() == token.role
    &&& answer.created_at@ == rfc3339_of(token.created_at)
    &&& answer.last_used_at.deep_view() == rfc3339_opt_of(token.last_used_at)
    &&& answer.revoked_at.deep_view() == rfc3339_opt_of(token.revoked_at)
}

pub fn to_token_info(token: &TokenRecord) -> (r: TokenInfo)
    ensures
        tells_token(r, token@),
{
    TokenInfo {
        name: token.name.clone(),
        role: clone_text(&token.role),
        created_at: rfc3339(token.created_at),
        last_used_at: rfc3339_opt(token.last_used_at),
        revoked_at: rfc3339_opt(token.revoked_at),
    }
}

/// All tokens, in the order of their names.
pub fn list_tokens(tables: &Tables) -> (r: Vec<TokenInfo>)
    ensures
        ({
            let tokens = listed::<Vec<u8>, TokenRecord>(tables@.tokens);
            &&& r@.len() == tokens.len()
            &&& forall|i: int| 0 <= i < r@.len() ==> tells_token(#[trigger] r@[i], tokens[i])
        }),
{
    let tokens = list_values(&tables.tokens);
    let ghost all = list_view(tokens@);
    let mut out: Vec<TokenInfo> = Vec::new();
    let mut i: usize = 0;
    while i < tokens.len()
        invariant
            i <= tokens@.len() == all.len(),
            all == list_view(tokens@),
            out@.len() == i,
            forall|j: int| 0 <= j < i ==> tells_token(#[trigger] out@[j], all[j]),
        decreases tokens@.len() - i,
    {
        out.push(to_token_info(&tokens[i]));
        i = i + 1;
    }
    out
}

/// The command that revokes a token.
pub fn revoke_token(name: &str, now: i64) -> (r: Command)
    ensures
        r@ == (CommandView::RevokeToken { name: name@, revoked_at: now }),
{
    Command::RevokeToken { name: name.to_owned(), revoked_at: now }
}

/// Checks a backup before it is restored.
pub fn check_backup(data: &BackupData) -> (r: ApiResult<()>)
    ensures
        checked(
            r,
            if data.version != BACKUP_VERSION {
                Some(ApiErrorView::BadRequest(unsupported_version(data.version)))
            } else {
                None
            },
        ),
{
    if data.version != BACKUP_VERSION {
        return Err(ApiError::BadRequest(unsupported_version_message(data.version)));
    }
    Ok(())
}

} // verus!
