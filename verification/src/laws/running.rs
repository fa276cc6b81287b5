//! What the workers, the caches, the records and the answers of a node are for.

use std::time::Duration;
use time::OffsetDateTime;
use vstd::prelude::*;
use crate::api_error::{of_store, reply_of, ApiErrorView};
use crate::audit::{action_of as action_recorded, entry_of, outcome_of, subject_of, Operation};
use crate::cache::{fresh, pruned, stored_into, CachedView, Entries};
use crate::clock::{date_of, date_text, rfc3339_of, rfc3339_opt_of, unix_of};
use crate::crypto::{
    envelope_opened, local_unwrap_error, locally_unwrapped, opened, wrap_of, EnvelopeView,
    LocalKeyWrapper,
};
use crate::error::Error;
use crate::kms::backoff_of;
use crate::laws::access::law_listing_is_complete;
use crate::rewrap::positive_time;
use crate::rotation::{active_at, saturated, whole_secs};
use crate::store::apply::command_fits;
use crate::store::engine::{listed, live_of};
use crate::store::laws::keyed_by_name;
use crate::store::model::{store_error_message, CommandView, SecretRecord, StoreErrorView};
use crate::store::tables::StoreView;
use crate::sweep::{after_load, first_pass, PassView};
use crate::types::{format_name, format_named, kind_name, kind_named, SecretFormat, SecretKind};
use crate::workers::{action_of, after_event, first_tick, ActionView, EventView};

verus! {

/// A node that does not lead does nothing at a tick, whatever comes; a tick whose expiry fails
/// fails and rotates nothing.
pub proof fn law_idle_and_failed_ticks(event: EventView, now: i64)
    ensures
        action_of(first_tick(false), now) == ActionView::Finish,
        after_event(first_tick(false), event) == first_tick(false),
        action_of(after_event(first_tick(true), EventView::Applied { ok: false }), now)
            == ActionView::Fail,
        after_event(
            after_event(first_tick(true), EventView::Applied { ok: false }),
            event,
        ) == after_event(first_tick(true), EventView::Applied { ok: false }),
        !(event is Applied) ==> after_event(first_tick(true), event) == first_tick(true),
{
}

/// Caching a key leaves the other entries as they are. It drops one only from a full cache: then
/// those whose time is up go first, and only if none was up the one that is oldest.
pub proof fn law_cache_drops_as_little_as_it_can(
    before: Entries,
    after: Entries,
    key: Seq<u8>,
    entry: CachedView,
    ttl: int,
    other: Seq<u8>,
)
    requires
        before.dom().finite(),
        before.dom().len() <= 16384,
        stored_into(before, after, key, entry, ttl),
    ensures
        after.contains_key(key) && after[key] == entry,
        other != key && after.contains_key(other) ==> before.contains_key(other) && after[other]
            == before[other],
        before.dom().len() < 16384 ==> after == before.insert(key, entry),
        after.dom().finite(),
        after.dom().len() <= 16384,
        other != key && before.contains_key(other) && !after.contains_key(other)
            && entry.stored - before[other].stored < ttl && entry.stored >= before[other].stored
            ==> forall|kept: Seq<u8>| #[trigger]
            before.contains_key(kept) && entry.stored - before[kept].stored < ttl
                ==> before[other].stored <= before[kept].stored,
{
    let kept = pruned(before, entry.stored as int, ttl);
    assert(kept.dom().subset_of(before.dom()));
    vstd::set_lib::lemma_len_subset(kept.dom(), before.dom());
    assert(kept.dom().finite());
    if kept.dom().len() >= 16384 {
        let victim = choose|victim: Seq<u8>| #[trigger]
            crate::cache::oldest(kept, victim) && after == kept.remove(victim).insert(key, entry);
        assert(after.dom() =~= kept.dom().remove(victim).insert(key));
        if other != key && before.contains_key(other) && !after.contains_key(other) && entry.stored
            - before[other].stored < ttl && entry.stored >= before[other].stored {
            assert(fresh(before[other], entry.stored as int, ttl));
            assert(kept.contains_key(other));
            assert(other == victim);
            assert forall|k: Seq<u8>| #[trigger]
                before.contains_key(k) && entry.stored - before[k].stored
                    < ttl implies before[other].stored <= before[k].stored by {
                assert(kept.contains_key(k));
            }
        }
    } else {
        assert(after.dom() =~= kept.dom().insert(key));
    }
}

/// A cached key is usable for the given time from when it was stored, and a clock that runs behind
/// does not make it unusable.
pub proof fn law_cached_key_is_usable(entry: CachedView, now: int, ttl: int)
    requires
        ttl > 0,
    ensures
        fresh(entry, now, ttl) <==> now < entry.stored + ttl,
{
}

/// Different operations are recorded under different actions, with what they were about, who did
/// them from where, and when.
pub proof fn law_records_tell_operations_apart(
    operation: Operation,
    actor: Option<Seq<char>>,
    client_ip: Option<Seq<char>>,
    now: i64,
)
    ensures
        ({
            let entry = entry_of(operation, actor, client_ip, now);
            &&& entry.at == now
            &&& entry.actor == actor
            &&& entry.client_ip == client_ip
            &&& entry.action == action_recorded(operation)
            &&& entry.secret_name == subject_of(operation)
            &&& entry.outcome == outcome_of(operation)
            &&& operation matches Operation::Get { name, found } ==> entry.secret_name == Some(
                name@,
            ) && (entry.outcome == "ok"@ <==> found)
            &&& operation matches Operation::Verify { name, valid } ==> entry.secret_name == Some(
                name@,
            ) && (entry.outcome == "valid"@ <==> valid)
            &&& operation matches Operation::Create { name } ==> entry.secret_name == Some(name@)
                && entry.action == "create"@ && entry.outcome == "ok"@
            &&& operation matches Operation::Update { name } ==> entry.secret_name == Some(name@)
                && entry.action == "update"@ && entry.outcome == "ok"@
            &&& operation matches Operation::Delete { name } ==> entry.secret_name == Some(name@)
                && entry.action == "delete"@ && entry.outcome == "ok"@
            &&& operation matches Operation::Rotate { name } ==> entry.secret_name == Some(name@)
                && entry.action == "rotate"@ && entry.outcome == "ok"@
            &&& operation is Get <==> entry.action == "get"@
            &&& operation is Verify <==> entry.action == "verify"@
            &&& operation is Create <==> entry.action == "create"@
            &&& operation is Update <==> entry.action == "update"@
            &&& operation is Delete <==> entry.action == "delete"@
            &&& operation is Rotate <==> entry.action == "rotate"@
        }),
{
    reveal_strlit("ok");
    reveal_strlit("not_found");
    reveal_strlit("valid");
    reveal_strlit("invalid");
    reveal_strlit("create");
    reveal_strlit("get");
    reveal_strlit("list");
    reveal_strlit("update");
    reveal_strlit("delete");
    reveal_strlit("rotate");
    reveal_strlit("verify");
    reveal_strlit("backup");
    reveal_strlit("restore");
    reveal_strlit("create_role");
    reveal_strlit("list_roles");
    reveal_strlit("get_role");
    reveal_strlit("set_permissions");
    reveal_strlit("delete_role");
    reveal_strlit("create_token");
    reveal_strlit("list_tokens");
    reveal_strlit("revoke_token");
    assert("create"@[0] == 'c' && "update"@[0] == 'u' && "delete"@[0] == 'd' && "rotate"@[0] == 'r'
        && "verify"@[0] == 'v' && "backup"@[0] == 'b');
    assert("get"@.len() == 3 && "list"@.len() == 4 && "restore"@.len() == 7);
    assert("create_role"@.len() == 11 && "list_roles"@.len() == 10 && "get_role"@.len() == 8
        && "set_permissions"@.len() == 15 && "delete_role"@.len() == 11 && "create_token"@.len()
        == 12 && "list_tokens"@.len() == 11 && "revoke_token"@.len() == 12);
    assert("create"@.len() == 6 && "update"@.len() == 6 && "delete"@.len() == 6 && "rotate"@.len()
        == 6 && "verify"@.len() == 6 && "backup"@.len() == 6);
    assert("ok"@.len() == 2 && "not_found"@.len() == 9 && "valid"@.len() == 5 && "invalid"@.len()
        == 7);
}

/// What a record is about is what the operation names, and nothing where it names nothing.
pub proof fn law_record_names_its_subject(operation: Operation)
    ensures
        operation matches Operation::CreateRole { name } ==> subject_of(operation) == Some(name@),
        operation matches Operation::GetRole { name } ==> subject_of(operation) == Some(name@),
        operation matches Operation::SetPermissions { name } ==> subject_of(operation) == Some(
            name@,
        ),
        operation matches Operation::DeleteRole { name } ==> subject_of(operation) == Some(name@),
        operation matches Operation::CreateToken { name } ==> subject_of(operation) == Some(name@),
        operation matches Operation::RevokeToken { name } ==> subject_of(operation) == Some(name@),
        operation is List || operation is Backup || operation is Restore || operation is ListRoles
            || operation is ListTokens ==> subject_of(operation) is None,
        !(operation is Get) && !(operation is Verify) ==> outcome_of(operation) == "ok"@,
{
}

/// What went wrong inside is never told to clients; what they did wrong is told in full, under a
/// status that is the client's fault, and no two kinds of error share a status.
pub proof fn law_replies(a: ApiErrorView, x: Seq<char>, y: Seq<char>)
    ensures
        reply_of(ApiErrorView::Internal(x)) == reply_of(ApiErrorView::Internal(y)),
        reply_of(ApiErrorView::BadRequest(x)).1 == x,
        reply_of(ApiErrorView::Conflict(x)).1 == x,
        a is Internal <==> reply_of(a).0 >= 500,
        400 <= reply_of(a).0 < 600,
        a is NotFound <==> reply_of(a).0 == 404,
        a is Unauthorized <==> reply_of(a).0 == 401,
        a is Forbidden <==> reply_of(a).0 == 403,
        a is TooManyRequests <==> reply_of(a).0 == 429,
        a is Conflict <==> reply_of(a).0 == 409,
        a is BadRequest <==> reply_of(a).0 == 400,
{
}

/// An error of the store is told as what it is: what is not there is not found, what collides is a
/// conflict, and what went wrong inside stays inside.
pub proof fn law_store_errors_are_told(error: StoreErrorView)
    ensures
        error is NotFound <==> of_store(error) is NotFound,
        error is Conflict || error is VersionConflict <==> of_store(error) is Conflict,
        error is Internal <==> of_store(error) is Internal,
        error matches StoreErrorView::Conflict(message) ==> of_store(error)
            == ApiErrorView::Conflict(message) && store_error_message(error) == message,
        error matches StoreErrorView::Internal(message) ==> of_store(error)
            == ApiErrorView::Internal(message) && store_error_message(error) == message,
{
}

/// Times add up as far as they can be told.
pub proof fn law_times_add_up(a: i64, b: i64)
    ensures
        i64::MIN <= a + b <= i64::MAX ==> saturated(a as int, b as int) == a + b,
        i64::MIN <= saturated(a as int, b as int) <= i64::MAX,
        b >= 0 ==> saturated(a as int, b as int) >= a,
        a + b > i64::MAX ==> saturated(a as int, b as int) == i64::MAX,
        a + b < i64::MIN ==> saturated(a as int, b as int) == i64::MIN,
{
}

/// A version without an end is always valid; one with an end is valid before it, and from it on no
/// more.
pub proof fn law_validity_ends(now: int, end: i64)
    ensures
        active_at(now, None),
        active_at(now, Some(end)) <==> now < end,
{
}

/// The wait before another try doubles with each, from a tenth of a second to six and four tenths.
pub proof fn law_backoff_doubles(attempt: u32)
    ensures
        backoff_of(0) == 100,
        attempt < 6 ==> backoff_of((attempt + 1) as u32) == 2 * backoff_of(attempt),
        attempt >= 6 ==> backoff_of(attempt) == 6400,
{
    vstd::arithmetic::power2::lemma2_to64();
    if attempt < 6 {
        vstd::arithmetic::power2::lemma_pow2_unfold((attempt + 1) as nat);
    }
}

/// A wrapped key starts with its nonce; a key that unwraps has the right length, and what is too
/// short to hold a nonce does not unwrap.
pub proof fn law_unwrapped_keys(master: Seq<u8>, wrapped: Seq<u8>, nonce: Seq<u8>, dek: Seq<u8>)
    ensures
        locally_unwrapped(master, wrapped) matches Some(key) ==> key.len() == 32 && wrapped.len()
            >= 24 && opened(
            master,
            wrapped.take(24),
            vstd::utf8::encode_utf8(crate::crypto::WRAP_AAD@),
            wrapped.skip(24),
        ) == Some(key),
        wrapped.len() < 24 ==> locally_unwrapped(master, wrapped) is None && local_unwrap_error(
            master,
            wrapped,
        ) == Error::KeyUnwrap,
        nonce.len() == 24 ==> wrap_of(master, nonce, dek).take(24) == nonce,
{
    if nonce.len() == 24 {
        assert(wrap_of(master, nonce, dek).take(24) =~= nonce);
    }
}

/// An envelope opens under the data key that its wrapping stands for, with the associated data that
/// is presented, and not at all where the wrapping stands for none.
pub proof fn law_envelope_opens_under_its_key(
    wrapper: &LocalKeyWrapper,
    env: EnvelopeView,
    aad: Seq<u8>,
)
    ensures
        ({
            let key = locally_unwrapped(wrapper.master(), env.wrapped_dek);
            &&& key is None ==> envelope_opened(wrapper, env, aad) is None
            &&& key is Some ==> envelope_opened(wrapper, env, aad) == opened(
                key->0,
                env.nonce,
                aad,
                env.ciphertext,
            )
        }),
{
}

/// A time is told as the text of its date where it has one, and as blank text otherwise; a time
/// that is not there is not told.
pub proof fn law_times_are_told(secs: i64, at: OffsetDateTime, text: Seq<char>)
    ensures
        date_of(secs) == Some(at) && date_text(at) == Some(text) ==> rfc3339_of(secs) == text,
        date_of(secs) is None ==> rfc3339_of(secs).len() == 0,
        date_of(secs) == Some(at) && date_text(at) is None ==> rfc3339_of(secs).len() == 0,
        rfc3339_opt_of(Some(secs)) == Some(rfc3339_of(secs)),
        rfc3339_opt_of(None) is None,
        secs > 0 ==> positive_time(secs) == Some(rfc3339_of(secs)),
        secs <= 0 ==> positive_time(secs) is None,
{
}

/// A time before the epoch counts as the epoch.
pub proof fn law_time_since_the_epoch(elapsed: Duration)
    ensures
        whole_secs(elapsed) <= i64::MAX ==> unix_of(Some(elapsed)) == whole_secs(elapsed),
        unix_of(None) == 0,
{
}

/// A pass starts with every stored secret, each once, and nothing done; taking a secret counts its
/// valid versions.
pub proof fn law_pass_starts_with_every_secret(
    state: StoreView,
    target: i64,
    now: i64,
    name: Seq<char>,
)
    requires
        state.secrets.dom().finite(),
        keyed_by_name(state),
    ensures
        ({
            let pass = first_pass(state, target, now);
            &&& pass.left.len() == state.secrets.dom().len()
            &&& state.secrets.contains_key(name) ==> pass.left.contains(name)
            &&& pass.target == target
            &&& pass.now == now
            &&& pass.work.len() == 0
            &&& pass.summary.scanned == 0
            &&& pass.summary.rewrapped == 0
            &&& pass.summary.failed == 0
        }),
{
    law_listing_is_complete::<String, SecretRecord>(state.secrets);
    let list = listed::<String, SecretRecord>(state.secrets);
    let pass = first_pass(state, target, now);
    if state.secrets.contains_key(name) {
        let i = list.index_of(state.secrets[name]);
        assert(pass.left[i] == name);
    }
}

/// Taking a secret into a pass adds its valid versions to those looked at and leaves the other
/// counts.
pub proof fn law_taken_secret_is_counted(pass: PassView, state: StoreView)
    requires
        pass.work.len() == 0,
        pass.left.len() > 0,
        pass.summary.scanned + live_of(state, pass.left[0], pass.now as int).len() <= usize::MAX,
    ensures
        ({
            let after = after_load(pass, state);
            &&& after.summary.scanned == pass.summary.scanned + live_of(
                state,
                pass.left[0],
                pass.now as int,
            ).len()
            &&& after.summary.rewrapped == pass.summary.rewrapped
            &&& after.summary.failed == pass.summary.failed
            &&& after.target == pass.target
            &&& after.now == pass.now
        }),
{
}

/// Names of kinds and formats are read back as what they name, and nothing else is.
pub proof fn law_names_of_kinds_and_formats(text: Seq<char>)
    ensures
        kind_named(text) is Some <==> text == "manual"@ || text == "automatic"@,
        kind_named(text) matches Some(kind) ==> kind_name(kind) == text,
        format_named(text) is Some <==> text == "opaque"@ || text == "userpass"@,
        format_named(text) matches Some(format) ==> format_name(format) == text,
        kind_name(SecretKind::Manual) == "manual"@,
        kind_name(SecretKind::Automatic) == "automatic"@,
        format_name(SecretFormat::Opaque) == "opaque"@,
        format_name(SecretFormat::Userpass) == "userpass"@,
{
}

/// A change of ordinary size always fits: only a log that cannot grow, a count that cannot, or a
/// time that cannot be told stands in its way.
pub proof fn law_ordinary_commands_fit(state: StoreView, command: CommandView)
    requires
        !(command is AppendAudit),
        command matches CommandView::RecordAuthFailure { ip, now, lockout_secs, .. } ==> {
            &&& i64::MIN <= now + lockout_secs <= i64::MAX
            &&& state.lockouts.contains_key(ip) ==> state.lockouts[ip].failures < u32::MAX
                && i64::MIN <= now - state.lockouts[ip].window_start <= i64::MAX
        },
    ensures
        command_fits(state, command),
{
}

} // verus!
