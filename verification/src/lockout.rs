//! Locking out clients after too many failed attempts.

use vstd::prelude::*;
use crate::api_error::{ApiError, ApiErrorView, ApiResult};
use crate::store::apply::{outcome, row_of};
use crate::store::model::{Command, CommandView};
use crate::store::tables::{StoreView, Tables};
use crate::validate::checked;

verus! {

/// How many failures within which time lock a client out, and for how long. No failures at all
/// means that nobody is locked out.
#[derive(Debug, Clone, Copy)]
pub struct LockoutPolicy {
    pub max_failures: u32,
    pub lockout_secs: i64,
    pub window_secs: i64,
}

/// Whether a client is locked out at `now`.
pub open spec fn locked_out(state: StoreView, policy: LockoutPolicy, ip: Seq<char>, now: i64) -> bool {
    policy.max_failures > 0 && match row_of(state.lockouts, ip) {
        Some(record) => record.locked_until is Some && record.locked_until->0 > now,
        None => false,
    }
}

/// Refuses a client that is locked out.
pub fn check_ip(tables: &Tables, policy: &LockoutPolicy, ip: &String, now: i64) -> (r: ApiResult<()>)
    ensures
        checked(
            r,
            if locked_out(tables@, *policy, ip@, now) {
                Some(ApiErrorView::TooManyRequests)
            } else {
                None
            },
        ),
{
    if policy.max_failures == 0 {
        return Ok(());
    }
    if let Some(record) = tables.lockouts.get(ip) {
        if let Some(until) = record.locked_until {
            if until > now {
                return Err(ApiError::TooManyRequests);
            }
        }
    }
    Ok(())
}

/// Refuses a client that is locked out; a client without an address never is.
pub fn check(tables: &Tables, policy: &LockoutPolicy, ip: &Option<String>, now: i64) -> (r:
    ApiResult<()>)
    ensures
        checked(
            r,
            if ip is Some && locked_out(tables@, *policy, ip->0@, now) {
                Some(ApiErrorView::TooManyRequests)
            } else {
                None
            },
        ),
{
    match ip {
        Some(ip) => check_ip(tables, policy, ip, now),
        None => Ok(()),
    }
}

/// The command that counts a failure, if failures are counted and the client has an address.
pub open spec fn failure_command(
    policy: LockoutPolicy,
    ip: Option<Seq<char>>,
    now: i64,
) -> Option<CommandView> {
    if policy.max_failures == 0 || ip is None {
        None
    } else {
        Some(
            CommandView::RecordAuthFailure {
                ip: ip->0,
                now,
                max: policy.max_failures,
                window_secs: policy.window_secs,
                lockout_secs: policy.lockout_secs,
            },
        )
    }
}

/// The view of an optional command.
pub open spec fn command_view(command: Option<Command>) -> Option<CommandView> {
    match command {
        Some(c) => Some(c@),
        None => None,
    }
}

/// The command that counts a failed attempt.
pub fn record(policy: &LockoutPolicy, ip: &Option<String>, now: i64) -> (r: Option<Command>)
    ensures
        command_view(r) == failure_command(*policy, ip.deep_view(), now),
{
    if policy.max_failures == 0 {
        return None;
    }
    match ip {
        Some(ip) => Some(
            Command::RecordAuthFailure {
                ip: ip.clone(),
                now,
                max: policy.max_failures,
                window_secs: policy.window_secs,
                lockout_secs: policy.lockout_secs,
            },
        ),
        None => None,
    }
}

/// The state after failed attempts of a client at the given times.
pub open spec fn after_attempts(
    state: StoreView,
    node_id: u64,
    policy: LockoutPolicy,
    ip: Seq<char>,
    times: Seq<i64>,
) -> StoreView
    decreases times.len(),
{
    if times.len() == 0 {
        state
    } else {
        let before = after_attempts(state, node_id, policy, ip, times.drop_last());
        match failure_command(policy, Some(ip), times.last()) {
            Some(command) => outcome(before, node_id, command)->Ok_0,
            None => before,
        }
    }
}

/// Whether times fall into one window that starts with the first of them, an earlier window of the
/// client being over by then.
pub open spec fn one_window(
    state: StoreView,
    policy: LockoutPolicy,
    ip: Seq<char>,
    times: Seq<i64>,
) -> bool {
    &&& times.len() > 0
    &&& row_of(state.lockouts, ip) matches Some(record) ==> times[0] - record.window_start
        >= policy.window_secs
    &&& forall|i: int|
        0 <= i < times.len() ==> times[0] <= #[trigger] times[i] < times[0] + policy.window_secs
}

proof fn lemma_record_after_attempts(
    state: StoreView,
    node_id: u64,
    policy: LockoutPolicy,
    ip: Seq<char>,
    times: Seq<i64>,
)
    requires
        policy.max_failures > 0,
        times.len() <= u32::MAX,
        one_window(state, policy, ip, times),
    ensures
        ({
            let after = after_attempts(state, node_id, policy, ip, times);
            let record = after.lockouts[ip];
            &&& after == (StoreView { lockouts: state.lockouts.insert(ip, record), ..state })
            &&& record.failures == times.len()
            &&& record.window_start == times[0]
            &&& record.locked_until == if times.len() >= policy.max_failures {
                Some((times.last() + policy.lockout_secs) as i64)
            } else {
                match row_of(state.lockouts, ip) {
                    Some(prior) => prior.locked_until,
                    None => None,
                }
            }
        }),
    decreases times.len(),
{
    let front = times.drop_last();
    let before = after_attempts(state, node_id, policy, ip, front);
    let after = after_attempts(state, node_id, policy, ip, times);
    if front.len() > 0 {
        assert forall|i: int| 0 <= i < front.len() implies front[0] <= #[trigger] front[i]
            < front[0] + policy.window_secs by {
            assert(times[i] == front[i]);
        }
        lemma_record_after_attempts(state, node_id, policy, ip, front);
        assert(times[times.len() - 1] == times.last());
    }
    assert(after.lockouts =~= state.lockouts.insert(ip, after.lockouts[ip]));
}

proof fn lemma_not_counted(
    state: StoreView,
    node_id: u64,
    policy: LockoutPolicy,
    ip: Seq<char>,
    times: Seq<i64>,
)
    requires
        policy.max_failures == 0,
    ensures
        after_attempts(state, node_id, policy, ip, times) == state,
    decreases times.len(),
{
    if times.len() > 0 {
        lemma_not_counted(state, node_id, policy, ip, times.drop_last());
    }
}

/// Failed attempts within one window add up. From the `max_failures`th of them on the client is
/// locked out, for `lockout_secs` from the latest; before it, the attempts lock nobody out. Other
/// clients are not concerned. Where no number of failures is set, nobody is ever locked out.
pub proof fn law_locked_out_after_max(
    state: StoreView,
    node_id: u64,
    policy: LockoutPolicy,
    ip: Seq<char>,
    times: Seq<i64>,
    now: i64,
)
    requires
        times.len() > 0 ==> one_window(state, policy, ip, times),
        policy.max_failures > 0 ==> times.len() <= u32::MAX,
        0 < policy.max_failures <= times.len() ==> i64::MIN <= times.last() + policy.lockout_secs
            <= i64::MAX,
    ensures
        ({
            let after = after_attempts(state, node_id, policy, ip, times);
            &&& locked_out(after, policy, ip, now) == if 0 < policy.max_failures <= times.len() {
                now < times.last() + policy.lockout_secs
            } else {
                locked_out(state, policy, ip, now)
            }
            &&& forall|other: Seq<char>|
                other != ip ==> #[trigger] locked_out(after, policy, other, now) == locked_out(
                    state,
                    policy,
                    other,
                    now,
                )
            &&& policy.max_failures == 0 ==> after == state && !locked_out(after, policy, ip, now)
        }),
{
    if policy.max_failures == 0 {
        lemma_not_counted(state, node_id, policy, ip, times);
    } else if times.len() > 0 {
        lemma_record_after_attempts(state, node_id, policy, ip, times);
    }
}

/// A client without a record is not locked out.
pub proof fn law_no_record_no_lockout(state: StoreView, policy: LockoutPolicy, ip: Seq<char>, now: i64)
    requires
        !state.lockouts.contains_key(ip),
    ensures
        !locked_out(state, policy, ip, now),
{
}

} // verus!
