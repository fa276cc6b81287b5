//! Wrapping data keys anew after the key that wraps them was rotated.

use vstd::prelude::*;
use crate::clock::{rfc3339, rfc3339_of};
use crate::dto::{RewrapRunResponse, RewrapStatusResponse};
use crate::service::opened_version;
use crate::store::apply::{outcome, row_of};
use crate::store::engine::{list_values, listed, live_of, read_live_versions};
use crate::store::keys::key_of;
use crate::store::model::{
    Command, CommandView, KmsRewrapState, SecretRecord, SecretView, VersionRecord, VersionView,
};
use crate::store::sorting::list_view;
use crate::store::tables::{StoreView, Tables, KMS_REWRAP_STATE_KEY};

verus! {

/// What a pass did: versions looked at, wrapped anew, and failed.
#[derive(Debug, Clone, Copy)]
pub struct RewrapSummary {
    pub scanned: usize,
    pub rewrapped: usize,
    pub failed: usize,
}

impl Default for RewrapSummary {
    fn default() -> (r: Self)
        ensures
            r == (RewrapSummary { scanned: 0, rewrapped: 0, failed: 0 }),
    {
        RewrapSummary { scanned: 0, rewrapped: 0, failed: 0 }
    }
}

/// Whether a version's data key was wrapped before the rotation `target`, or at an unknown time.
pub open spec fn behind(version: VersionView, target: i64) -> bool {
    match version.wrapped_rotation_at {
        None => true,
        Some(at) => at < target,
    }
}

pub fn needs_rewrap(version: &VersionRecord, target: i64) -> (r: bool)
    ensures
        r == behind(version@, target),
{
    match version.wrapped_rotation_at {
        None => true,
        Some(at) => at < target,
    }
}

/// The versions that are behind, in their order.
pub open spec fn behind_of(versions: Seq<VersionView>, target: i64) -> Seq<VersionView>
    decreases versions.len(),
{
    if versions.len() == 0 {
        versions
    } else {
        let front = behind_of(versions.drop_last(), target);
        if behind(versions.last(), target) {
            front.push(versions.last())
        } else {
            front
        }
    }
}

/// The valid versions of a secret that are behind, and how many valid versions it has.
pub fn secret_work(tables: &Tables, name: &String, target: i64, now: i64) -> (r: (
    Vec<VersionRecord>,
    usize,
))
    ensures
        list_view(r.0@) == behind_of(live_of(tables@, name@, now as int), target),
        r.1 == live_of(tables@, name@, now as int).len(),
{
    let versions = read_live_versions(tables, name, now);
    let ghost all = list_view(versions@);
    let mut work: Vec<VersionRecord> = Vec::new();
    let mut i: usize = 0;
    assert(list_view(work@) =~= behind_of(all.take(0), target));
    while i < versions.len()
        invariant
            i <= versions@.len() == all.len(),
            all == list_view(versions@),
            list_view(work@) == behind_of(all.take(i as int), target),
        decreases versions@.len() - i,
    {
        let ghost before = work@;
        assert(all.take(i as int + 1).drop_last() =~= all.take(i as int));
        if needs_rewrap(&versions[i], target) {
            work.push(versions[i].clone());
            assert(list_view(work@) =~= list_view(before).push(all[i as int]));
        }
        i = i + 1;
    }
    assert(all.take(i as int) =~= all);
    (work, versions.len())
}

/// The command that replaces the wrapped data key of a version.
pub fn rewrap_one(
    name: &str,
    version: &VersionRecord,
    rewrapped: (Vec<u8>, String),
    target: i64,
) -> (r: Command)
    ensures
        r@ == (CommandView::RewrapVersion {
            name: name@,
            version: version.version,
            kms_key_id: rewrapped.1@,
            wrapped_dek: rewrapped.0@,
            wrapped_rotation_at: target,
        }),
{
    Command::RewrapVersion {
        name: name.to_owned(),
        version: version.version,
        kms_key_id: rewrapped.1,
        wrapped_dek: rewrapped.0,
        wrapped_rotation_at: target,
    }
}

impl RewrapSummary {
    /// The summary with the versions of another secret looked at.
    pub fn scan(&mut self, versions: usize)
        requires
            old(self).scanned + versions <= usize::MAX,
        ensures
            *final(self) == (RewrapSummary {
                scanned: (old(self).scanned + versions) as usize,
                ..*old(self)
            }),
    {
        self.scanned = self.scanned + versions;
    }

    /// The summary with another version wrapped anew, or failed.
    pub fn note(&mut self, done: bool)
        requires
            old(self).rewrapped < usize::MAX,
            old(self).failed < usize::MAX,
        ensures
            *final(self) == (if done {
                RewrapSummary { rewrapped: (old(self).rewrapped + 1) as usize, ..*old(self) }
            } else {
                RewrapSummary { failed: (old(self).failed + 1) as usize, ..*old(self) }
            }),
    {
        if done {
            self.rewrapped = self.rewrapped + 1;
        } else {
            self.failed = self.failed + 1;
        }
    }
}

/// The pause between two versions in milliseconds; none where the rate is not limited.
pub fn pace(max_per_sec: u32) -> (r: Option<u64>)
    ensures
        r == (if max_per_sec == 0 {
            None::<u64>
        } else {
            Some((1000int / max_per_sec as int) as u64)
        }),
{
    if max_per_sec > 0 {
        Some(1000 / max_per_sec as u64)
    } else {
        None
    }
}

/// The command that marks the rotation `target` as swept.
pub fn persist_completed(target: i64, now: i64) -> (r: Command)
    ensures
        r@ == (CommandView::SetKmsRewrapState {
            state: KmsRewrapState {
                last_completed_rotation_at: target,
                last_swept_at: now,
                updated_at: now,
            },
        }),
{
    Command::SetKmsRewrapState {
        state: KmsRewrapState {
            last_completed_rotation_at: target,
            last_swept_at: now,
            updated_at: now,
        },
    }
}

/// Whether a forced pass marks its target as swept: only where nothing failed and there was a
/// rotation at all.
pub fn force_completes(summary: &RewrapSummary, target: i64) -> (r: bool)
    ensures
        r == (summary.failed == 0 && target > 0),
{
    summary.failed == 0 && target > 0
}

/// A time as clients see it, unless it is not after the epoch.
pub open spec fn positive_time(at: i64) -> Option<Seq<char>> {
    if at > 0 {
        Some(rfc3339_of(at))
    } else {
        None
    }
}

fn time_if_positive(at: i64) -> (r: Option<String>)
    ensures
        r.deep_view() == positive_time(at),
{
    if at > 0 {
        Some(rfc3339(at))
    } else {
        None
    }
}

/// The answer to a forced pass.
pub fn force(summary: &RewrapSummary, target: i64) -> (r: RewrapRunResponse)
    ensures
        r.scanned == summary.scanned,
        r.rewrapped == summary.rewrapped,
        r.failed == summary.failed,
        r.target_rotation_at.deep_view() == positive_time(target),
{
    RewrapRunResponse {
        scanned: summary.scanned,
        rewrapped: summary.rewrapped,
        failed: summary.failed,
        target_rotation_at: time_if_positive(target),
    }
}

/// What the worker does at a tick.
#[derive(Debug, Clone, Copy, PartialEq, Eq, Structural)]
pub enum TickStep {
    Idle,
    Seed { baseline: i64 },
    Sweep { target: i64 },
}

/// What a tick does: on its first the worker only notes the latest rotation, later it sweeps when
/// a newer rotation has come.
pub open spec fn tick_step(rewrap: Option<KmsRewrapState>, latest: Option<i64>) -> TickStep {
    match rewrap {
        None => TickStep::Seed {
            baseline: match latest {
                Some(at) => at,
                None => 0,
            },
        },
        Some(done) => match latest {
            Some(at) => if at > done.last_completed_rotation_at {
                TickStep::Sweep { target: at }
            } else {
                TickStep::Idle
            },
            None => TickStep::Idle,
        },
    }
}

pub fn tick(tables: &Tables, latest: Option<i64>) -> (r: TickStep)
    ensures
        r == tick_step(row_of(tables@.kms_rewrap, KMS_REWRAP_STATE_KEY@), latest),
{
    match tables.kms_rewrap.get(&KMS_REWRAP_STATE_KEY.to_owned()) {
        None => TickStep::Seed {
            baseline: match latest {
                Some(at) => at,
                None => 0,
            },
        },
        Some(done) => match latest {
            Some(at) => if at > done.last_completed_rotation_at {
                TickStep::Sweep { target: at }
            } else {
                TickStep::Idle
            },
            None => TickStep::Idle,
        },
    }
}

/// Whether a sweep marks its target as swept: only where nothing failed, so that the next tick
/// tries again otherwise.
pub fn sweep_completes(summary: &RewrapSummary) -> (r: bool)
    ensures
        r == (summary.failed == 0),
{
    summary.failed == 0
}

/// How many valid versions the given secrets have.
pub open spec fn total_of(state: StoreView, secrets: Seq<SecretView>, now: int) -> nat
    decreases secrets.len(),
{
    if secrets.len() == 0 {
        0
    } else {
        total_of(state, secrets.drop_last(), now) + live_of(
            state,
            secrets.last().name,
            now,
        ).len()
    }
}

/// How many of them are behind.
pub open spec fn pending_of(state: StoreView, secrets: Seq<SecretView>, target: i64, now: int) -> nat
    decreases secrets.len(),
{
    if secrets.len() == 0 {
        0
    } else {
        pending_of(state, secrets.drop_last(), target, now) + behind_of(
            live_of(state, secrets.last().name, now),
            target,
        ).len()
    }
}

/// How many versions are valid, and how many of them are behind; nothing where there are more
/// than can be counted.
pub fn count_pending(tables: &Tables, target: i64, now: i64) -> (r: Option<(usize, usize)>)
    ensures
        ({
            let secrets = listed::<String, SecretRecord>(tables@.secrets);
            let total = total_of(tables@, secrets, now as int);
            let pending = pending_of(tables@, secrets, target, now as int);
            match r {
                Some(counts) => counts.0 == total && counts.1 == pending,
                None => total > usize::MAX,
            }
        }),
{
    let secrets = list_values(&tables.secrets);
    let ghost all = list_view(secrets@);
    let mut total: usize = 0;
    let mut pending: usize = 0;
    let mut i: usize = 0;
    assert(all.take(0) =~= Seq::empty());
    while i < secrets.len()
        invariant
            i <= secrets@.len() == all.len(),
            all == list_view(secrets@),
            all == listed::<String, SecretRecord>(tables@.secrets),
            total == total_of(tables@, all.take(i as int), now as int),
            pending == pending_of(tables@, all.take(i as int), target, now as int),
            pending <= total,
        decreases secrets@.len() - i,
    {
        proof {
            let next = all.take(i as int + 1);
            assert(next.drop_last() =~= all.take(i as int));
            assert(next.last() == secrets@[i as int]@);
            lemma_behind_shorter(live_of(tables@, all[i as int].name, now as int), target);
            lemma_total_grows(tables@, all, i as int + 1, now as int);
        }
        let (work, live) = secret_work(tables, &secrets[i].name, target, now);
        if live > usize::MAX - total {
            return None;
        }
        total = total + live;
        pending = pending + work.len();
        i = i + 1;
    }
    assert(all.take(i as int) =~= all);
    Some((total, pending))
}

pub proof fn lemma_behind_shorter(versions: Seq<VersionView>, target: i64)
    ensures
        behind_of(versions, target).len() <= versions.len(),
    decreases versions.len(),
{
    if versions.len() > 0 {
        lemma_behind_shorter(versions.drop_last(), target);
    }
}

proof fn lemma_total_grows(state: StoreView, secrets: Seq<SecretView>, n: int, now: int)
    requires
        0 <= n <= secrets.len(),
    ensures
        total_of(state, secrets.take(n), now) <= total_of(state, secrets, now),
    decreases secrets.len() - n,
{
    if n < secrets.len() {
        assert(secrets.take(n + 1).drop_last() =~= secrets.take(n));
        lemma_total_grows(state, secrets, n + 1, now);
    } else {
        assert(secrets.take(n) =~= secrets);
    }
}

/// The rotation that versions are held against: the latest known, or the last that was swept.
pub open spec fn status_target(rewrap: Option<KmsRewrapState>, latest: Option<i64>) -> i64 {
    match latest {
        Some(at) => at,
        None => match rewrap {
            Some(done) => done.last_completed_rotation_at,
            None => 0,
        },
    }
}

/// How far the wrapped data keys are behind; nothing where there are more than can be counted.
pub fn status(
    tables: &Tables,
    latest: Option<i64>,
    enabled: bool,
    busy: bool,
    now: i64,
) -> (r: Option<RewrapStatusResponse>)
    ensures
        ({
            let rewrap = row_of(tables@.kms_rewrap, KMS_REWRAP_STATE_KEY@);
            let secrets = listed::<String, SecretRecord>(tables@.secrets);
            let target = status_target(rewrap, latest);
            match r {
                Some(answer) => {
                    &&& answer.enabled == enabled
                    &&& answer.busy == busy
                    &&& answer.last_completed_rotation_at.deep_view() == positive_time(
                        status_target(rewrap, None),
                    )
                    &&& answer.latest_rotation_at.deep_view() == crate::clock::rfc3339_opt_of(
                        latest,
                    )
                    &&& answer.total_versions == total_of(tables@, secrets, now as int)
                    &&& answer.pending_versions == pending_of(
                        tables@,
                        secrets,
                        target,
                        now as int,
                    )
                },
                None => total_of(tables@, secrets, now as int) > usize::MAX,
            }
        }),
{
    let last_completed: i64 = match tables.kms_rewrap.get(&KMS_REWRAP_STATE_KEY.to_owned()) {
        Some(done) => done.last_completed_rotation_at,
        None => 0,
    };
    let target: i64 = match latest {
        Some(at) => at,
        None => last_completed,
    };
    match count_pending(tables, target, now) {
        Some((total, pending)) => Some(
            RewrapStatusResponse {
                enabled,
                busy,
                last_completed_rotation_at: time_if_positive(last_completed),
                latest_rotation_at: crate::clock::rfc3339_opt(latest),
                total_versions: total,
                pending_versions: pending,
            },
        ),
        None => None,
    }
}

/// A version that was wrapped anew for a rotation is no longer behind it, opens under the same
/// data key to the same as before, and apart from its wrapping is unchanged.
pub proof fn law_rewrapped_is_up_to_date(
    state: StoreView,
    node_id: u64,
    name: Seq<char>,
    version: i32,
    kms_key_id: Seq<char>,
    wrapped_dek: Seq<u8>,
    target: i64,
)
    requires
        state.versions.contains_key(key_of(name, version as int)),
    ensures
        ({
            let key = key_of(name, version as int);
            let after = outcome(
                state,
                node_id,
                CommandView::RewrapVersion {
                    name,
                    version,
                    kms_key_id,
                    wrapped_dek,
                    wrapped_rotation_at: target,
                },
            );
            &&& after is Ok
            &&& row_of(after->Ok_0.versions, key) matches Some(row) && !behind(row, target) && row
                == (VersionView {
                kms_key_id,
                wrapped_dek,
                wrapped_rotation_at: Some(target),
                ..state.versions[key]
            })
            &&& forall|dek: Seq<u8>| #[trigger]
                opened_version(name, version as int, after->Ok_0.versions[key], dek)
                    == opened_version(name, version as int, state.versions[key], dek)
        }),
{
}

} // verus!
