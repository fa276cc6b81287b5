//! When a secret is rotated, and how long a superseded version stays valid.

use std::time::Duration;
use vstd::prelude::*;

verus! {

/// The whole seconds of a duration: what `Duration::as_secs` returns.
pub uninterp spec fn whole_secs(duration: Duration) -> u64;

/// `Duration::as_secs` returns the whole seconds of the duration, a function of its value alone.
pub assume_specification[ Duration::as_secs ](duration: &Duration) -> (r: u64)
    ensures
        r == whole_secs(*duration),
;

/// How often a secret is rotated and how long its superseded version stays valid.
#[derive(Debug, Clone, Copy)]
pub struct RotationPolicy {
    pub interval: Duration,
    pub grace: Duration,
}

/// The sum of two times, held to the range of an `i64`.
pub open spec fn saturated(a: int, b: int) -> int {
    if a + b > i64::MAX {
        i64::MAX as int
    } else if a + b < i64::MIN {
        i64::MIN as int
    } else {
        a + b
    }
}

fn saturating_sum(a: i64, b: i64) -> (r: i64)
    ensures
        r == saturated(a as int, b as int),
{
    if b >= 0 {
        if a > i64::MAX - b {
            i64::MAX
        } else {
            a + b
        }
    } else if a < i64::MIN - b {
        i64::MIN
    } else {
        a + b
    }
}

impl RotationPolicy {
    pub fn new(interval: Duration, grace: Duration) -> (r: Self)
        ensures
            r.interval == interval,
            r.grace == grace,
    {
        RotationPolicy { interval, grace }
    }

    /// When a secret rotated at `from_unix` is due again.
    pub fn next_rotation_unix(&self, from_unix: i64) -> (r: i64)
        ensures
            r == saturated(from_unix as int, whole_secs(self.interval) as i64 as int),
    {
        saturating_sum(from_unix, self.interval.as_secs() as i64)
    }

    /// When a version superseded at `superseded_at_unix` stops being valid.
    pub fn grace_expiry_unix(&self, superseded_at_unix: i64) -> (r: i64)
        ensures
            r == saturated(superseded_at_unix as int, whole_secs(self.grace) as i64 as int),
    {
        saturating_sum(superseded_at_unix, self.grace.as_secs() as i64)
    }
}

/// A rotation is due from its time on.
pub fn is_due(now_unix: i64, next_rotation_unix: i64) -> (r: bool)
    ensures
        r == (next_rotation_unix <= now_unix),
{
    next_rotation_unix <= now_unix
}

/// Whether a version with the given expiry is valid at `now`: without an expiry always, otherwise
/// strictly before it.
pub open spec fn active_at(now: int, expires_at: Option<i64>) -> bool {
    match expires_at {
        None => true,
        Some(expiry) => now < expiry,
    }
}

pub fn version_active(now_unix: i64, expires_at_unix: Option<i64>) -> (r: bool)
    ensures
        r == active_at(now_unix as int, expires_at_unix),
{
    match expires_at_unix {
        None => true,
        Some(expiry) => now_unix < expiry,
    }
}

/// A version superseded at `at` with a grace period of `grace` seconds stays valid through the
/// whole period and no longer: from `at` on it is valid exactly while fewer than `grace` seconds
/// have passed. With no grace period it is invalid at once.
pub proof fn law_grace_window(policy: RotationPolicy, at: i64, now: i64)
    requires
        whole_secs(policy.grace) <= i64::MAX,
        at + whole_secs(policy.grace) <= i64::MAX,
    ensures
        ({
            let expiry = saturated(at as int, whole_secs(policy.grace) as i64 as int);
            active_at(now as int, Some(expiry as i64)) <==> now - at < whole_secs(policy.grace)
        }),
{
}

} // verus!
