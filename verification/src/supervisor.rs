//! The rotation supervisor that runs inside the database server.

use vstd::prelude::*;

verus! {

/// The settings of the supervisor.
#[derive(Debug)]
pub struct SupervisorSettings {
    pub rotation_enabled: bool,
    pub scan_interval_secs: i32,
    pub database: Option<String>,
}

impl Default for SupervisorSettings {
    /// Rotation enabled, a scan every thirty seconds, no database named.
    fn default() -> (r: Self)
        ensures
            r.rotation_enabled,
            r.scan_interval_secs == 30,
            r.database is None,
    {
        SupervisorSettings { rotation_enabled: true, scan_interval_secs: 30, database: None }
    }
}

/// The shortest and the longest time between two scans, in seconds.
pub const MIN_SCAN_INTERVAL_SECS: i32 = 1;

pub const MAX_SCAN_INTERVAL_SECS: i32 = 86_400;

pub fn rotation_enabled(settings: &SupervisorSettings) -> (r: bool)
    ensures
        r == settings.rotation_enabled,
{
    settings.rotation_enabled
}

pub fn scan_interval_secs(settings: &SupervisorSettings) -> (r: i32)
    ensures
        r == settings.scan_interval_secs,
{
    settings.scan_interval_secs
}

/// The database that the supervisor connects to: the one that the settings name, else the one that
/// the environment names, else the default one. Empty names do not count.
pub open spec fn database_of(setting: Option<Seq<char>>, env: Option<Seq<char>>) -> Seq<char> {
    if setting is Some && setting->0.len() > 0 {
        setting->0
    } else if env is Some && env->0.len() > 0 {
        env->0
    } else {
        "postgres"@
    }
}

pub fn database(settings: &SupervisorSettings, env: Option<String>) -> (r: String)
    ensures
        r@ == database_of(settings.database.deep_view(), env.deep_view()),
{
    if let Some(name) = &settings.database {
        if !name.as_str().is_empty() {
            return name.clone();
        }
    }
    if let Some(name) = env {
        if !name.as_str().is_empty() {
            return name;
        }
    }
    "postgres".to_owned()
}

/// Whether a tick scans at all: rotation must be enabled and the server must be known not to be a
/// standby.
pub fn must_scan(settings: &SupervisorSettings, in_recovery: Option<bool>) -> (r: bool)
    ensures
        r == (settings.rotation_enabled && in_recovery == Some(false)),
{
    match in_recovery {
        Some(standby) => settings.rotation_enabled && !standby,
        None => false,
    }
}

/// Whether a scan wakes the rotation workers: when it enqueued something.
pub fn must_notify(enqueued: Option<i32>) -> (r: bool)
    ensures
        r == (enqueued is Some && enqueued->0 > 0),
{
    match enqueued {
        Some(count) => count > 0,
        None => false,
    }
}

} // verus!
