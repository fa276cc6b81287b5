//! The time of day, and how it is written.

use std::time::{Duration, SystemTime, UNIX_EPOCH};
use time::format_description::well_known::Rfc3339;
use time::OffsetDateTime;
use vstd::prelude::*;
use crate::rotation::whole_secs;

verus! {

/// A point in time of the system clock.
#[verifier::external_type_specification]
#[verifier::external_body]
pub struct ExSystemTime(SystemTime);

/// How long after the Unix epoch a point in time is; nothing for one before it.
pub uninterp spec fn since_epoch(at: SystemTime) -> Option<Duration>;

/// `SystemTime::now` reads the system clock. Nothing is stated of what it shows.
#[verifier::external_body]
fn system_time() -> SystemTime {
    SystemTime::now()
}

/// `SystemTime::duration_since` tells how long one point in time is after another, here the Unix
/// epoch, and fails where the other is later.
#[verifier::external_body]
fn time_since_epoch(at: SystemTime) -> (r: Option<Duration>)
    ensures
        r == since_epoch(at),
{
    at.duration_since(UNIX_EPOCH).ok()
}

/// A time in whole seconds since the epoch, and zero for times before it.
pub open spec fn unix_of(elapsed: Option<Duration>) -> i64 {
    match elapsed {
        Some(duration) => whole_secs(duration) as i64,
        None => 0,
    }
}

/// The given time since the epoch in whole seconds.
pub fn unix_secs(elapsed: Option<Duration>) -> (r: i64)
    ensures
        r == unix_of(elapsed),
{
    match elapsed {
        Some(duration) => duration.as_secs() as i64,
        None => 0,
    }
}

/// The current time in seconds since the epoch.
pub fn now_unix() -> (r: i64)
    ensures
        exists|at: SystemTime| r == unix_of(#[trigger] since_epoch(at)),
{
    let at = system_time();
    unix_secs(time_since_epoch(at))
}

/// A date and time of day.
#[verifier::external_type_specification]
#[verifier::external_body]
pub struct ExOffsetDateTime(OffsetDateTime);

/// The date and time, in UTC, that lies so many seconds after the Unix epoch; nothing outside the
/// range of dates.
pub uninterp spec fn date_of(unix_secs: i64) -> Option<OffsetDateTime>;

/// The RFC 3339 text of a date and time; nothing where it cannot be written so.
pub uninterp spec fn date_text(at: OffsetDateTime) -> Option<Seq<char>>;

/// `OffsetDateTime::from_unix_timestamp` gives the date and time of a number of seconds since the
/// Unix epoch, as a function of that number, and fails outside the range of dates.
#[verifier::external_body]
fn date_from_unix(unix_secs: i64) -> (r: Option<OffsetDateTime>)
    ensures
        r == date_of(unix_secs),
{
    OffsetDateTime::from_unix_timestamp(unix_secs).ok()
}

/// `OffsetDateTime::format` with `Rfc3339` writes a date and time, as a function of it, and fails
/// where its year is below 0 or above 9999, or its offset from UTC is 24 hours or more or not in
/// whole minutes.
#[verifier::external_body]
fn format_date(at: OffsetDateTime) -> (r: Option<String>)
    ensures
        match r {
            Some(text) => date_text(at) == Some(text@),
            None => date_text(at) is None,
        },
{
    at.format(&Rfc3339).ok()
}

/// The RFC 3339 text of a time; nothing where the time is outside the range of dates or cannot be
/// written so.
pub open spec fn timestamp_text(unix_secs: i64) -> Option<Seq<char>> {
    match date_of(unix_secs) {
        Some(at) => date_text(at),
        None => None,
    }
}

/// A time as clients see it; blank where it cannot be written.
pub open spec fn rfc3339_of(unix_secs: i64) -> Seq<char> {
    match timestamp_text(unix_secs) {
        Some(text) => text,
        None => Seq::empty(),
    }
}

/// The text, or blank text where there is none.
pub fn or_blank(text: Option<String>) -> (r: String)
    ensures
        r@ == match text {
            Some(t) => t@,
            None => Seq::empty(),
        },
{
    match text {
        Some(t) => t,
        None => {
            let blank = String::new();
            assert(blank@ =~= Seq::empty());
            blank
        },
    }
}

pub fn rfc3339(unix_secs: i64) -> (r: String)
    ensures
        r@ == rfc3339_of(unix_secs),
{
    let text = match date_from_unix(unix_secs) {
        Some(at) => format_date(at),
        None => None,
    };
    or_blank(text)
}

/// An optional time as clients see it.
pub open spec fn rfc3339_opt_of(unix_secs: Option<i64>) -> Option<Seq<char>> {
    match unix_secs {
        Some(secs) => Some(rfc3339_of(secs)),
        None => None,
    }
}

pub fn rfc3339_opt(unix_secs: Option<i64>) -> (r: Option<String>)
    ensures
        r.deep_view() == rfc3339_opt_of(unix_secs),
{
    match unix_secs {
        Some(secs) => Some(rfc3339(secs)),
        None => None,
    }
}

} // verus!
