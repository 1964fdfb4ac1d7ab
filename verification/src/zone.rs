//! Trusted boundary to the chrono and chrono-tz crates: resolving named
//! time zones and the system's local zone. Everything else about instants
//! is computed and verified in `civil` and `moment`.
use chrono::{Datelike, TimeZone, Timelike};

use crate::civil::{civil_secs, valid_civil, valid_ymd, UNIX_EPOCH_SECS};
use vstd::prelude::*;

verus! {

/// What chrono-tz computes for a civil wall-clock tuple read in a named
/// zone: `Some(unix_seconds)` when the name resolves to a known zone and
/// the wall-clock time exists unambiguously on that date, `None` otherwise.
/// The time zone database is compiled into the crate, so the result is a
/// function of the arguments alone.
pub uninterp spec fn zone_civil_to_unix(
    zone: Seq<char>,
    y: int,
    m: int,
    d: int,
    h: int,
    mi: int,
    s: int,
) -> Option<int>;

/// What chrono-tz displays for a Unix instant in a named zone: the civil
/// wall-clock tuple `(year, month, day, hour, minute, second)`, or `None`
/// when the name does not resolve to a known zone.
pub uninterp spec fn unix_to_zone_civil(zone: Seq<char>, t: int) -> Option<
    (int, int, int, int, int, int),
>;

/// Relies on `chrono_tz::Tz::from_str` and `chrono::TimeZone::with_ymd_and_hms`:
/// resolves a zone name and converts a wall-clock time in that zone to its
/// Unix timestamp; `None` for an unknown name or a skipped/ambiguous local time.
#[verifier::external_body]
pub(crate) fn zone_civil_to_unix_x(
    zone: &str,
    y: u64,
    m: u64,
    d: u64,
    h: u64,
    mi: u64,
    s: u64,
) -> (r: Option<i64>)
    requires
        valid_civil(y as int, m as int, d as int, h as int, mi as int, s as int),
    ensures
        r matches Some(u) ==> zone_civil_to_unix(
            zone@, y as int, m as int, d as int, h as int, mi as int, s as int,
        ) == Some(u as int),
        r is None ==> zone_civil_to_unix(
            zone@, y as int, m as int, d as int, h as int, mi as int, s as int,
        ) is None,
{
    let tz: chrono_tz::Tz = match zone.parse() {
        Ok(t) => t,
        Err(_) => return None,
    };
    match tz.with_ymd_and_hms(y as i32, m as u32, d as u32, h as u32, mi as u32, s as u32) {
        chrono::LocalResult::Single(dt) => Some(dt.timestamp()),
        _ => None,
    }
}

/// Relies on `chrono::DateTime::from_timestamp`, `chrono::DateTime::with_timezone`
/// and the chrono `Datelike`/`Timelike` accessors: the civil wall-clock tuple a
/// named zone displays for a Unix instant. Chrono documents months in `1..=12`,
/// days in `1..=31`, hours below 24, minutes and seconds below 60.
#[verifier::external_body]
pub(crate) fn unix_to_zone_civil_x(zone: &str, t: i64) -> (r: Option<
    (i64, u64, u64, u64, u64, u64),
>)
    requires
        -8334601228800 <= t <= 8210266876799,
    ensures
        r matches Some(c) ==> unix_to_zone_civil(zone@, t as int) == Some(
            (c.0 as int, c.1 as int, c.2 as int, c.3 as int, c.4 as int, c.5 as int),
        ),
        r is None ==> unix_to_zone_civil(zone@, t as int) is None,
        r matches Some(c) ==> 1 <= c.1 <= 12 && 1 <= c.2 <= 31 && c.3 < 24 && c.4 < 60 && c.5
            < 60,
{
    let tz: chrono_tz::Tz = match zone.parse() {
        Ok(z) => z,
        Err(_) => return None,
    };
    let utc = chrono::DateTime::from_timestamp(t, 0)?;
    let dt = utc.with_timezone(&tz);
    Some((
        dt.year() as i64,
        dt.month() as u64,
        dt.day() as u64,
        dt.hour() as u64,
        dt.minute() as u64,
        dt.second() as u64,
    ))
}

/// Relies on `chrono::Local` and `chrono::TimeZone::with_ymd_and_hms`: the Unix
/// timestamp of the given civil date's midnight in the system's local zone.
/// The result depends on the machine's environment, so the contract only
/// bounds it: chrono zone offsets are strictly less than one day.
#[verifier::external_body]
pub(crate) fn local_midnight_unix(y: u64, m: u64, d: u64) -> (r: Option<i64>)
    requires
        valid_ymd(y as int, m as int, d as int),
    ensures
        r matches Some(u) ==> civil_secs(y as int, m as int, d as int, 0, 0, 0)
            - UNIX_EPOCH_SECS - 86400 < u < civil_secs(y as int, m as int, d as int, 0, 0, 0)
            - UNIX_EPOCH_SECS + 86400,
{
    match chrono::Local.with_ymd_and_hms(y as i32, m as u32, d as u32, 0, 0, 0) {
        chrono::LocalResult::Single(dt) => Some(dt.timestamp()),
        _ => None,
    }
}

} // verus!
