use agenda::civil::UNIX_EPOCH_SECS;
use agenda::ics::{parse_datetime, reconstruct_datetime};
use agenda::moment::{Moment, MomentError};
use chrono::TimeZone;

/// The library's instant for a chrono UTC civil time.
fn utc_instant(y: i32, m: u32, d: u32, h: u32, mi: u32, s: u32) -> i64 {
    chrono::Utc
        .with_ymd_and_hms(y, m, d, h, mi, s)
        .unwrap()
        .timestamp()
        + UNIX_EPOCH_SECS
}

/// The library's instant for the system-local midnight of a civil date.
fn local_midnight_instant(y: i32, m: u32, d: u32) -> i64 {
    chrono::Local
        .with_ymd_and_hms(y, m, d, 0, 0, 0)
        .unwrap()
        .timestamp()
        + UNIX_EPOCH_SECS
}

#[test]
fn moment_test_parse_datetimes() {
    let d = "20211029";
    let expected = Moment::Date(local_midnight_instant(2021, 10, 29));
    assert_eq!(Moment::parse(d, None).unwrap(), expected);

    let d = "20210524T024254Z";
    let expected = Moment::DateTime(utc_instant(2021, 5, 24, 2, 42, 54));
    assert_eq!(Moment::parse(d, None).unwrap(), expected);

    let d = "20200427T144500";
    let tz = "America/New_York".to_string();
    let expected = Moment::DateTime(utc_instant(2020, 4, 27, 18, 45, 0));
    assert_eq!(Moment::parse(d, Some(tz)).unwrap(), expected);
}

#[test]
fn ics_test_parse_datetimes() {
    let d = "20211029";
    let expected = Moment::Date(local_midnight_instant(2021, 10, 29));
    assert_eq!(parse_datetime(d, None).unwrap(), expected);

    let d = "20210524T024254Z";
    let expected = Moment::DateTime(utc_instant(2021, 5, 24, 2, 42, 54));
    assert_eq!(parse_datetime(d, None).unwrap(), expected);

    let d = "20200427T144500";
    let tz = "America/New_York".to_string();
    let expected = Moment::DateTime(utc_instant(2020, 4, 27, 18, 45, 0));
    assert_eq!(parse_datetime(d, Some(tz)).unwrap(), expected);
}

#[test]
fn parse_utc_instant_exact() {
    // 2021-05-24T02:42:54 UTC is Unix second 1621824174
    let m = Moment::parse("20210524T024254Z", None).unwrap();
    assert_eq!(m, Moment::DateTime(1621824174 + UNIX_EPOCH_SECS));
}

#[test]
fn parse_named_zone_offset() {
    // 14:45 in New York on 2020-04-27 (EDT, UTC-4) is 18:45 UTC
    let m = parse_datetime("20200427T144500", Some("America/New_York".to_string())).unwrap();
    assert_eq!(m, Moment::DateTime(utc_instant(2020, 4, 27, 18, 45, 0)));
}

#[test]
fn parse_zone_ignored_with_z_suffix() {
    let with_zone =
        Moment::parse("20210524T024254Z", Some("America/New_York".to_string())).unwrap();
    let without = Moment::parse("20210524T024254Z", None).unwrap();
    assert_eq!(with_zone, without);
}

#[test]
fn date_round_trips_through_anchor_format() {
    // parse a bare date, re-format its midnight instant as a UTC anchor,
    // and parse that back: the same instant comes out, as a DateTime
    let m = Moment::parse("20211029", None).unwrap();
    let k = match m {
        Moment::Date(k) => k,
        _ => panic!("expected a date"),
    };
    let anchor = reconstruct_datetime(&m, None).unwrap();
    assert!(anchor.starts_with(':'));
    assert!(anchor.ends_with('Z'));
    let back = Moment::parse(&anchor[1..], None).unwrap();
    assert_eq!(back, Moment::DateTime(k));
}

#[test]
fn datetime_round_trips_through_anchor_format() {
    let m = Moment::parse("20210524T024254Z", None).unwrap();
    let anchor = reconstruct_datetime(&m, None).unwrap();
    assert_eq!(anchor, ":20210524T024254Z");
    let back = Moment::parse(&anchor[1..], None).unwrap();
    assert_eq!(back, m);
}

#[test]
fn reconstruct_named_zone_fragment() {
    // 18:45 UTC shows as 14:45 on the wall clock in New York that day
    let m = Moment::DateTime(utc_instant(2020, 4, 27, 18, 45, 0));
    let fragment = reconstruct_datetime(&m, Some("America/New_York".to_string())).unwrap();
    assert_eq!(fragment, ";TZID=America/New_York:20200427T144500");
}

#[test]
fn reconstruct_utc_zone_name_uses_colon_form() {
    let m = Moment::DateTime(utc_instant(2021, 5, 24, 2, 42, 54));
    let fragment = reconstruct_datetime(&m, Some("UTC".to_string())).unwrap();
    assert_eq!(fragment, ":20210524T024254Z");
}

#[test]
fn mixed_variant_ordering_is_total() {
    let date = Moment::Date(utc_instant(2024, 1, 10, 0, 0, 0));
    let before = Moment::DateTime(utc_instant(2024, 1, 9, 23, 59, 59));
    let after = Moment::DateTime(utc_instant(2024, 1, 10, 0, 0, 1));
    // Date(d) < DateTime(t) iff d's midnight instant < t
    assert!(date.lt(&after));
    assert!(!date.lt(&before));
    assert!(before.lt(&date));
    // transitivity across three mixed-variant instants
    assert!(before.lt(&after));
    assert!(before.le(&date) && date.le(&after) && before.le(&after));
    // antisymmetry
    assert!(!(date.lt(&after) && after.lt(&date)));
}

#[test]
fn malformed_text_is_rejected() {
    assert_eq!(
        Moment::parse("garbage", None),
        Err(MomentError::MalformedInstant)
    );
    assert_eq!(Moment::parse("", None), Err(MomentError::MalformedInstant));
    assert_eq!(
        Moment::parse("2021102", None),
        Err(MomentError::MalformedInstant)
    );
    // month out of range
    assert_eq!(
        Moment::parse("20211329T000000Z", None),
        Err(MomentError::MalformedInstant)
    );
    // not a leap year
    assert_eq!(
        Moment::parse("20210229T000000Z", None),
        Err(MomentError::MalformedInstant)
    );
    // unknown zone name
    assert_eq!(
        Moment::parse("20200427T144500", Some("Nowhere/Nonexistent".to_string())),
        Err(MomentError::MalformedInstant)
    );
}

#[test]
fn leap_day_parses() {
    let m = Moment::parse("20200229T120000Z", None).unwrap();
    assert_eq!(m, Moment::DateTime(utc_instant(2020, 2, 29, 12, 0, 0)));
}

#[test]
fn to_string_formats_utc_basic_form() {
    let m = Moment::DateTime(utc_instant(2021, 5, 24, 2, 42, 54));
    assert_eq!(m.to_string(), "20210524T024254Z");
    let d = Moment::Date(utc_instant(2021, 10, 29, 0, 0, 0));
    assert_eq!(d.to_string(), "20211029T000000Z");
}
