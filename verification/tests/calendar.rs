use agenda::civil::UNIX_EPOCH_SECS;
use agenda::event::Event;
use agenda::ics::{parse_ics, IcsError};
use agenda::moment::Moment;
use agenda::select::select;
use chrono::TimeZone;

fn utc_instant(y: i32, m: u32, d: u32, h: u32, mi: u32, s: u32) -> i64 {
    chrono::Utc
        .with_ymd_and_hms(y, m, d, h, mi, s)
        .unwrap()
        .timestamp()
        + UNIX_EPOCH_SECS
}

fn simple_calendar() -> String {
    [
        "BEGIN:VCALENDAR",
        "BEGIN:VEVENT",
        "UID:single",
        "SUMMARY:One meeting",
        "DTSTART:20240110T090000Z",
        "DTEND:20240110T100000Z",
        "END:VEVENT",
        "END:VCALENDAR",
        "",
    ]
    .join("\r\n")
}

fn weekly_calendar() -> String {
    [
        "BEGIN:VCALENDAR",
        "BEGIN:VEVENT",
        "UID:weekly",
        "SUMMARY:Standup",
        "DTSTART:20240101T100000Z",
        "DTEND:20240101T103000Z",
        "RRULE:FREQ=WEEKLY",
        "EXDATE:20240108T100000Z",
        "END:VEVENT",
        "END:VCALENDAR",
        "",
    ]
    .join("\r\n")
}

#[test]
fn extracts_fields_from_one_vevent() {
    let events = parse_ics(&simple_calendar()).unwrap();
    assert_eq!(events.len(), 1);
    let e = &events[0];
    assert_eq!(e.id, "single");
    assert_eq!(e.summary.as_deref(), Some("One meeting"));
    assert_eq!(e.start, Moment::DateTime(utc_instant(2024, 1, 10, 9, 0, 0)));
    assert_eq!(e.end, Moment::DateTime(utc_instant(2024, 1, 10, 10, 0, 0)));
    assert!(e.rrule.is_none());
    assert_eq!(e.duration(), 3600);
}

#[test]
fn missing_uid_synthesizes_identifier() {
    let text = [
        "BEGIN:VCALENDAR",
        "BEGIN:VEVENT",
        "DTSTART:20240110T090000Z",
        "DTEND:20240110T100000Z",
        "END:VEVENT",
        "END:VCALENDAR",
        "",
    ]
    .join("\r\n");
    let events = parse_ics(&text).unwrap();
    assert_eq!(events.len(), 1);
    // synthesized from start, end and (absent) summary
    assert_eq!(events[0].id, "20240110T090000Z20240110T100000Z");
}

#[test]
fn negative_duration_is_tolerated() {
    let text = [
        "BEGIN:VCALENDAR",
        "BEGIN:VEVENT",
        "UID:backwards",
        "DTSTART:20240110T100000Z",
        "DTEND:20240110T090000Z",
        "END:VEVENT",
        "END:VCALENDAR",
        "",
    ]
    .join("\r\n");
    let events = parse_ics(&text).unwrap();
    assert_eq!(events[0].duration(), -3600);
}

#[test]
fn malformed_instant_fails_the_source() {
    let text = [
        "BEGIN:VCALENDAR",
        "BEGIN:VEVENT",
        "UID:bad",
        "DTSTART:not-a-date",
        "END:VEVENT",
        "END:VCALENDAR",
        "",
    ]
    .join("\r\n");
    match parse_ics(&text) {
        Err(IcsError::MalformedInstant) => (),
        other => panic!("expected an instant error, got {:?}", other.map(|v| v.len())),
    }
}

#[test]
fn malformed_recurrence_fails_the_source() {
    let text = [
        "BEGIN:VCALENDAR",
        "BEGIN:VEVENT",
        "UID:bad",
        "DTSTART:20240101T100000Z",
        "RRULE:FREQ=BOGUS",
        "END:VEVENT",
        "END:VCALENDAR",
        "",
    ]
    .join("\r\n");
    match parse_ics(&text) {
        Err(IcsError::MalformedRecurrence) => (),
        other => panic!("expected a recurrence error, got {:?}", other.map(|v| v.len())),
    }
}

#[test]
fn rrule_without_anchor_fails_the_source() {
    let text = [
        "BEGIN:VCALENDAR",
        "BEGIN:VEVENT",
        "UID:bad",
        "RRULE:FREQ=WEEKLY",
        "END:VEVENT",
        "END:VCALENDAR",
        "",
    ]
    .join("\r\n");
    match parse_ics(&text) {
        Err(IcsError::MalformedRecurrence) => (),
        other => panic!("expected a recurrence error, got {:?}", other.map(|v| v.len())),
    }
}

#[test]
fn weekly_rule_skips_excluded_second_occurrence() {
    let events = parse_ics(&weekly_calendar()).unwrap();
    assert_eq!(events.len(), 1);
    let e = &events[0];
    let before_first = Moment::DateTime(utc_instant(2023, 12, 31, 0, 0, 0));

    let first = e.next_on_or_after(&before_first).unwrap();
    assert_eq!(first, Moment::DateTime(utc_instant(2024, 1, 1, 10, 0, 0)));

    // the second occurrence (Jan 8) is excluded; the third comes instead
    let after_first = Moment::DateTime(first.instant() + 1);
    let third = e.next_on_or_after(&after_first).unwrap();
    assert_eq!(third, Moment::DateTime(utc_instant(2024, 1, 15, 10, 0, 0)));

    let after_third = Moment::DateTime(third.instant() + 1);
    let fourth = e.next_on_or_after(&after_third).unwrap();
    assert_eq!(fourth, Moment::DateTime(utc_instant(2024, 1, 22, 10, 0, 0)));
}

#[test]
fn recurrence_id_adds_override_to_parent() {
    let text = [
        "BEGIN:VCALENDAR",
        "BEGIN:VEVENT",
        "UID:weekly",
        "DTSTART:20240101T100000Z",
        "DTEND:20240101T103000Z",
        "RRULE:FREQ=WEEKLY",
        "END:VEVENT",
        "BEGIN:VEVENT",
        "UID:weekly",
        "DTSTART:20240103T140000Z",
        "DTEND:20240103T143000Z",
        "RECURRENCE-ID:20240103T140000Z",
        "END:VEVENT",
        "END:VCALENDAR",
        "",
    ]
    .join("\r\n");
    let events = parse_ics(&text).unwrap();
    // the override record also stands alone as its own event
    assert_eq!(events.len(), 2);
    let parent = &events[0];
    // the override instant interleaves with rule-generated occurrences
    let jan2 = Moment::DateTime(utc_instant(2024, 1, 2, 0, 0, 0));
    let next = parent.next_on_or_after(&jan2).unwrap();
    assert_eq!(next, Moment::DateTime(utc_instant(2024, 1, 3, 14, 0, 0)));
}

#[test]
fn recurrence_id_without_parent_stands_alone() {
    let text = [
        "BEGIN:VCALENDAR",
        "BEGIN:VEVENT",
        "UID:orphan",
        "DTSTART:20240103T140000Z",
        "DTEND:20240103T143000Z",
        "RECURRENCE-ID:20240103T140000Z",
        "END:VEVENT",
        "END:VCALENDAR",
        "",
    ]
    .join("\r\n");
    let events = parse_ics(&text).unwrap();
    assert_eq!(events.len(), 1);
    assert_eq!(events[0].id, "orphan");
}

#[test]
fn select_returns_event_inside_window() {
    let events = parse_ics(&simple_calendar()).unwrap();
    let since = Moment::DateTime(utc_instant(2024, 1, 10, 0, 0, 0));
    let picked = select(events, &since, 24 * 3600);
    assert_eq!(picked.len(), 1);
    assert_eq!(picked[0].id, "single");
    assert_eq!(
        picked[0].start,
        Moment::DateTime(utc_instant(2024, 1, 10, 9, 0, 0))
    );
    assert_eq!(
        picked[0].end,
        Moment::DateTime(utc_instant(2024, 1, 10, 10, 0, 0))
    );
}

#[test]
fn select_excludes_event_already_in_progress() {
    // only the start is checked against the window: an event already under
    // way at `since` is not selected
    let events = parse_ics(&simple_calendar()).unwrap();
    let since = Moment::DateTime(utc_instant(2024, 1, 10, 9, 30, 0));
    let picked = select(events, &since, 24 * 3600);
    assert_eq!(picked.len(), 0);
}

#[test]
fn select_projects_recurring_event_with_duration() {
    let events = parse_ics(&weekly_calendar()).unwrap();
    let since = Moment::DateTime(utc_instant(2024, 1, 13, 0, 0, 0));
    let picked = select(events, &since, 7 * 24 * 3600);
    assert_eq!(picked.len(), 1);
    // Jan 8 is excluded, so the occurrence in range is Jan 15
    assert_eq!(
        picked[0].start,
        Moment::DateTime(utc_instant(2024, 1, 15, 10, 0, 0))
    );
    assert_eq!(
        picked[0].end,
        Moment::DateTime(utc_instant(2024, 1, 15, 10, 30, 0))
    );
}

#[test]
fn select_empty_when_next_occurrence_beyond_window() {
    let events = parse_ics(&weekly_calendar()).unwrap();
    let since = Moment::DateTime(utc_instant(2024, 1, 2, 0, 0, 0));
    // the next non-excluded occurrence is Jan 15, outside a 3-day window
    let picked = select(events, &since, 3 * 24 * 3600);
    assert_eq!(picked.len(), 0);
}

#[test]
fn select_twice_with_identical_inputs_is_identical() {
    let since = Moment::DateTime(utc_instant(2024, 1, 1, 0, 0, 0));
    let first = select(
        parse_ics(&weekly_calendar()).unwrap(),
        &since,
        14 * 24 * 3600,
    );
    let second = select(
        parse_ics(&weekly_calendar()).unwrap(),
        &since,
        14 * 24 * 3600,
    );
    assert_eq!(first.len(), second.len());
    for (a, b) in first.iter().zip(second.iter()) {
        assert_eq!(a.id, b.id);
        assert_eq!(a.start, b.start);
        assert_eq!(a.end, b.end);
        assert_eq!(a.summary, b.summary);
    }
}

#[test]
fn select_sorts_by_start_then_end_and_collapses_duplicates() {
    let text = [
        "BEGIN:VCALENDAR",
        "BEGIN:VEVENT",
        "UID:b",
        "SUMMARY:Later",
        "DTSTART:20240110T120000Z",
        "DTEND:20240110T130000Z",
        "END:VEVENT",
        "BEGIN:VEVENT",
        "UID:a",
        "SUMMARY:Earlier",
        "DTSTART:20240110T090000Z",
        "DTEND:20240110T100000Z",
        "END:VEVENT",
        "BEGIN:VEVENT",
        "UID:a2",
        "SUMMARY:Earlier",
        "DTSTART:20240110T090000Z",
        "DTEND:20240110T100000Z",
        "END:VEVENT",
        "END:VCALENDAR",
        "",
    ]
    .join("\r\n");
    let events = parse_ics(&text).unwrap();
    let since = Moment::DateTime(utc_instant(2024, 1, 10, 0, 0, 0));
    let picked = select(events, &since, 24 * 3600);
    // the two identical (start, end, summary) entries collapse to one
    assert_eq!(picked.len(), 2);
    assert_eq!(picked[0].summary.as_deref(), Some("Earlier"));
    assert_eq!(picked[1].summary.as_deref(), Some("Later"));
}

#[test]
fn load_events_isolates_per_source_failures() {
    let sources = vec![
        simple_calendar(),
        "BEGIN:VCALENDAR\r\nBEGIN:VEVENT\r\nUID:bad\r\nDTSTART:junk\r\nEND:VEVENT\r\nEND:VCALENDAR\r\n"
            .to_string(),
        weekly_calendar(),
    ];
    let results = agenda::ics::load_events(&sources);
    assert_eq!(results.len(), 3);
    assert!(results[0].is_ok());
    assert!(matches!(results[1], Err(IcsError::MalformedInstant)));
    assert!(results[2].is_ok());
}

#[test]
fn default_event_is_blank_at_epoch() {
    let e = Event::default();
    assert_eq!(e.id, "");
    assert!(e.summary.is_none());
    assert_eq!(e.start, Moment::DateTime(UNIX_EPOCH_SECS));
    assert_eq!(e.end, Moment::DateTime(UNIX_EPOCH_SECS));
    assert_eq!(e.duration(), 0);
}
