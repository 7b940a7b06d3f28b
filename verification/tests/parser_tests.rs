use ics_sensor::busy::busy_from_lines;
use ics_sensor::parser::{Event, PartialEvent};
use ics_sensor::zone::Zone;
use ics_sensor::{Line, Parser};

const START: i64 = 1637572500; // 2021-11-22 09:15:00 UTC
const END: i64 = 1637576100; // 2021-11-22 10:15:00 UTC

fn parse_all(lines: &[&str]) -> Vec<Event> {
    let mut parser = Parser::new();
    let mut events = Vec::new();
    for raw in lines {
        let line = Line::from_str(raw);
        if let Some(event) = parser.process_line(&line) {
            events.push(event);
        }
    }
    events
}

fn fixture_lines() -> Vec<&'static str> {
    vec![
        "BEGIN:VCALENDAR",
        "X-WR-TIMEZONE:Asia/Jerusalem",
        "BEGIN:VEVENT",
        "SUMMARY:kaki",
        "DTSTART:20211122T091500Z",
        "DTEND:20211122T101500Z",
        "END:VEVENT",
        "X-WR-TIMEZONE:Europe/Berlin",
        "BEGIN:VEVENT",
        "SUMMARY:kaki2",
        "DTSTART:20211122T091500Z",
        "DTEND:20211122T101500Z",
        "END:VEVENT",
        "END:VCALENDAR",
    ]
}

fn shown_in(zone: &str, epoch: i64) -> String {
    let tz: chrono_tz::Tz = zone.parse().unwrap();
    let utc = chrono::DateTime::<chrono::Utc>::from_timestamp(epoch, 0).unwrap();
    utc.with_timezone(&tz).to_string()
}

#[test]
fn test_to_calendar_iterator() {
    let calendars = parse_all(&fixture_lines());

    assert_eq!(calendars.len(), 2);

    let tuples: Vec<_> = calendars
        .iter()
        .map(|event| {
            (
                event.name.to_string(),
                event.timezone.name().to_string(),
                shown_in(event.timezone.name(), event.start),
                shown_in(event.timezone.name(), event.end),
            )
        })
        .collect();

    assert_eq!(
        tuples,
        vec![
            (
                "kaki".to_string(),
                "Asia/Jerusalem".to_string(),
                "2021-11-22 11:15:00 IST".to_string(),
                "2021-11-22 12:15:00 IST".to_string(),
            ),
            (
                "kaki2".to_string(),
                "Europe/Berlin".to_string(),
                "2021-11-22 10:15:00 CET".to_string(),
                "2021-11-22 11:15:00 CET".to_string(),
            )
        ]
    );
}

#[test]
fn test_timezone_snapshot_per_event() {
    // The second zone declaration comes after the first record closed; each
    // event keeps the zone current at its own record-begin.
    let events = parse_all(&fixture_lines());
    assert_eq!(events[0].timezone.name(), "Asia/Jerusalem");
    assert_eq!(events[1].timezone.name(), "Europe/Berlin");
}

#[test]
fn test_missing_summary_dropped() {
    let events = parse_all(&[
        "X-WR-TIMEZONE:Asia/Jerusalem",
        "BEGIN:VEVENT",
        "DTSTART:20211122T091500Z",
        "DTEND:20211122T101500Z",
        "END:VEVENT",
    ]);
    assert_eq!(events.len(), 0);
}

#[test]
fn test_missing_dtstart_dropped() {
    let events = parse_all(&[
        "X-WR-TIMEZONE:Asia/Jerusalem",
        "BEGIN:VEVENT",
        "SUMMARY:kaki",
        "DTEND:20211122T101500Z",
        "END:VEVENT",
    ]);
    assert_eq!(events.len(), 0);
}

#[test]
fn test_missing_dtend_dropped() {
    let events = parse_all(&[
        "X-WR-TIMEZONE:Asia/Jerusalem",
        "BEGIN:VEVENT",
        "SUMMARY:kaki",
        "DTSTART:20211122T091500Z",
        "END:VEVENT",
    ]);
    assert_eq!(events.len(), 0);
}

#[test]
fn test_missing_calendar_timezone_dropped() {
    // A record opened before any timezone declaration never resolves its
    // instants, so it is dropped at close.
    let events = parse_all(&[
        "BEGIN:VEVENT",
        "SUMMARY:kaki",
        "DTSTART:20211122T091500Z",
        "DTEND:20211122T101500Z",
        "END:VEVENT",
    ]);
    assert_eq!(events.len(), 0);
}

#[test]
fn test_unclosed_event_never_contributes() {
    let events = parse_all(&[
        "X-WR-TIMEZONE:Asia/Jerusalem",
        "BEGIN:VEVENT",
        "SUMMARY:kaki",
        "DTSTART:20211122T091500Z",
        "DTEND:20211122T101500Z",
    ]);
    assert_eq!(events.len(), 0);

    let lines: Vec<String> = [
        "X-WR-TIMEZONE:Asia/Jerusalem",
        "BEGIN:VEVENT",
        "SUMMARY:kaki",
        "DTSTART:20211122T091500Z",
        "DTEND:20211122T101500Z",
    ]
    .iter()
    .map(|s| s.to_string())
    .collect();
    assert!(!busy_from_lines(&lines, START));
}

#[test]
fn test_malformed_timestamp_leaves_field_unset() {
    let events = parse_all(&[
        "X-WR-TIMEZONE:Asia/Jerusalem",
        "BEGIN:VEVENT",
        "SUMMARY:kaki",
        "DTSTART:not-a-timestamp",
        "DTEND:20211122T101500Z",
        "END:VEVENT",
    ]);
    assert_eq!(events.len(), 0);
}

#[test]
fn test_unknown_zone_keeps_previous() {
    let events = parse_all(&[
        "X-WR-TIMEZONE:Asia/Jerusalem",
        "X-WR-TIMEZONE:Neverwhere/Nowhere",
        "BEGIN:VEVENT",
        "SUMMARY:kaki",
        "DTSTART:20211122T091500Z",
        "DTEND:20211122T101500Z",
        "END:VEVENT",
    ]);
    assert_eq!(events.len(), 1);
    assert_eq!(events[0].timezone.name(), "Asia/Jerusalem");
}

#[test]
fn test_restarted_record_overwrites_open_one() {
    // A begin marker while a record is open starts over: the earlier partial
    // is lost.
    let events = parse_all(&[
        "X-WR-TIMEZONE:Asia/Jerusalem",
        "BEGIN:VEVENT",
        "SUMMARY:first",
        "BEGIN:VEVENT",
        "SUMMARY:second",
        "DTSTART:20211122T091500Z",
        "DTEND:20211122T101500Z",
        "END:VEVENT",
    ]);
    assert_eq!(events.len(), 1);
    assert_eq!(events[0].name, "second");
}

#[test]
fn test_unknown_properties_ignored() {
    let events = parse_all(&[
        "X-WR-TIMEZONE:Asia/Jerusalem",
        "BEGIN:VEVENT",
        "SUMMARY:kaki",
        "LOCATION:somewhere",
        "DTSTART:20211122T091500Z",
        "DTEND:20211122T101500Z",
        "SEQUENCE:0",
        "END:VEVENT",
    ]);
    assert_eq!(events.len(), 1);
}

#[test]
fn test_try_from_incomplete_partial_is_error() {
    let partial = PartialEvent {
        name: Some("kaki".to_string()),
        timezone: Zone::parse("Asia/Jerusalem"),
        start: Some(START),
        end: None,
    };
    assert!(Event::try_from(&partial).is_err());
}

#[test]
fn test_try_from_complete_partial() {
    let partial = PartialEvent {
        name: Some("kaki".to_string()),
        timezone: Zone::parse("Asia/Jerusalem"),
        start: Some(START),
        end: Some(END),
    };
    let event = Event::try_from(&partial).unwrap();
    assert_eq!(event.name, "kaki");
    assert_eq!(event.start, START);
    assert_eq!(event.end, END);
}

#[test]
fn test_zone_parse() {
    assert_eq!(Zone::parse("Asia/Jerusalem").unwrap().name(), "Asia/Jerusalem");
    assert!(Zone::parse("Neverwhere/Nowhere").is_none());
    assert!(Zone::parse("").is_none());
}
