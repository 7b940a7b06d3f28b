use ics_sensor::busy::{busy_from_lines, now_epoch, scan_line};
use ics_sensor::Parser;

const START: i64 = 1637572500; // 2021-11-22 09:15:00 UTC
const END: i64 = 1637576100; // 2021-11-22 10:15:00 UTC

fn single_event_feed() -> Vec<String> {
    [
        "BEGIN:VCALENDAR",
        "X-WR-TIMEZONE:Asia/Jerusalem",
        "BEGIN:VEVENT",
        "SUMMARY:kaki",
        "DTSTART:20211122T091500Z",
        "DTEND:20211122T101500Z",
        "END:VEVENT",
        "END:VCALENDAR",
    ]
    .iter()
    .map(|s| s.to_string())
    .collect()
}

#[test]
fn test_busy_inside_span() {
    let lines = single_event_feed();
    assert!(busy_from_lines(&lines, START));
    assert!(busy_from_lines(&lines, START + 1800));
    assert!(busy_from_lines(&lines, END - 1));
}

#[test]
fn test_not_busy_at_exclusive_end() {
    let lines = single_event_feed();
    assert!(!busy_from_lines(&lines, END));
    assert!(!busy_from_lines(&lines, END + 1));
}

#[test]
fn test_not_busy_before_start() {
    let lines = single_event_feed();
    assert!(!busy_from_lines(&lines, START - 1));
}

#[test]
fn test_feed_without_records_not_busy() {
    let lines: Vec<String> = [
        "BEGIN:VCALENDAR",
        "X-WR-TIMEZONE:Asia/Jerusalem",
        "PRODID:-//something//",
        "END:VCALENDAR",
    ]
    .iter()
    .map(|s| s.to_string())
    .collect();
    assert!(!busy_from_lines(&lines, START));
}

#[test]
fn test_empty_feed_not_busy() {
    let lines: Vec<String> = Vec::new();
    assert!(!busy_from_lines(&lines, START));
}

#[test]
fn test_inverted_span_never_busy() {
    // An event whose end precedes its start contains no instant; it is kept
    // as-is, not repaired.
    let lines: Vec<String> = [
        "X-WR-TIMEZONE:Asia/Jerusalem",
        "BEGIN:VEVENT",
        "SUMMARY:kaki",
        "DTSTART:20211122T101500Z",
        "DTEND:20211122T091500Z",
        "END:VEVENT",
    ]
    .iter()
    .map(|s| s.to_string())
    .collect();
    assert!(!busy_from_lines(&lines, START));
    assert!(!busy_from_lines(&lines, END));
}

#[test]
fn test_scan_line_stops_at_emitting_line() {
    let mut parser = Parser::new();
    let feed = single_event_feed();
    let mut hits = 0;
    for raw in &feed {
        if scan_line(&mut parser, raw, START + 60) {
            hits += 1;
        }
    }
    assert_eq!(hits, 1);
}

#[test]
fn test_now_epoch_is_recent() {
    // 2023-01-01 00:00:00 UTC; the clock must be past it.
    assert!(now_epoch() > 1_672_531_200);
}
