use ics_sensor::busy::busy_from_bytes;
use ics_sensor::splitter::LineSplitter;

const START: i64 = 1637572500; // 2021-11-22 09:15:00 UTC

fn feed_bytes(terminated: bool) -> Vec<u8> {
    let mut text = [
        "BEGIN:VCALENDAR",
        "X-WR-TIMEZONE:Asia/Jerusalem",
        "BEGIN:VEVENT",
        "SUMMARY:kaki",
        "DTSTART:20211122T091500Z",
        "DTEND:20211122T101500Z",
        "END:VEVENT",
    ]
    .join("\r\n");
    if terminated {
        text.push_str("\r\n");
    }
    text.into_bytes()
}

#[test]
fn test_split_lines_across_chunks() {
    let mut splitter = LineSplitter::new();
    let first = splitter.push_chunk(b"BEGIN:V");
    assert_eq!(first.len(), 0);
    let second = splitter.push_chunk(b"CALENDAR\r\nSUMMARY:kaki\nxyz");
    assert_eq!(second, vec!["BEGIN:VCALENDAR".to_string(), "SUMMARY:kaki".to_string()]);
    let third = splitter.push_chunk(b"\n");
    assert_eq!(third, vec!["xyz".to_string()]);
}

#[test]
fn test_bare_linefeed_and_crlf_both_delimit() {
    let mut splitter = LineSplitter::new();
    let lines = splitter.push_chunk(b"one\ntwo\r\nthree\n");
    assert_eq!(lines, vec!["one".to_string(), "two".to_string(), "three".to_string()]);
}

#[test]
fn test_invalid_utf8_line_dropped() {
    let mut splitter = LineSplitter::new();
    let lines = splitter.push_chunk(&[b'o', b'k', 10, 0xff, 0xfe, 10, b'!', 10]);
    assert_eq!(lines, vec!["ok".to_string(), "!".to_string()]);
}

#[test]
fn test_busy_from_bytes() {
    let content = feed_bytes(true);
    assert!(busy_from_bytes(&content, START));
    assert!(!busy_from_bytes(&content, START - 1));
}

#[test]
fn test_unterminated_tail_is_no_line() {
    // The feed's closing record marker arrives without a terminator: it is
    // never delivered, so the record never closes and nothing is busy.
    let content = feed_bytes(false);
    assert!(!busy_from_bytes(&content, START));
}
