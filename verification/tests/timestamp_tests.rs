use ics_sensor::timestamp::parse_timestamp;

fn shown_in(zone: &str, epoch: i64) -> String {
    let tz: chrono_tz::Tz = zone.parse().unwrap();
    let utc = chrono::DateTime::<chrono::Utc>::from_timestamp(epoch, 0).unwrap();
    utc.with_timezone(&tz).to_string()
}

#[test]
fn test_resolve_naive_token_as_utc() {
    // The digits are read as a UTC instant, whatever zone the caller will
    // show them in.
    assert_eq!(parse_timestamp("20211122T111500"), Some(1637579700));
}

#[test]
fn test_resolve_utc_marker_stripped() {
    assert_eq!(parse_timestamp("20211122T091500Z"), Some(1637572500));
    assert_eq!(parse_timestamp("20211122T091500"), Some(1637572500));
}

#[test]
fn test_same_digits_same_instant_across_zones() {
    // Both zones see the same absolute instant, at their own wall clocks.
    let epoch = parse_timestamp("20211122T111500").unwrap();
    assert_eq!(shown_in("Asia/Jerusalem", epoch), "2021-11-22 13:15:00 IST");
    assert_eq!(shown_in("Europe/Berlin", epoch), "2021-11-22 12:15:00 CET");
}

#[test]
fn test_malformed_tokens_unparseable() {
    assert_eq!(parse_timestamp(""), None);
    assert_eq!(parse_timestamp("2021-11-22"), None);
    assert_eq!(parse_timestamp("20211122 111500"), None);
    assert_eq!(parse_timestamp("20211122T1115"), None);
    assert_eq!(parse_timestamp("20211122T11150x"), None);
}

#[test]
fn test_impossible_dates_unparseable() {
    assert_eq!(parse_timestamp("20211301T000000"), None);
    assert_eq!(parse_timestamp("20210230T000000"), None);
    assert_eq!(parse_timestamp("20210229T000000"), None);
    assert_eq!(parse_timestamp("20211122T240000"), None);
    assert_eq!(parse_timestamp("20211122T006000"), None);
}

#[test]
fn test_leap_day_resolves() {
    // 2020-02-29 00:00:00 UTC
    assert_eq!(parse_timestamp("20200229T000000"), Some(1582934400));
    // 2000 is a leap year, 1900-style century rules notwithstanding
    assert_eq!(parse_timestamp("20000229T000000"), Some(951782400));
}

#[test]
fn test_epoch_start_and_earlier() {
    assert_eq!(parse_timestamp("19700101T000000"), Some(0));
    assert_eq!(parse_timestamp("19691231T235959"), Some(-1));
}
