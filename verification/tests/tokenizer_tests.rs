use ics_sensor::Line;

#[test]
fn test_tokenize_no_colon() {
    let line = Line::from_str("BEGIN");
    assert_eq!(line.key, "begin");
    assert_eq!(line.value, None);
}

#[test]
fn test_tokenize_value_with_colons() {
    let line = Line::from_str("KEY:value:with:colons");
    assert_eq!(line.key, "key");
    assert_eq!(line.value, Some("value:with:colons".to_string()));
}

#[test]
fn test_tokenize_lowercases_key_only() {
    let line = Line::from_str("X-WR-TIMEZONE:Asia/Jerusalem");
    assert_eq!(line.key, "x-wr-timezone");
    assert_eq!(line.value, Some("Asia/Jerusalem".to_string()));
}

#[test]
fn test_tokenize_empty_line() {
    let line = Line::from_str("");
    assert_eq!(line.key, "");
    assert_eq!(line.value, None);
}

#[test]
fn test_tokenize_leading_colon() {
    let line = Line::from_str(":rest");
    assert_eq!(line.key, "");
    assert_eq!(line.value, Some("rest".to_string()));
}
