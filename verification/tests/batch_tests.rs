use std::collections::HashMap;

use ics_sensor::batch::collect_results;

#[test]
fn test_failed_feed_omitted() {
    // Three labelled feeds, one of which failed in transport: the result
    // holds the two successes and omits the failed label.
    let outcomes = vec![
        ("work".to_string(), Some(true)),
        ("broken".to_string(), None),
        ("home".to_string(), Some(false)),
    ];
    let results = collect_results(&outcomes);
    assert_eq!(results.len(), 2);
    let map: HashMap<String, bool> = results.into_iter().collect();
    assert_eq!(map.get("work"), Some(&true));
    assert_eq!(map.get("home"), Some(&false));
    assert_eq!(map.get("broken"), None);
}

#[test]
fn test_all_failed_yields_empty() {
    let outcomes = vec![("a".to_string(), None), ("b".to_string(), None)];
    assert_eq!(collect_results(&outcomes).len(), 0);
}

#[test]
fn test_completion_order_never_changes_results() {
    // However a bounded scheduler interleaves the feeds, the outcomes arrive
    // in some order; any order denotes the same mapping.
    let one_at_a_time = vec![
        ("a".to_string(), Some(true)),
        ("b".to_string(), None),
        ("c".to_string(), Some(false)),
    ];
    let all_at_once = vec![
        ("c".to_string(), Some(false)),
        ("a".to_string(), Some(true)),
        ("b".to_string(), None),
    ];
    let m1: HashMap<String, bool> = collect_results(&one_at_a_time).into_iter().collect();
    let m2: HashMap<String, bool> = collect_results(&all_at_once).into_iter().collect();
    assert_eq!(m1, m2);
}

#[test]
fn test_successes_keep_their_answers() {
    let outcomes = vec![("x".to_string(), Some(false))];
    let results = collect_results(&outcomes);
    assert_eq!(results, vec![("x".to_string(), false)]);
}
