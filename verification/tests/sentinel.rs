use std::time::Duration;

use carapace::sentinel::{
    diff_findings, fingerprint_set, parse_interval, sentinel_round, Finding, IntervalError, SentinelConfig,
    SentinelState,
};

#[test]
fn parses_seconds_suffix() {
    assert_eq!(parse_interval("45s").unwrap(), Duration::from_secs(45));
}

#[test]
fn parses_milliseconds_suffix() {
    assert_eq!(parse_interval("750ms").unwrap(), Duration::from_millis(750));
}

#[test]
fn parses_minutes_suffix() {
    assert_eq!(parse_interval("5m").unwrap(), Duration::from_secs(300));
}

#[test]
fn bare_value_is_seconds() {
    assert_eq!(parse_interval("60").unwrap(), Duration::from_secs(60));
}

#[test]
fn rejects_garbage() {
    assert!(parse_interval("soon").is_err());
}

#[test]
fn diffing_uses_finding_identity_not_score() {
    let prev = vec!["process-indicator::awproxy.exe".to_string()];
    let current = vec![
        "process-indicator::awproxy.exe".to_string(),
        "process-indicator::tun2socks.exe".to_string(),
    ];
    let diff = diff_findings(&prev, &current);
    assert_eq!(diff.len(), 1);
    assert!(diff[0].contains("tun2socks"));
}

#[test]
fn interval_errors_name_the_unit() {
    assert_eq!(parse_interval("xms"), Err(IntervalError::Milliseconds));
    assert_eq!(parse_interval("xs"), Err(IntervalError::Seconds));
    assert_eq!(parse_interval("xm"), Err(IntervalError::Minutes));
    assert_eq!(parse_interval(""), Err(IntervalError::Seconds));
    assert_eq!(parse_interval("-5s"), Err(IntervalError::Seconds));
}

#[test]
fn interval_trims_white_space_and_accepts_plus() {
    assert_eq!(parse_interval("  10s \n"), Ok(Duration::from_secs(10)));
    assert_eq!(parse_interval("+7"), Ok(Duration::from_secs(7)));
    assert_eq!(parse_interval("18446744073709551615"), Ok(Duration::from_secs(u64::MAX)));
    assert_eq!(parse_interval("18446744073709551616"), Err(IntervalError::Seconds));
}

#[test]
fn default_config_ticks_every_thirty_seconds_forever() {
    let c = SentinelConfig::default();
    assert_eq!(c.interval, Duration::from_secs(30));
    assert_eq!(c.max_rounds, None);
}

#[test]
fn fingerprints_join_category_and_detail_once_each() {
    let fs = vec![
        Finding { category: "process-indicator".to_string(), detail: "a.exe".to_string() },
        Finding { category: "net".to_string(), detail: "1.2.3.4".to_string() },
        Finding { category: "process-indicator".to_string(), detail: "a.exe".to_string() },
    ];
    assert_eq!(
        fingerprint_set(&fs),
        vec!["process-indicator::a.exe".to_string(), "net::1.2.3.4".to_string()]
    );
}

#[test]
fn repeated_audit_reports_nothing_new() {
    let prev = vec!["a::b".to_string(), "c::d".to_string()];
    assert!(diff_findings(&prev, &prev).is_empty());
}

#[test]
fn sentinel_exits_after_max_rounds() {
    let mut s = SentinelState::new();
    let first = sentinel_round(Some(2), &mut s, vec!["a::b".to_string()]);
    assert_eq!(first.new_findings, vec!["a::b".to_string()]);
    assert!(!first.stop);
    let second = sentinel_round(Some(2), &mut s, vec!["a::b".to_string()]);
    assert!(second.new_findings.is_empty());
    assert!(second.stop);
    assert_eq!(s.round, 2);
}

#[test]
fn sentinel_remembers_last_reported_audit() {
    let mut s = SentinelState::new();
    sentinel_round(None, &mut s, vec!["a::b".to_string()]);
    let r = sentinel_round(None, &mut s, vec!["a::b".to_string(), "x::y".to_string()]);
    assert_eq!(r.new_findings, vec!["x::y".to_string()]);
    assert!(!r.stop);
    assert_eq!(s.prev, vec!["a::b".to_string(), "x::y".to_string()]);
}
