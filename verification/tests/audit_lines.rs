use ssh_guard::audit::{chrono_now, format_unix_time, AuditEvent};

#[test]
fn logfmt_line_in_full() {
    let e = AuditEvent {
        timestamp: "2024-01-01T00:00:00Z".into(),
        user: "u".into(),
        command: "c d".into(),
        result: "denied".into(),
        detail: Some("r".into()),
        failures: Some(vec!["a".into(), "b".into()]),
    };
    assert_eq!(
        e.to_logfmt(),
        "ts=2024-01-01T00:00:00Z user=u command=\"c d\" result=denied detail=\"r\" failures=\"a; b\""
    );
}

#[test]
fn logfmt_line_without_optional_fields() {
    let e = AuditEvent {
        timestamp: "T".into(),
        user: "u".into(),
        command: "c".into(),
        result: "allowed".into(),
        detail: None,
        failures: None,
    };
    assert_eq!(e.to_logfmt(), "ts=T user=u command=\"c\" result=allowed");
}

#[test]
fn denied_keeps_the_failures() {
    let e = AuditEvent::denied("u", "c", "r", &["x".to_string(), "y".to_string()]);
    assert_eq!(e.failures, Some(vec!["x".to_string(), "y".to_string()]));
    assert_eq!(e.detail.as_deref(), Some("r"));
    assert_eq!(e.result, "denied");
}

#[test]
fn dates_across_centuries() {
    assert_eq!(format_unix_time(86399), "1970-01-01T23:59:59Z");
    assert_eq!(format_unix_time(1_700_000_000), "2023-11-14T22:13:20Z");
    assert_eq!(format_unix_time(4_102_444_800), "2100-01-01T00:00:00Z");
    assert_eq!(format_unix_time(4_107_542_400), "2100-03-01T00:00:00Z");
    assert_eq!(format_unix_time(951_782_399), "2000-02-28T23:59:59Z");
}

#[test]
fn now_is_a_real_date() {
    let ts = chrono_now();
    let year: i64 = ts[0..4].parse().unwrap();
    let month: u32 = ts[5..7].parse().unwrap();
    let day: u32 = ts[8..10].parse().unwrap();
    assert!(year >= 2020);
    assert!((1..=12).contains(&month));
    assert!((1..=31).contains(&day));
    assert_eq!(&ts[10..11], "T");
}
