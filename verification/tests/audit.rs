use ssh_guard::audit::{chrono_now, format_unix_time, is_leap, AuditEvent};

#[test]
fn test_audit_event_logfmt() {
    let event = AuditEvent::allowed("agent", "help", "show_help");
    let line = event.to_logfmt();
    assert!(line.starts_with("ts="));
    assert!(line.contains("user=agent"));
    assert!(line.contains("result=allowed"));
}

#[test]
fn test_timestamp_format() {
    let ts = chrono_now();
    // Should look like ISO 8601
    assert!(ts.contains("T"));
    assert!(ts.ends_with("Z"));
    assert_eq!(ts.len(), 20); // "YYYY-MM-DDTHH:MM:SSZ"
}

// ── format_unix_time ────────────────────────────────────────────

#[test]
fn test_format_unix_time_epoch() {
    assert_eq!(format_unix_time(0), "1970-01-01T00:00:00Z");
}

#[test]
fn test_format_unix_time_one_day() {
    assert_eq!(format_unix_time(86400), "1970-01-02T00:00:00Z");
}

#[test]
fn test_format_unix_time_one_hour() {
    assert_eq!(format_unix_time(3600), "1970-01-01T01:00:00Z");
}

#[test]
fn test_format_unix_time_leap_year_2000() {
    // 951782400 = 2000-02-29T00:00:00Z (leap year, Feb has 29 days)
    assert_eq!(format_unix_time(951782400), "2000-02-29T00:00:00Z");
}

#[test]
fn test_format_unix_time_non_leap_feb() {
    // 2001-03-01T00:00:00Z = 983404800 (non-leap, Feb has 28 days)
    assert_eq!(format_unix_time(983404800), "2001-03-01T00:00:00Z");
}

#[test]
fn test_format_unix_time_midnight_boundary() {
    // Exactly one year after epoch: 1971-01-01T00:00:00Z
    let secs = 365 * 86400; // 1970 is not a leap year
    assert_eq!(format_unix_time(secs), "1971-01-01T00:00:00Z");
}

#[test]
fn test_format_unix_time_leap_march_1() {
    // Day after Feb 29 in leap year 2000: 2000-03-01T00:00:00Z
    assert_eq!(format_unix_time(951868800), "2000-03-01T00:00:00Z");
}

#[test]
fn test_format_unix_time_one_day_before_leap_feb_29() {
    // 951696000 = 2000-02-28T00:00:00Z (day before Feb 29 in leap year)
    assert_eq!(format_unix_time(951696000), "2000-02-28T00:00:00Z");
}

// ── is_leap ─────────────────────────────────────────────────────

#[test]
fn test_is_leap_2000() {
    assert!(is_leap(2000));
}

#[test]
fn test_is_leap_2004() {
    assert!(is_leap(2004));
}

#[test]
fn test_is_leap_1900() {
    assert!(!is_leap(1900));
}

#[test]
fn test_is_leap_2001() {
    assert!(!is_leap(2001));
}

#[test]
fn test_is_leap_2020() {
    assert!(is_leap(2020));
}

#[test]
fn test_is_leap_2023() {
    assert!(!is_leap(2023));
}

#[test]
fn test_is_leap_2400() {
    // Divisible by 400 → leap
    assert!(is_leap(2400));
}

#[test]
fn test_is_leap_2100() {
    // Divisible by 100 but not 400 → not leap
    assert!(!is_leap(2100));
}

// ── denied with empty failures ──────────────────────────────────

#[test]
fn test_denied_empty_failures_logfmt_no_failures() {
    let event = AuditEvent::denied("user", "cmd", "reason", &[]);
    let line = event.to_logfmt();
    assert!(!line.contains("failures"));
}

// ── write_to (actual file I/O) ──────────────────────────────────
