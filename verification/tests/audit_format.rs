use ssh_guard::config::audit::AuditFormat;

#[test]
fn test_default_is_json() {
    let fmt = AuditFormat::default();
    assert_eq!(fmt, AuditFormat::Json);
}

#[test]
fn audit_test_partial_eq() {
    assert_eq!(AuditFormat::Json, AuditFormat::Json);
    assert_eq!(AuditFormat::Logfmt, AuditFormat::Logfmt);
    assert_ne!(AuditFormat::Json, AuditFormat::Logfmt);
}
