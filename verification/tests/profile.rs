use ssh_guard::config::audit::AuditFormat;
use ssh_guard::config::global::Global;
use ssh_guard::config::profile::GlobalOverride;

#[test]
fn test_global_override_apply_all() {
    let base = Global::default();
    let ov = GlobalOverride {
        audit_log: Some("/custom/log".into()),
        audit_format: Some(AuditFormat::Logfmt),
        help_text: Some("custom help".into()),
        log_tag: Some("custom-tag".into()),
        max_read_bytes: Some(999),
        max_tail_lines: Some(100),
        default_tail_lines: Some(10),
    };
    let merged = ov.apply_to(&base);
    assert_eq!(merged.audit_log, "/custom/log");
    assert_eq!(merged.audit_format, AuditFormat::Logfmt);
    assert_eq!(merged.help_text, "custom help");
    assert_eq!(merged.log_tag, "custom-tag");
    assert_eq!(merged.max_read_bytes, 999);
    assert_eq!(merged.max_tail_lines, 100);
    assert_eq!(merged.default_tail_lines, 10);
}

#[test]
fn test_global_override_apply_partial() {
    let base = Global::default();
    let ov = GlobalOverride {
        audit_log: Some("/custom/log".into()),
        ..Default::default()
    };
    let merged = ov.apply_to(&base);
    assert_eq!(merged.audit_log, "/custom/log");
    assert_eq!(merged.audit_format, base.audit_format);
    assert_eq!(merged.log_tag, base.log_tag);
}

#[test]
fn test_global_override_apply_none() {
    let base = Global::default();
    let ov = GlobalOverride::default();
    let merged = ov.apply_to(&base);
    assert_eq!(merged.audit_log, base.audit_log);
    assert_eq!(merged.audit_format, base.audit_format);
}
