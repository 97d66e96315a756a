use ssh_guard::config::audit::AuditFormat;
use ssh_guard::config::global::Global;
use ssh_guard::config::profile::GlobalOverride;

#[test]
fn empty_override_keeps_every_base_setting() {
    let base = Global {
        audit_log: "/l".into(),
        audit_format: AuditFormat::Logfmt,
        help_text: "h".into(),
        log_tag: "t".into(),
        max_read_bytes: 1,
        max_tail_lines: 2,
        default_tail_lines: 3,
    };
    let merged = GlobalOverride::default().apply_to(&base);
    assert_eq!(merged.audit_log, "/l");
    assert_eq!(merged.audit_format, AuditFormat::Logfmt);
    assert_eq!(merged.help_text, "h");
    assert_eq!(merged.log_tag, "t");
    assert_eq!(merged.max_read_bytes, 1);
    assert_eq!(merged.max_tail_lines, 2);
    assert_eq!(merged.default_tail_lines, 3);
}

#[test]
fn applying_an_override_twice_is_applying_it_once() {
    let base = Global::default();
    let ov = GlobalOverride { log_tag: Some("x".into()), max_tail_lines: Some(7), ..Default::default() };
    let once = ov.apply_to(&base);
    let twice = ov.apply_to(&once);
    assert_eq!(twice.log_tag, once.log_tag);
    assert_eq!(twice.max_tail_lines, 7);
    assert_eq!(twice.audit_log, once.audit_log);
    assert_eq!(twice.help_text, once.help_text);
}
