use vstd::prelude::*;

use crate::config::audit::AuditFormat;
use crate::text::owned;

verus! {

/// Settings shared by every rule.
#[derive(Debug, Clone)]
pub struct Global {
    /// Path of the audit log; every decision is appended to it.
    pub audit_log: String,
    pub audit_format: AuditFormat,
    /// Shown when the SSH command is empty.
    pub help_text: String,
    /// Syslog tag for non-audit logging.
    pub log_tag: String,
    /// Largest file a `read_file` action prints.
    pub max_read_bytes: usize,
    /// Most lines a `tail_file` action shows.
    pub max_tail_lines: usize,
    /// Lines a `tail_file` action shows when not told otherwise.
    pub default_tail_lines: usize,
}

pub fn default_audit_log() -> (r: String)
    ensures
        r@ == "/var/log/ssh-guard-audit.log"@,
{
    owned("/var/log/ssh-guard-audit.log")
}

pub fn default_log_tag() -> (r: String)
    ensures
        r@ == "ssh-guard"@,
{
    owned("ssh-guard")
}

pub fn default_max_read_bytes() -> (r: usize)
    ensures
        r == 1024 * 1024,
{
    1024 * 1024
}

pub fn default_max_tail_lines() -> (r: usize)
    ensures
        r == 5000,
{
    5000
}

pub fn default_tail_lines_global() -> (r: usize)
    ensures
        r == 200,
{
    200
}

impl Default for Global {
    fn default() -> (r: Self)
        ensures
            r.audit_log@ == "/var/log/ssh-guard-audit.log"@,
            r.audit_format == AuditFormat::Json,
            r.help_text@ == Seq::<char>::empty(),
            r.log_tag@ == "ssh-guard"@,
            r.max_read_bytes == 1024 * 1024,
            r.max_tail_lines == 5000,
            r.default_tail_lines == 200,
    {
        Global {
            audit_log: default_audit_log(),
            audit_format: AuditFormat::Json,
            help_text: String::new(),
            log_tag: default_log_tag(),
            max_read_bytes: default_max_read_bytes(),
            max_tail_lines: default_max_tail_lines(),
            default_tail_lines: default_tail_lines_global(),
        }
    }
}

} // verus!
