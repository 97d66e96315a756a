use vstd::prelude::*;

verus! {

/// The format of lines in the audit log.
#[derive(Debug, Clone, Copy, PartialEq, Eq, Structural)]
pub enum AuditFormat {
    /// One JSON object per line.
    Json,
    /// `key=value` pairs.
    Logfmt,
}

impl Default for AuditFormat {
    fn default() -> (r: Self)
        ensures
            r == AuditFormat::Json,
    {
        AuditFormat::Json
    }
}

} // verus!
