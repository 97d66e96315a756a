use vstd::prelude::*;

use crate::config::audit::AuditFormat;
use crate::config::contract::Contract;
use crate::config::global::Global;
use crate::config::rule::Rule;
use crate::strmap::StrMap;

verus! {

/// Field-wise overrides of `Global` settings within a profile; only the fields that are
/// set override the base.
#[derive(Debug, Clone)]
pub struct GlobalOverride {
    pub audit_log: Option<String>,
    pub audit_format: Option<AuditFormat>,
    pub help_text: Option<String>,
    pub log_tag: Option<String>,
    pub max_read_bytes: Option<usize>,
    pub max_tail_lines: Option<usize>,
    pub default_tail_lines: Option<usize>,
}

impl Default for GlobalOverride {
    fn default() -> (r: Self)
        ensures
            r.audit_log is None,
            r.audit_format is None,
            r.help_text is None,
            r.log_tag is None,
            r.max_read_bytes is None,
            r.max_tail_lines is None,
            r.default_tail_lines is None,
    {
        GlobalOverride {
            audit_log: None,
            audit_format: None,
            help_text: None,
            log_tag: None,
            max_read_bytes: None,
            max_tail_lines: None,
            default_tail_lines: None,
        }
    }
}

/// The view of an overridden string setting.
pub open spec fn or_base_str(o: Option<String>, base: String) -> Seq<char> {
    match o {
        Some(s) => s@,
        None => base@,
    }
}

pub open spec fn or_base<T>(o: Option<T>, base: T) -> T {
    match o {
        Some(s) => s,
        None => base,
    }
}

fn pick_str(o: &Option<String>, base: &String) -> (r: String)
    ensures
        r@ == or_base_str(*o, *base),
        r == or_base(*o, *base),
{
    match o {
        Some(s) => s.clone(),
        None => base.clone(),
    }
}

impl GlobalOverride {
    /// `base` with every field that this override sets replaced by its value.
    pub open spec fn applied(self, base: Global) -> Global {
        Global {
            audit_log: or_base(self.audit_log, base.audit_log),
            audit_format: or_base(self.audit_format, base.audit_format),
            help_text: or_base(self.help_text, base.help_text),
            log_tag: or_base(self.log_tag, base.log_tag),
            max_read_bytes: or_base(self.max_read_bytes, base.max_read_bytes),
            max_tail_lines: or_base(self.max_tail_lines, base.max_tail_lines),
            default_tail_lines: or_base(self.default_tail_lines, base.default_tail_lines),
        }
    }

    /// `base` with every field that this override sets replaced by its value.
    pub fn apply_to(&self, base: &Global) -> (r: Global)
        ensures
            r == self.applied(*base),
            r.audit_log@ == or_base_str(self.audit_log, base.audit_log),
            r.audit_format == or_base(self.audit_format, base.audit_format),
            r.help_text@ == or_base_str(self.help_text, base.help_text),
            r.log_tag@ == or_base_str(self.log_tag, base.log_tag),
            r.max_read_bytes == or_base(self.max_read_bytes, base.max_read_bytes),
            r.max_tail_lines == or_base(self.max_tail_lines, base.max_tail_lines),
            r.default_tail_lines == or_base(self.default_tail_lines, base.default_tail_lines),
    {
        Global {
            audit_log: pick_str(&self.audit_log, &base.audit_log),
            audit_format: match self.audit_format {
                Some(f) => f,
                None => base.audit_format,
            },
            help_text: pick_str(&self.help_text, &base.help_text),
            log_tag: pick_str(&self.log_tag, &base.log_tag),
            max_read_bytes: match self.max_read_bytes {
                Some(n) => n,
                None => base.max_read_bytes,
            },
            max_tail_lines: match self.max_tail_lines {
                Some(n) => n,
                None => base.max_tail_lines,
            },
            default_tail_lines: match self.default_tail_lines {
                Some(n) => n,
                None => base.default_tail_lines,
            },
        }
    }
}

/// A named profile that extends the base config for specific SSH users.
#[derive(Debug)]
pub struct Profile {
    /// SSH user names this profile applies to.
    pub users: Vec<String>,
    /// Field-wise overrides of the `[global]` settings.
    pub global: Option<GlobalOverride>,
    /// Contracts merged over the base ones (profile keys win).
    pub contracts: Option<StrMap<Contract>>,
    /// Flag groups merged over the base ones (profile keys win).
    pub flag_groups: Option<StrMap<Vec<String>>>,
    /// Rules appended after the base rules.
    pub rules: Option<Vec<Rule>>,
    /// Roots appended to the base roots, skipping ones already present.
    pub roots: Option<Vec<String>>,
    /// Units appended to the base units, skipping ones already present.
    pub units: Option<Vec<String>>,
}

impl Default for Profile {
    fn default() -> (r: Self)
        ensures
            r.users@.len() == 0,
            r.global is None,
            r.contracts is None,
            r.flag_groups is None,
            r.rules is None,
            r.roots is None,
            r.units is None,
    {
        Profile {
            users: Vec::new(),
            global: None,
            contracts: None,
            flag_groups: None,
            rules: None,
            roots: None,
            units: None,
        }
    }
}

/// An override that sets nothing leaves the base settings as they are.
pub proof fn law_empty_override_keeps_base(o: GlobalOverride, base: Global)
    requires
        o.audit_log is None,
        o.audit_format is None,
        o.help_text is None,
        o.log_tag is None,
        o.max_read_bytes is None,
        o.max_tail_lines is None,
        o.default_tail_lines is None,
    ensures
        o.applied(base) == base,
{
}

/// Applying an override a second time changes nothing more.
pub proof fn law_override_applies_once(o: GlobalOverride, base: Global)
    ensures
        o.applied(o.applied(base)) == o.applied(base),
{
}

/// Applying one override and then another is applying the second over the first: a field
/// set by the second wins, else one set by the first, else the base.
pub proof fn law_overrides_compose(first: GlobalOverride, second: GlobalOverride, base: Global)
    ensures
        second.applied(first.applied(base)) == (GlobalOverride {
            audit_log: or_base_opt(second.audit_log, first.audit_log),
            audit_format: or_base_opt(second.audit_format, first.audit_format),
            help_text: or_base_opt(second.help_text, first.help_text),
            log_tag: or_base_opt(second.log_tag, first.log_tag),
            max_read_bytes: or_base_opt(second.max_read_bytes, first.max_read_bytes),
            max_tail_lines: or_base_opt(second.max_tail_lines, first.max_tail_lines),
            default_tail_lines: or_base_opt(second.default_tail_lines, first.default_tail_lines),
        }).applied(base),
{
}

/// The first option when it is set, else the second.
pub open spec fn or_base_opt<T>(a: Option<T>, b: Option<T>) -> Option<T> {
    match a {
        Some(x) => Some(x),
        None => b,
    }
}

} // verus!
