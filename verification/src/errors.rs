use vstd::prelude::*;

use crate::text::{append, dec_int, join, join_strings, owned, push_decimal, views};

verus! {

/// One specific failure when trying to match a command against a rule tree.
#[derive(Debug, Clone)]
pub struct MatchFailure {
    /// Index into `Config.rules`.
    pub rule_index: usize,
    /// The path got past when the failure occurred: the command's name, then the
    /// subcommands; e.g. `["git", "remote"]` means "git" then "remote" were got past
    /// and the failure came deeper. Empty when the command token itself failed.
    pub subcommand_path: Vec<String>,
    /// 0-based index of the offending token in the command's argv.
    pub at_token: usize,
    /// The token at that position.
    pub token: String,
    /// Human-readable reason.
    pub reason: String,
}

/// Mathematical model of a `MatchFailure`.
pub struct FailureV {
    pub rule_index: int,
    pub path: Seq<Seq<char>>,
    pub at_token: int,
    pub token: Seq<char>,
    pub reason: Seq<char>,
}

impl View for MatchFailure {
    type V = FailureV;

    open spec fn view(&self) -> FailureV {
        FailureV {
            rule_index: self.rule_index as int,
            path: views(self.subcommand_path@),
            at_token: self.at_token as int,
            token: self.token@,
            reason: self.reason@,
        }
    }
}

pub open spec fn failures_view(v: Seq<MatchFailure>) -> Seq<FailureV> {
    Seq::new(v.len(), |i: int| v[i]@)
}

/// The one-line description of a failure:
/// `rule[I] (via P1 P2): token N 'T' — REASON`, the `(via ..)` part only when the path
/// is not empty.
pub open spec fn failure_text(f: FailureV) -> Seq<char> {
    let path = if f.path.len() == 0 {
        Seq::empty()
    } else {
        " (via "@ + join(f.path, " "@) + ")"@
    };
    "rule["@ + dec_int(f.rule_index) + "]"@ + path + ": token "@ + dec_int(f.at_token) + " '"@
        + f.token + "' \u{2014} "@ + f.reason
}

impl MatchFailure {
    /// The failure as one line of text (what `Display` prints).
    pub fn to_display_string(&self) -> (r: String)
        ensures
            r@ == failure_text(self@),
    {
        let mut r = owned("rule[");
        push_decimal(&mut r, self.rule_index as u64);
        append(&mut r, "]");
        if self.subcommand_path.len() > 0 {
            append(&mut r, " (via ");
            let p = join_strings(&self.subcommand_path, " ");
            append(&mut r, p.as_str());
            append(&mut r, ")");
        }
        append(&mut r, ": token ");
        push_decimal(&mut r, self.at_token as u64);
        append(&mut r, " '");
        append(&mut r, self.token.as_str());
        append(&mut r, "' \u{2014} ");
        append(&mut r, self.reason.as_str());
        proof {
            let f = self@;
            let path = if f.path.len() == 0 {
                Seq::<char>::empty()
            } else {
                " (via "@ + join(f.path, " "@) + ")"@
            };
            assert(r@ =~= "rule["@ + dec_int(f.rule_index) + "]"@ + path + ": token "@ + dec_int(
                f.at_token,
            ) + " '"@ + f.token + "' \u{2014} "@ + f.reason);
        }
        r
    }
}

/// Everything that can go wrong.
#[derive(Debug)]
pub enum GuardError {
    Config(String),
    NoCommand,
    ParseCommand(String),
    /// No rule matched; `failures` holds every attempted match and why it failed.
    NoMatch { command: String, failures: Vec<MatchFailure> },
    Constraint(String),
    PathNotAllowed(String),
    Action(String),
    Validation(String),
    /// An I/O error, by its message.
    Io(String),
    Toml(String),
}

/// The one-line description of an error (what `Display` prints).
pub open spec fn error_text(e: GuardError) -> Seq<char> {
    match e {
        GuardError::Config(m) => "config error: "@ + m@,
        GuardError::NoCommand => "no SSH_ORIGINAL_COMMAND set"@,
        GuardError::ParseCommand(m) => "invalid command: "@ + m@,
        GuardError::NoMatch { .. } => "no matching rule"@,
        GuardError::Constraint(m) => "constraint violation: "@ + m@,
        GuardError::PathNotAllowed(m) => "path not allowed: "@ + m@,
        GuardError::Action(m) => "action failed: "@ + m@,
        GuardError::Validation(m) => "validation error: "@ + m@,
        GuardError::Io(m) => "IO error: "@ + m@,
        GuardError::Toml(m) => "TOML error: "@ + m@,
    }
}

fn prefixed(prefix: &str, m: &String) -> (r: String)
    ensures
        r@ == prefix@ + m@,
{
    let mut r = owned(prefix);
    append(&mut r, m.as_str());
    r
}

impl GuardError {
    /// The error as one line of text (what `Display` prints).
    pub fn to_display_string(&self) -> (r: String)
        ensures
            r@ == error_text(*self),
    {
        match self {
            GuardError::Config(m) => prefixed("config error: ", m),
            GuardError::NoCommand => owned("no SSH_ORIGINAL_COMMAND set"),
            GuardError::ParseCommand(m) => prefixed("invalid command: ", m),
            GuardError::NoMatch { .. } => owned("no matching rule"),
            GuardError::Constraint(m) => prefixed("constraint violation: ", m),
            GuardError::PathNotAllowed(m) => prefixed("path not allowed: ", m),
            GuardError::Action(m) => prefixed("action failed: ", m),
            GuardError::Validation(m) => prefixed("validation error: ", m),
            GuardError::Io(m) => prefixed("IO error: ", m),
            GuardError::Toml(m) => prefixed("TOML error: ", m),
        }
    }
}

} // verus!
