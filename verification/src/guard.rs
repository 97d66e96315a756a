//! The decisions of a guarded SSH session: what to do with the command the client sent,
//! what to record in the audit log, and which action to carry out.
use vstd::prelude::*;

use crate::actions::{execute, planned, ActionPlan};
use crate::audit::{timestamp_text, AuditEvent};
use crate::config::Config;
use crate::engine::matching::{match_command_with_files, match_from};
use crate::engine::types::MatchResult;
use crate::errors::{failure_text, failures_view, FailureV, GuardError, MatchFailure};
use crate::shell::{shell_words, split_words};
use crate::text::{
    append, dec_nat, join, join_strings, owned, push_decimal, trim, trim_str, views,
};

verus! {

/// How a session starts from the command the client sent.
#[derive(Debug)]
pub enum CommandStart {
    /// The command is blank: show the help text.
    ShowHelp,
    /// The command's words, to be matched against the rules.
    Words(Vec<String>),
}

/// The words of the command `raw`, from what splitting it gave: a parse error naming the
/// command when it could not be split.
pub fn words_or_parse_error(raw: &str, split: Option<Vec<String>>) -> (r: Result<
    Vec<String>,
    GuardError,
>)
    ensures
        match split {
            None => r matches Err(GuardError::ParseCommand(c)) && c@ == raw@,
            Some(v) => r == Ok::<Vec<String>, GuardError>(v),
        },
{
    match split {
        None => Err(GuardError::ParseCommand(owned(raw))),
        Some(v) => Ok(v),
    }
}

/// How the session for the command `raw` starts: a blank command shows the help; any
/// other is split into words as a shell would, and one that cannot be split is refused.
pub fn start_command(raw: &str) -> (r: Result<CommandStart, GuardError>)
    ensures
        trim(raw@).len() == 0 ==> r matches Ok(CommandStart::ShowHelp),
        trim(raw@).len() > 0 ==> match shell_words(raw@) {
            None => r matches Err(GuardError::ParseCommand(c)) && c@ == raw@,
            Some(ws) => r matches Ok(CommandStart::Words(v)) && views(v@) == ws,
        },
{
    let t = trim_str(raw);
    if t.as_str().unicode_len() == 0 {
        return Ok(CommandStart::ShowHelp);
    }
    match words_or_parse_error(raw, split_words(raw)) {
        Ok(v) => Ok(CommandStart::Words(v)),
        Err(e) => Err(e),
    }
}

/// An event with these fields, stamped with some time.
pub open spec fn event_is(
    e: AuditEvent,
    user: Seq<char>,
    command: Seq<char>,
    result: Seq<char>,
    detail: Seq<char>,
) -> bool {
    &&& exists|t: u64| e.timestamp@ == timestamp_text(t as nat)
    &&& e.user@ == user
    &&& e.command@ == command
    &&& e.result@ == result
    &&& e.detail matches Some(d) && d@ == detail
}

/// The event recorded when the blank command shows the help text.
pub fn help_event(user: &str) -> (r: AuditEvent)
    ensures
        event_is(r, user@, "(empty - help shown)"@, "allowed"@, "show_help"@),
        r.failures is None,
{
    AuditEvent::allowed(user, "(empty - help shown)", "show_help")
}

/// The detail recorded for an allowed command: `rule[I] via A/B`.
pub open spec fn allowed_detail(rule_index: int, path: Seq<Seq<char>>) -> Seq<char> {
    "rule["@ + dec_nat(rule_index as nat) + "] via "@ + join(path, "/"@)
}

/// What the guard decided for a command: the audit event, the match, and the action to
/// carry out or the error to report.
#[derive(Debug)]
pub struct Verdict {
    pub event: AuditEvent,
    pub matched: Option<MatchResult>,
    pub outcome: Result<ActionPlan, GuardError>,
}

/// The one-line descriptions of the failures `f`.
pub open spec fn failure_texts(f: Seq<FailureV>) -> Seq<Seq<char>> {
    Seq::new(f.len(), |i: int| failure_text(f[i]))
}

fn failure_strings(failures: &Vec<MatchFailure>) -> (r: Vec<String>)
    ensures
        views(r@) == failure_texts(failures_view(failures@)),
{
    let mut r: Vec<String> = Vec::new();
    let mut i: usize = 0;
    while i < failures.len()
        invariant
            i <= failures@.len(),
            views(r@) == failure_texts(failures_view(failures@).take(i as int)),
        decreases failures.len() - i,
    {
        let s = failures[i].to_display_string();
        let ghost before = views(r@);
        r.push(s);
        proof {
            let target = failure_texts(failures_view(failures@).take(i + 1));
            assert(failures_view(failures@).len() == failures@.len());
            assert(before.len() == i);
            assert(views(r@).len() == target.len());
            assert forall|k: int| 0 <= k < i + 1 implies views(r@)[k] == target[k] by {
                assert(failures_view(failures@).take(i + 1)[k] == failures@[k]@);
                if k < i {
                    assert(before[k] == failure_texts(failures_view(failures@).take(i as int))[k]);
                    assert(failures_view(failures@).take(i as int)[k] == failures@[k]@);
                }
            }
            assert(views(r@) =~= target);
        }
        i = i + 1;
    }
    assert(failures_view(failures@).take(failures@.len() as int) =~= failures_view(failures@));
    r
}

/// Decides the command `raw` of `user`, split into `words`, under `config`.
/// `same_file[j]` tells whether the first word names the same file as the binary of rule
/// `j` (through a link). The first rule that matches decides: the command is allowed,
/// recorded with the rule and subcommand path, and its action planned. When none
/// matches, it is denied and recorded with every failure.
pub fn decide(config: &Config, user: &str, raw: &str, words: &[String], same_file: &[bool]) -> (v:
    Verdict)
    ensures
        ({
            let (m, f) = match_from(*config, views(words@), same_file@, 0);
            match m {
                None => {
                    &&& v.matched is None
                    &&& event_is(v.event, user@, raw@, "denied"@, "no matching rule"@)
                    &&& f.len() == 0 ==> v.event.failures is None
                    &&& f.len() > 0 ==> (v.event.failures matches Some(fs) && views(fs@)
                        == failure_texts(f))
                    &&& v.outcome matches Err(GuardError::NoMatch { command, failures })
                    &&& command@ == raw@
                    &&& failures_view(failures@) == f
                },
                Some(mv) => {
                    &&& v.matched matches Some(res)
                    &&& res@ == mv
                    &&& event_is(
                        v.event,
                        user@,
                        raw@,
                        "allowed"@,
                        allowed_detail(mv.rule_index, mv.path),
                    )
                    &&& v.event.failures is None
                    &&& 0 <= mv.rule_index < config.rules@.len()
                    &&& planned(
                        *config,
                        config.rules@[mv.rule_index],
                        mv.path,
                        res.captures,
                        views(words@),
                        v.outcome,
                    )
                },
            }
        }),
{
    proof {
        crate::engine::laws::law_match_path_in_rule_tree(*config, views(words@), same_file@);
    }
    match match_command_with_files(config, words, same_file) {
        Ok(m) => {
            let mut detail = owned("rule[");
            push_decimal(&mut detail, m.rule_index as u64);
            append(&mut detail, "] via ");
            let p = join_strings(&m.subcommand_path, "/");
            append(&mut detail, p.as_str());
            let event = AuditEvent::allowed(user, raw, detail.as_str());
            let outcome = execute(
                config,
                &config.rules[m.rule_index],
                &m.subcommand_path,
                &m.captures,
                words,
            );
            Verdict { event, matched: Some(m), outcome }
        },
        Err(GuardError::NoMatch { command: _, failures }) => {
            let texts = failure_strings(&failures);
            assert(texts@.len() == views(texts@).len());
            assert(failures@.len() == failures_view(failures@).len());
            let event = AuditEvent::denied(user, raw, "no matching rule", texts.as_slice());
            Verdict {
                event,
                matched: None,
                outcome: Err(GuardError::NoMatch { command: owned(raw), failures }),
            }
        },
        Err(e) => {
            proof {
                assert(false);
            }
            let event = AuditEvent::denied(user, raw, "", &[]);
            Verdict { event, matched: None, outcome: Err(e) }
        },
    }
}

} // verus!
