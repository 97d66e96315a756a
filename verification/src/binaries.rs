//! Validation of a configuration's binaries: every `Run` rule must name a binary that
//! exists, and one that is a symbolic link only where the rule allows links.
use vstd::prelude::*;

use crate::config::action::Action;
use crate::config::rule::Rule;
use crate::config::Config;
use crate::errors::GuardError;
use crate::text::{append, dec_nat, join, join_strings, owned, push_decimal, views};

verus! {

/// What the file system says about the binary of a rule.
#[derive(Debug)]
pub enum BinaryState {
    /// There is no file at the path.
    Missing,
    /// A file that is not a symbolic link.
    Plain,
    /// A symbolic link, with the path it resolves to when it can be resolved.
    Symlink { resolved: Option<String> },
    /// The file's metadata could not be read; the error's message.
    Unreadable { error: String },
}

/// The state of the binary of rule `i`: `Plain` when none was given.
pub open spec fn state_at(states: Seq<BinaryState>, i: int) -> BinaryState {
    if 0 <= i < states.len() {
        states[i]
    } else {
        BinaryState::Plain
    }
}

/// The start of every message about rule `i`'s binary `b`: `rule[I]: `.
pub open spec fn rule_prefix(i: int) -> Seq<char> {
    "rule["@ + dec_nat(i as nat) + "]: "@
}

/// The error about rule `r` (number `i`) whose binary is in state `st`, if any: a `Run`
/// binary must exist, and unless the rule allows symbolic links it must not be one (nor
/// one whose metadata cannot be read).
pub open spec fn binary_error(r: Rule, i: int, st: BinaryState) -> Option<Seq<char>> {
    match r.action {
        Action::Run { binary, .. } => match st {
            BinaryState::Missing => Some(
                rule_prefix(i) + "binary '"@ + binary@ + "' does not exist"@,
            ),
            BinaryState::Plain => None,
            BinaryState::Symlink { resolved } => if r.implicit_symlinks {
                None
            } else {
                match resolved {
                    Some(p) => Some(
                        rule_prefix(i) + "binary '"@ + binary@ + "' is a symlink \u{2192} '"@ + p@
                            + "' (implicit_symlinks disabled). Set implicit_symlinks=true or use the real path."@,
                    ),
                    None => Some(
                        rule_prefix(i) + "binary '"@ + binary@
                            + "' is a symlink and cannot be resolved (implicit_symlinks disabled)"@,
                    ),
                }
            },
            BinaryState::Unreadable { error } => if r.implicit_symlinks {
                None
            } else {
                Some(rule_prefix(i) + "cannot stat binary '"@ + binary@ + "': "@ + error@)
            },
        },
        _ => None,
    }
}

/// The errors about the first `n` rules, in rule order.
pub open spec fn binary_errors_upto(rules: Seq<Rule>, states: Seq<BinaryState>, n: int) -> Seq<
    Seq<char>,
>
    decreases n,
{
    if n <= 0 {
        Seq::empty()
    } else {
        let prev = binary_errors_upto(rules, states, n - 1);
        match binary_error(rules[n - 1], n - 1, state_at(states, n - 1)) {
            Some(e) => prev.push(e),
            None => prev,
        }
    }
}

fn state_or_plain(states: &[BinaryState], i: usize) -> (r: &BinaryState)
    ensures
        *r == state_at(states@, i as int),
{
    if i < states.len() {
        &states[i]
    } else {
        &BinaryState::Plain
    }
}

fn error_for(r: &Rule, i: usize, st: &BinaryState) -> (e: Option<String>)
    ensures
        match e {
            Some(m) => binary_error(*r, i as int, *st) == Some(m@),
            None => binary_error(*r, i as int, *st) is None,
        },
{
    match &r.action {
        Action::Run { binary, .. } => {
            let mut m = owned("rule[");
            push_decimal(&mut m, i as u64);
            append(&mut m, "]: ");
            match st {
                BinaryState::Missing => {
                    append(&mut m, "binary '");
                    append(&mut m, binary.as_str());
                    append(&mut m, "' does not exist");
                    Some(m)
                },
                BinaryState::Plain => None,
                BinaryState::Symlink { resolved } => {
                    if r.implicit_symlinks {
                        return None;
                    }
                    append(&mut m, "binary '");
                    append(&mut m, binary.as_str());
                    match resolved {
                        Some(p) => {
                            append(&mut m, "' is a symlink \u{2192} '");
                            append(&mut m, p.as_str());
                            append(
                                &mut m,
                                "' (implicit_symlinks disabled). Set implicit_symlinks=true or use the real path.",
                            );
                        },
                        None => {
                            append(
                                &mut m,
                                "' is a symlink and cannot be resolved (implicit_symlinks disabled)",
                            );
                        },
                    }
                    Some(m)
                },
                BinaryState::Unreadable { error } => {
                    if r.implicit_symlinks {
                        return None;
                    }
                    append(&mut m, "cannot stat binary '");
                    append(&mut m, binary.as_str());
                    append(&mut m, "': ");
                    append(&mut m, error.as_str());
                    Some(m)
                },
            }
        },
        _ => None,
    }
}

/// The errors about the binaries of the rules of `config`, in rule order, where
/// `states[i]` is what the file system says about the binary of rule `i` (a `Plain`
/// file when not given).
pub fn binary_errors(config: &Config, states: &[BinaryState]) -> (r: Vec<String>)
    ensures
        views(r@) == binary_errors_upto(config.rules@, states@, config.rules@.len() as int),
{
    let mut r: Vec<String> = Vec::new();
    let mut i: usize = 0;
    assert(views(r@) =~= Seq::<Seq<char>>::empty());
    while i < config.rules.len()
        invariant
            i <= config.rules@.len(),
            views(r@) == binary_errors_upto(config.rules@, states@, i as int),
        decreases config.rules.len() - i,
    {
        let st = state_or_plain(states, i);
        match error_for(&config.rules[i], i, st) {
            Some(m) => {
                let ghost before = views(r@);
                let ghost mv = m@;
                r.push(m);
                assert(views(r@) =~= before.push(mv));
            },
            None => {},
        }
        i = i + 1;
    }
    r
}

/// The message of a failed validation: `N validation error(s): E1; E2`.
pub open spec fn validation_msg(errors: Seq<Seq<char>>) -> Seq<char> {
    dec_nat(errors.len()) + " validation error(s): "@ + join(errors, "; "@)
}

/// The outcome of a validation with these errors: success when there are none.
pub fn validation_result(errors: &[String]) -> (r: Result<(), GuardError>)
    ensures
        errors@.len() == 0 ==> r is Ok,
        errors@.len() > 0 ==> (r matches Err(GuardError::Validation(m)) && m@ == validation_msg(
            views(errors@),
        )),
{
    if errors.len() == 0 {
        return Ok(());
    }
    let mut m = String::new();
    push_decimal(&mut m, errors.len() as u64);
    append(&mut m, " validation error(s): ");
    let j = join_strings(errors, "; ");
    append(&mut m, j.as_str());
    assert(m@ =~= validation_msg(views(errors@)));
    Err(GuardError::Validation(m))
}

} // verus!
