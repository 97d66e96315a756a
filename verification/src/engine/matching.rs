use vstd::prelude::*;

use super::flags::{eff_style, expand, expand_flags, flag_like, is_flag_like};
use super::parse::{parse_arg_pattern, pattern_of};
use super::types::{ArgPattern, MatchResult, MatchView, PatternV, TemplateType, TmplV};
use super::validate::{quoted, validate_spec, validate_template_value};
use crate::config::arg::ArgStyle;
use crate::config::contract::Contract;
use crate::config::rule::{Rule, command_name_of};
use crate::config::subcommand::Subcommand;
use crate::config::Config;
use crate::errors::{FailureV, GuardError, MatchFailure, failures_view};
use crate::strmap::StrMap;
use crate::text::{
    append, chars_of, clone_strings, contains_string, extend_strings, dec_nat, ends_with, find_char, find_char_in, join,
    join_strings, owned, push_decimal, starts_with, str_eq, string_of_range, views,
};

verus! {

// ---------------------------------------------------------------------------
// The model of matching
// ---------------------------------------------------------------------------

pub open spec fn fail_v(
    rule_idx: int,
    path: Seq<Seq<char>>,
    at: int,
    tok: Seq<char>,
    reason: Seq<char>,
) -> FailureV {
    FailureV { rule_index: rule_idx, path, at_token: at, token: tok, reason }
}

/// The separator between a flag and its inline value.
pub open spec fn sep_of(style: ArgStyle) -> char {
    match style {
        ArgStyle::Dos => ':',
        _ => '=',
    }
}

/// The position after the flags that can be consumed from `i` on: an allowed flag (and
/// the non-flag token after it, as its value), or an allowed flag with an inline value.
pub open spec fn consume(
    argv: Seq<Seq<char>>,
    i: int,
    allowed: Seq<Seq<char>>,
    style: ArgStyle,
) -> int
    decreases argv.len() - i,
{
    if i < 0 || i >= argv.len() {
        i
    } else {
        let tok = argv[i];
        if allowed.contains(tok) {
            if i + 1 < argv.len() && !flag_like(argv[i + 1], style) {
                consume(argv, i + 2, allowed, style)
            } else {
                consume(argv, i + 1, allowed, style)
            }
        } else {
            match find_char(tok, sep_of(style)) {
                Some(p) => if allowed.contains(tok.take(p)) {
                    consume(argv, i + 1, allowed, style)
                } else {
                    i
                },
                None => i,
            }
        }
    }
}

pub open spec fn olen(o: Option<Seq<char>>) -> int {
    match o {
        Some(p) => p.len() as int,
        None => 0,
    }
}

/// Whether pattern `p` takes token `tok`.
pub open spec fn applies(tok: Seq<char>, p: PatternV, style: ArgStyle) -> bool {
    match p {
        PatternV::Literal(l) => tok == l,
        PatternV::Inline { flag, .. } => starts_with(tok, flag.push(sep_of(style))),
        PatternV::Template(_) => !flag_like(tok, style),
        PatternV::Context { prefix, suffix, .. } => {
            &&& (prefix is None || starts_with(tok, prefix->0))
            &&& (suffix is None || ends_with(tok, suffix->0))
            &&& olen(prefix) < tok.len() - olen(suffix)
        },
    }
}

/// The part of `tok` that pattern `p` captures.
pub open spec fn captured_value(tok: Seq<char>, p: PatternV) -> Seq<char> {
    match p {
        PatternV::Inline { flag, .. } => tok.skip(flag.len() + 1int),
        PatternV::Context { prefix, suffix, .. } => tok.subrange(
            olen(prefix),
            tok.len() - olen(suffix),
        ),
        _ => tok,
    }
}

/// The template of a pattern, if it has one.
pub open spec fn pattern_template(p: PatternV) -> Option<TmplV> {
    match p {
        PatternV::Literal(_) => None,
        PatternV::Template(t) => Some(t),
        PatternV::Context { template, .. } => Some(template),
        PatternV::Inline { template, .. } => Some(template),
    }
}

/// The first pattern, from index `k` on, that takes `tok`.
pub open spec fn first_applicable(tok: Seq<char>, pats: Seq<PatternV>, style: ArgStyle, k: int) -> Option<
    int,
>
    decreases pats.len() - k,
{
    if k < 0 || k >= pats.len() {
        None
    } else if applies(tok, pats[k], style) {
        Some(k)
    } else {
        first_applicable(tok, pats, style, k + 1)
    }
}

/// The name under which a template's value is captured: a contract's own name, else
/// `arg_N` for the N-th unnamed capture.
pub open spec fn capture_key(t: TmplV, counter: nat) -> Seq<char> {
    match t {
        TmplV::ContractRef(n) => n,
        _ => "arg_"@ + dec_nat(counter),
    }
}

pub open spec fn next_counter(t: TmplV, counter: nat) -> nat {
    match t {
        TmplV::ContractRef(_) => counter,
        _ => counter + 1,
    }
}

/// The state of matching the remaining tokens against an `args` list.
pub struct ArgsState {
    pub caps: Map<Seq<char>, Seq<char>>,
    pub counter: nat,
    pub has_error: bool,
    pub fails: Seq<FailureV>,
}

/// One token `tok` at position `i`: the first pattern that takes it captures its value
/// (recording a failure when the value is not valid); a token no pattern takes is a
/// failure.
pub open spec fn arg_step(
    contracts: StrMap<Contract>,
    i: int,
    tok: Seq<char>,
    path: Seq<Seq<char>>,
    pats: Seq<PatternV>,
    style: ArgStyle,
    rule_idx: int,
    st: ArgsState,
) -> ArgsState {
    match first_applicable(tok, pats, style, 0) {
        None => ArgsState {
            has_error: true,
            fails: st.fails.push(fail_v(rule_idx, path, i, tok, "not in allowed args"@)),
            ..st
        },
        Some(k) => match pattern_template(pats[k]) {
            None => st,
            Some(t) => {
                let val = captured_value(tok, pats[k]);
                let st1 = ArgsState {
                    caps: st.caps.insert(capture_key(t, st.counter), val),
                    counter: next_counter(t, st.counter),
                    ..st
                };
                match validate_spec(val, t, contracts) {
                    Ok(_) => st1,
                    Err(r) => ArgsState {
                        has_error: true,
                        fails: st1.fails.push(fail_v(rule_idx, path, i, tok, r)),
                        ..st1
                    },
                }
            },
        },
    }
}

/// The state after every token from `i` on has been taken.
pub open spec fn args_loop(
    contracts: StrMap<Contract>,
    argv: Seq<Seq<char>>,
    path: Seq<Seq<char>>,
    pats: Seq<PatternV>,
    style: ArgStyle,
    rule_idx: int,
    i: int,
    st: ArgsState,
) -> ArgsState
    decreases argv.len() - i,
{
    if i < 0 || i >= argv.len() {
        st
    } else {
        args_loop(
            contracts,
            argv,
            path,
            pats,
            style,
            rule_idx,
            i + 1,
            arg_step(contracts, i, argv[i], path, pats, style, rule_idx, st),
        )
    }
}

pub open spec fn patterns_of(args: Seq<Seq<char>>) -> Seq<PatternV> {
    args.map_values(|a: Seq<char>| pattern_of(a))
}

pub open spec fn init_state() -> ArgsState {
    ArgsState { caps: Map::empty(), counter: 0, has_error: false, fails: Seq::empty() }
}

/// Matching the tokens from `start` on against `args`: a match unless some token failed,
/// and the failures recorded.
pub open spec fn match_args(
    contracts: StrMap<Contract>,
    argv: Seq<Seq<char>>,
    start: int,
    path: Seq<Seq<char>>,
    args: Seq<Seq<char>>,
    style: ArgStyle,
    rule_idx: int,
) -> (Option<MatchView>, Seq<FailureV>) {
    let st = args_loop(contracts, argv, path, patterns_of(args), style, rule_idx, start, init_state());
    if st.has_error {
        (None, st.fails)
    } else {
        (Some(MatchView { rule_index: rule_idx, captures: st.caps, path }), st.fails)
    }
}

/// The first subcommand, from index `k` on, named `tok`.
pub open spec fn first_sub(subs: Seq<Subcommand>, tok: Seq<char>, k: int) -> Option<int>
    decreases subs.len() - k,
{
    if k < 0 || k >= subs.len() {
        None
    } else if subs[k].name@ == tok {
        Some(k)
    } else {
        first_sub(subs, tok, k + 1)
    }
}

/// Matching from `start` (a subcommand name) against the subcommands `subs`, at a level
/// where `outer_style` is the arg style in force: the named subcommand's flags are
/// consumed in its own style (its `arg_style`, else `outer_style`), then either a nested
/// subcommand named by the next token is matched, with that style in force around it, or
/// the rest is matched against the subcommand's `args`.
pub open spec fn walk(
    groups: StrMap<Vec<String>>,
    contracts: StrMap<Contract>,
    outer_style: ArgStyle,
    subs: Seq<Subcommand>,
    argv: Seq<Seq<char>>,
    start: int,
    path: Seq<Seq<char>>,
    rule_idx: int,
    nested: bool,
) -> (Option<MatchView>, Seq<FailureV>)
    decreases subs,
{
    let tok = argv[start];
    match first_sub(subs, tok, 0) {
        None => (
            None,
            seq![
                fail_v(
                    rule_idx,
                    path,
                    start,
                    tok,
                    if nested {
                        "unknown nested subcommand"@
                    } else {
                        "unknown subcommand"@
                    },
                ),
            ],
        ),
        Some(k) => if 0 <= k < subs.len() {
            let sub = subs[k];
            let np = path.push(sub.name@);
            let style = eff_style(outer_style, sub.arg_style);
            let allowed = expand(groups, views(sub.flag_groups@), views(sub.flags@));
            let i = consume(argv, start + 1, allowed, style);
            if 0 <= i < argv.len() && first_sub(sub.subcommands@, argv[i], 0) is Some {
                walk(groups, contracts, style, sub.subcommands@, argv, i, np, rule_idx, true)
            } else {
                match_args(contracts, argv, i, np, views(sub.args@), style, rule_idx)
            }
        } else {
            (None, Seq::empty())
        },
    }
}

/// The path a rule's failures start from once its command token is got past: the
/// command's name, or nothing for a rule without one.
pub open spec fn command_path(rule: Rule) -> Seq<Seq<char>> {
    match command_name_of(rule) {
        Some(c) => seq![c],
        None => Seq::empty(),
    }
}

/// The failures `fs`, each with `pre` put before its path.
pub open spec fn under_path(fs: Seq<FailureV>, pre: Seq<Seq<char>>) -> Seq<FailureV> {
    Seq::new(
        fs.len(),
        |k: int| fail_v(fs[k].rule_index, pre + fs[k].path, fs[k].at_token, fs[k].token, fs[k].reason),
    )
}

/// Matching `argv` against rule `rule_idx`. `same_file` says whether `argv[0]` names the
/// same file as the rule's binary. A failure found once the command token is got past
/// records a path that starts with the command's name (`command_path`); a match records
/// only the subcommands it went through.
#[verifier::opaque]
pub open spec fn try_rule(cfg: Config, rule_idx: int, argv: Seq<Seq<char>>, same_file: bool) -> (
    Option<MatchView>,
    Seq<FailureV>,
) {
    let rule = cfg.rules@[rule_idx];
    if argv.len() == 0 {
        (None, seq![fail_v(rule_idx, Seq::empty(), 0, Seq::empty(), "empty command"@)])
    } else {
        let cmd = command_name_of(rule);
        if cmd is Some && argv[0] != cmd->0 && !same_file {
            (
                None,
                seq![
                    fail_v(
                        rule_idx,
                        Seq::empty(),
                        0,
                        argv[0],
                        "expected "@ + quoted(cmd->0),
                    ),
                ],
            )
        } else {
            let start = if cmd is Some {
                1int
            } else {
                0int
            };
            let top = expand(cfg.flag_groups, views(rule.flag_groups@), views(rule.flags@));
            let i = consume(argv, start, top, rule.arg_style);
            if i >= argv.len() {
                if rule.subcommands@.len() == 0 && rule.args@.len() == 0 {
                    (
                        Some(
                            MatchView {
                                rule_index: rule_idx,
                                captures: Map::empty(),
                                path: Seq::empty(),
                            },
                        ),
                        Seq::empty(),
                    )
                } else {
                    (
                        None,
                        seq![
                            fail_v(
                                rule_idx,
                                command_path(rule),
                                argv.len() - 1,
                                argv.last(),
                                "no arguments after command"@,
                            ),
                        ],
                    )
                }
            } else if rule.subcommands@.len() > 0 {
                let (m, f) = walk(
                    cfg.flag_groups,
                    cfg.contracts,
                    rule.arg_style,
                    rule.subcommands@,
                    argv,
                    i,
                    Seq::empty(),
                    rule_idx,
                    false,
                );
                (m, under_path(f, command_path(rule)))
            } else if rule.args@.len() > 0 {
                let (m, f) = match_args(
                    cfg.contracts,
                    argv,
                    i,
                    Seq::empty(),
                    views(rule.args@),
                    rule.arg_style,
                    rule_idx,
                );
                (m, under_path(f, command_path(rule)))
            } else {
                (
                    None,
                    seq![
                        fail_v(
                            rule_idx,
                            command_path(rule),
                            i,
                            argv[i],
                            "unexpected arguments after command"@,
                        ),
                    ],
                )
            }
        }
    }
}

pub open spec fn same_at(same_file: Seq<bool>, k: int) -> bool {
    0 <= k < same_file.len() && same_file[k]
}

/// Trying the rules from `k` on, in order: the first match, and the failures of the
/// rules tried before it (all of them when none matches).
pub open spec fn match_from(cfg: Config, argv: Seq<Seq<char>>, same_file: Seq<bool>, k: int) -> (
    Option<MatchView>,
    Seq<FailureV>,
)
    decreases cfg.rules@.len() - k,
{
    if k < 0 || k >= cfg.rules@.len() {
        (None, Seq::empty())
    } else {
        let (r, f) = try_rule(cfg, k, argv, same_at(same_file, k));
        if r is Some {
            (r, Seq::empty())
        } else {
            let (r2, f2) = match_from(cfg, argv, same_file, k + 1);
            (r2, f + f2)
        }
    }
}

// ---------------------------------------------------------------------------
// Executable matching
// ---------------------------------------------------------------------------

/// Appends a failure to `failures`.
pub fn record_failure(
    failures: &mut Vec<MatchFailure>,
    rule_idx: usize,
    path: &[String],
    at_token: usize,
    token: &str,
    reason: &str,
)
    ensures
        failures_view(final(failures)@) == failures_view(old(failures)@).push(
            fail_v(rule_idx as int, views(path@), at_token as int, token@, reason@),
        ),
{
    let f = MatchFailure {
        rule_index: rule_idx,
        subcommand_path: clone_strings(path),
        at_token,
        token: owned(token),
        reason: owned(reason),
    };
    failures.push(f);
    assert(failures_view(failures@) =~= failures_view(old(failures)@).push(
        fail_v(rule_idx as int, views(path@), at_token as int, token@, reason@),
    ));
}


/// Appends the failures of `local` to `failures`, each with `pre` put before its path.
fn push_under_path(failures: &mut Vec<MatchFailure>, local: &Vec<MatchFailure>, pre: &[String])
    ensures
        failures_view(final(failures)@) == failures_view(old(failures)@) + under_path(
            failures_view(local@),
            views(pre@),
        ),
{
    let ghost lv = failures_view(local@);
    let ghost pv = views(pre@);
    let mut k: usize = 0;
    while k < local.len()
        invariant
            k <= local@.len(),
            lv == failures_view(local@),
            pv == views(pre@),
            failures_view(failures@) == failures_view(old(failures)@) + under_path(lv, pv).take(
                k as int,
            ),
        decreases local.len() - k,
    {
        let f = &local[k];
        assert(lv[k as int] == f@);
        let mut p = clone_strings(pre);
        extend_strings(&mut p, f.subcommand_path.as_slice());
        let ghost before = failures_view(failures@);
        record_failure(failures, f.rule_index, p.as_slice(), f.at_token, f.token.as_str(), f.reason.as_str());
        assert(under_path(lv, pv).take(k as int + 1) =~= under_path(lv, pv).take(k as int).push(
            under_path(lv, pv)[k as int],
        ));
        k = k + 1;
    }
    assert(under_path(lv, pv).take(local@.len() as int) =~= under_path(lv, pv));
}

/// Consumes allowed flags from `start` on and gives the position after them (see
/// `consume`).
pub fn consume_flags(argv: &[String], start: usize, allowed: &[String], style: &ArgStyle) -> (r:
    usize)
    ensures
        r as int == consume(views(argv@), start as int, views(allowed@), *style),
        start <= r,
        r <= start || r <= argv@.len(),
{
    let ghost av = views(argv@);
    let ghost al = views(allowed@);
    let mut i = start;
    while i < argv.len()
        invariant
            start <= i,
            i <= start || i <= argv@.len(),
            av == views(argv@),
            al == views(allowed@),
            consume(av, start as int, al, *style) == consume(av, i as int, al, *style),
        ensures
            start <= i,
            i <= start || i <= argv@.len(),
            consume(av, start as int, al, *style) == i as int,
        decreases argv.len() - i,
    {
        let token = &argv[i];
        assert(av[i as int] == token@);
        if contains_string(allowed, token.as_str()) {
            i = i + 1;
            if i < argv.len() && !is_flag_like(argv[i].as_str(), style) {
                assert(av[i as int] == argv@[i as int]@);
                i = i + 1;
            }
            continue;
        }
        let sep = match style {
            ArgStyle::Dos => ':',
            _ => '=',
        };
        let tv = chars_of(token.as_str());
        proof {
            crate::text::lemma_find_char(tv@, sep);
        }
        match find_char_in(&tv, sep) {
            Some(sep_pos) => {
                let flag_part = string_of_range(&tv, 0, sep_pos);
                assert(flag_part@ =~= tv@.take(sep_pos as int));
                if contains_string(allowed, flag_part.as_str()) {
                    i = i + 1;
                    continue;
                }
                assert(sep == sep_of(*style));
                assert(consume(av, i as int, al, *style) == i as int);
                break;
            },
            None => {
                assert(sep == sep_of(*style));
                assert(consume(av, i as int, al, *style) == i as int);
                break;
            },
        }
    }
    i
}

/// Whether `pattern` takes `token`, and what it captures: `None` when it does not take it,
/// `Some(None)` for a literal, `Some(Some(value))` for a template.
fn try_pattern(token: &str, pattern: &ArgPattern, style: &ArgStyle) -> (r: Option<Option<String>>)
    ensures
        r is Some <==> applies(token@, pattern@, *style),
        r matches Some(o) ==> (o is None <==> pattern_template(pattern@) is None),
        r matches Some(Some(v)) ==> v@ == captured_value(token@, pattern@),
{
    match pattern {
        ArgPattern::Literal(lit) => {
            if str_eq(token, lit.as_str()) {
                Some(None)
            } else {
                None
            }
        },
        ArgPattern::InlineFlag { flag, .. } => {
            let mut prefix = flag.clone();
            let sep = match style {
                ArgStyle::Dos => ":",
                _ => "=",
            };
            append(&mut prefix, sep);
            proof {
                reveal_strlit(":");
                reveal_strlit("=");
                assert(prefix@ =~= flag@.push(sep_of(*style)));
            }
            let tv = chars_of(token);
            let pv = chars_of(prefix.as_str());
            if crate::text::chars_start_with(&tv, &pv) {
                let value = string_of_range(&tv, pv.len(), tv.len());
                assert(value@ =~= token@.skip(flag@.len() + 1int));
                Some(Some(value))
            } else {
                None
            }
        },
        ArgPattern::Template(_) => {
            if !is_flag_like(token, style) {
                Some(Some(owned(token)))
            } else {
                None
            }
        },
        ArgPattern::TemplateContext { prefix, suffix, .. } => {
            let tv = chars_of(token);
            let mut works = true;
            let mut base_start: usize = 0;
            let mut cut: usize = 0;
            match prefix {
                Some(p) => {
                    let pv = chars_of(p.as_str());
                    if !crate::text::chars_start_with(&tv, &pv) {
                        works = false;
                    }
                    base_start = pv.len();
                },
                None => {},
            }
            match suffix {
                Some(s) => {
                    let sv = chars_of(s.as_str());
                    if !crate::text::chars_end_with(&tv, &sv) {
                        works = false;
                    }
                    cut = sv.len();
                },
                None => {},
            }
            if works && cut <= tv.len() && base_start < tv.len() - cut {
                let value = string_of_range(&tv, base_start, tv.len() - cut);
                Some(Some(value))
            } else {
                None
            }
        },
    }
}

/// The name under which a template's value is captured (see `capture_key`); advances
/// the counter of unnamed captures.
pub fn capture_name(template: &TemplateType, counter: &mut usize) -> (r: String)
    requires
        *old(counter) < usize::MAX,
    ensures
        r@ == capture_key(template@, *old(counter) as nat),
        *final(counter) as nat == next_counter(template@, *old(counter) as nat),
{
    match template {
        TemplateType::ContractRef(name) => name.clone(),
        _ => {
            let n = *counter;
            *counter = *counter + 1;
            let mut r = owned("arg_");
            push_decimal(&mut r, n as u64);
            r
        },
    }
}

pub proof fn lemma_string_view_insert(m0: StrMap<String>, m1: StrMap<String>, k: String, v: String)
    requires
        m1.lookup(k@) == Some(v),
        forall|j: Seq<char>| j != k@ ==> #[trigger] m1.lookup(j) == m0.lookup(j),
    ensures
        m1.string_view() == m0.string_view().insert(k@, v@),
{
    assert(m1.string_view() =~= m0.string_view().insert(k@, v@));
}

fn parse_patterns(args: &[String]) -> (r: Vec<ArgPattern>)
    ensures
        Seq::new(r@.len(), |j: int| r@[j]@) == patterns_of(views(args@)),
{
    let mut r: Vec<ArgPattern> = Vec::new();
    let mut i: usize = 0;
    while i < args.len()
        invariant
            i <= args@.len(),
            r@.len() == i,
            forall|j: int| 0 <= j < i ==> #[trigger] r@[j]@ == pattern_of(args@[j]@),
        decreases args.len() - i,
    {
        r.push(parse_arg_pattern(args[i].as_str()));
        i = i + 1;
    }
    assert(Seq::new(r@.len(), |j: int| r@[j]@) =~= patterns_of(views(args@)));
    r
}

/// Matches the tokens from `start` on against `args` (see `match_args`), appending the
/// failures to `failures`.
pub fn match_remaining_args_inner(
    rule_idx: usize,
    config: &Config,
    argv: &[String],
    start: usize,
    path: &[String],
    args: &[String],
    style: &ArgStyle,
    failures: &mut Vec<MatchFailure>,
) -> (r: Result<MatchResult, ()>)
    ensures
        ({
            let (m, f) = match_args(
                config.contracts,
                views(argv@),
                start as int,
                views(path@),
                views(args@),
                *style,
                rule_idx as int,
            );
            &&& failures_view(final(failures)@) == failures_view(old(failures)@) + f
            &&& match r {
                Ok(res) => m == Some(res@),
                Err(_) => m is None,
            }
        }),
{
    let ghost av = views(argv@);
    let ghost pv = views(path@);
    let patterns = parse_patterns(args);
    let ghost pats = patterns_of(views(args@));
    let ghost f0 = failures_view(failures@);
    let mut captures: StrMap<String> = StrMap::new();
    let mut arg_counter: usize = 0;
    let mut i = start;
    let mut has_error = false;
    proof {
        assert(captures.string_view() =~= Map::<Seq<char>, Seq<char>>::empty());
        assert(failures_view(failures@).skip(f0.len() as int) =~= Seq::<FailureV>::empty());
        assert(failures_view(failures@).take(f0.len() as int) =~= f0);
        let st0 = ArgsState {
            caps: captures.string_view(),
            counter: arg_counter as nat,
            has_error,
            fails: failures_view(failures@).skip(f0.len() as int),
        };
        assert(st0 == init_state());
    }
    while i < argv.len()
        invariant
            av == views(argv@),
            pv == views(path@),
            pats == patterns_of(views(args@)),
            Seq::new(patterns@.len(), |j: int| patterns@[j]@) == pats,
            start <= i,
            i <= start || i <= argv@.len(),
            arg_counter <= i - start,
            ({
                let st = ArgsState {
                    caps: captures.string_view(),
                    counter: arg_counter as nat,
                    has_error,
                    fails: failures_view(failures@).skip(f0.len() as int),
                };
                &&& failures_view(failures@).take(f0.len() as int) == f0
                &&& f0.len() <= failures_view(failures@).len()
                &&& args_loop(
                    config.contracts,
                    av,
                    pv,
                    pats,
                    *style,
                    rule_idx as int,
                    start as int,
                    init_state(),
                ) == args_loop(config.contracts, av, pv, pats, *style, rule_idx as int, i as int, st)
            }),
        decreases argv.len() - i,
    {
        let token = &argv[i];
        assert(av[i as int] == token@);
        let ghost st = ArgsState {
            caps: captures.string_view(),
            counter: arg_counter as nat,
            has_error,
            fails: failures_view(failures@).skip(f0.len() as int),
        };
        let mut j: usize = 0;
        let mut found: Option<(usize, Option<String>)> = None;
        while found.is_none() && j < patterns.len()
            invariant
                j <= patterns@.len(),
                Seq::new(patterns@.len(), |q: int| patterns@[q]@) == pats,
                found is None ==> first_applicable(token@, pats, *style, 0) == first_applicable(
                    token@,
                    pats,
                    *style,
                    j as int,
                ),
                found matches Some((k, o)) ==> {
                    &&& first_applicable(token@, pats, *style, 0) == Some(k as int)
                    &&& k < patterns@.len()
                    &&& (o is None <==> pattern_template(pats[k as int]) is None)
                    &&& (o matches Some(v) ==> v@ == captured_value(token@, pats[k as int]))
                },
            decreases patterns.len() - j + (if found is None {
                1int
            } else {
                0int
            }),
        {
            assert(pats[j as int] == patterns@[j as int]@);
            match try_pattern(token.as_str(), &patterns[j], style) {
                Some(o) => {
                    found = Some((j, o));
                },
                None => {
                    j = j + 1;
                },
            }
        }
        match found {
            None => {
                assert(first_applicable(token@, pats, *style, 0) is None);
                record_failure(failures, rule_idx, path, i, token.as_str(), "not in allowed args");
                has_error = true;
                proof {
                    assert(failures_view(failures@).skip(f0.len() as int) =~= st.fails.push(
                        fail_v(rule_idx as int, pv, i as int, token@, "not in allowed args"@),
                    ));
                    assert(failures_view(failures@).take(f0.len() as int) =~= f0);
                }
            },
            Some((k, None)) => {},
            Some((k, Some(value))) => {
                assert(pats[k as int] == patterns@[k as int]@);
                let template = match &patterns[k] {
                    ArgPattern::Literal(_) => {
                        assert(false);
                        return Err(());
                    },
                    ArgPattern::Template(t) => t,
                    ArgPattern::TemplateContext { template, .. } => template,
                    ArgPattern::InlineFlag { template, .. } => template,
                };
                assert(pattern_template(pats[k as int]) == Some(template@));
                let cap_name = capture_name(template, &mut arg_counter);
                match validate_template_value(value.as_str(), template, &config.contracts) {
                    Err(reason) => {
                        record_failure(
                            failures,
                            rule_idx,
                            path,
                            i,
                            token.as_str(),
                            reason.as_str(),
                        );
                        has_error = true;
                        proof {
                            assert(failures_view(failures@).skip(f0.len() as int) =~= st.fails.push(
                                fail_v(rule_idx as int, pv, i as int, token@, reason@),
                            ));
                            assert(failures_view(failures@).take(f0.len() as int) =~= f0);
                        }
                    },
                    Ok(()) => {},
                }
                let ghost before = captures;
                captures.insert(cap_name, value);
                proof {
                    lemma_string_view_insert(before, captures, cap_name, value);
                }
            },
        }
        i = i + 1;
    }
    proof {
        assert(failures_view(failures@) =~= f0 + failures_view(failures@).skip(f0.len() as int));
    }
    if has_error {
        Err(())
    } else {
        Ok(MatchResult { rule_index: rule_idx, captures, subcommand_path: clone_strings(path) })
    }
}

/// The first subcommand of `subs` named `name`.
pub fn find_sub(subs: &[Subcommand], name: &str) -> (r: Option<usize>)
    ensures
        r matches Some(k) ==> first_sub(subs@, name@, 0) == Some(k as int) && k < subs@.len(),
        r is None ==> first_sub(subs@, name@, 0) is None,
{
    let mut k: usize = 0;
    while k < subs.len()
        invariant
            k <= subs@.len(),
            first_sub(subs@, name@, 0) == first_sub(subs@, name@, k as int),
        decreases subs.len() - k,
    {
        if str_eq(subs[k].name.as_str(), name) {
            return Some(k);
        }
        k = k + 1;
    }
    None
}

/// The arg style in force for `sub` where `outer` is in force around it: its own
/// style, else `outer`.
fn inherited_style(outer: ArgStyle, sub: &Subcommand) -> (r: ArgStyle)
    ensures
        r == eff_style(outer, sub.arg_style),
{
    match sub.arg_style {
        Some(st) => st,
        None => outer,
    }
}

fn walk_level(
    rule_idx: usize,
    config: &Config,
    argv: &[String],
    start: usize,
    path: &[String],
    subs: &Vec<Subcommand>,
    outer_style: ArgStyle,
    nested: bool,
    failures: &mut Vec<MatchFailure>,
) -> (r: Result<MatchResult, ()>)
    requires
        rule_idx < config.rules@.len(),
        start < argv@.len(),
    ensures
        ({
            let (m, f) = walk(
                config.flag_groups,
                config.contracts,
                outer_style,
                subs@,
                views(argv@),
                start as int,
                views(path@),
                rule_idx as int,
                nested,
            );
            &&& failures_view(final(failures)@) == failures_view(old(failures)@) + f
            &&& match r {
                Ok(res) => m == Some(res@),
                Err(_) => m is None,
            }
        }),
    decreases subs@,
{
    let token = &argv[start];
    assert(views(argv@)[start as int] == token@);
    match find_sub(subs, token.as_str()) {
        None => {
            let reason = if nested {
                "unknown nested subcommand"
            } else {
                "unknown subcommand"
            };
            record_failure(failures, rule_idx, path, start, token.as_str(), reason);
            assert(failures_view(failures@) =~= failures_view(old(failures)@) + seq![
                fail_v(rule_idx as int, views(path@), start as int, token@, reason@),
            ]);
            Err(())
        },
        Some(k) => {
            let sub = &subs[k];
            let mut new_path = clone_strings(path);
            proof {
                crate::text::lemma_views_push(new_path@, sub.name);
            }
            new_path.push(sub.name.clone());
            let sub_style = inherited_style(outer_style, sub);
            let sub_flags = expand_flags(&config.flag_groups, &sub.flag_groups, &sub.flags);
            let i = consume_flags(argv, start + 1, &sub_flags, &sub_style);
            let go_deeper = if i < argv.len() {
                assert(views(argv@)[i as int] == argv@[i as int]@);
                find_sub(&sub.subcommands, argv[i].as_str()).is_some()
            } else {
                false
            };
            if go_deeper {
                proof {
                    assert(decreases_to!(subs@ => subs@[k as int]));
                    assert(decreases_to!(subs@[k as int] => subs@[k as int].subcommands));
                    assert(decreases_to!(subs@[k as int].subcommands => subs@[k as int].subcommands@));
                }
                walk_level(
                    rule_idx,
                    config,
                    argv,
                    i,
                    &new_path,
                    &sub.subcommands,
                    sub_style,
                    true,
                    failures,
                )
            } else {
                match_remaining_args_inner(
                    rule_idx,
                    config,
                    argv,
                    i,
                    &new_path,
                    &sub.args,
                    &sub_style,
                    failures,
                )
            }
        },
    }
}

/// Matches from `start` against the rule's top-level subcommands (see `walk`).
pub fn walk_subcommands(
    rule_idx: usize,
    config: &Config,
    argv: &[String],
    start: usize,
    path: &[String],
    failures: &mut Vec<MatchFailure>,
) -> (r: Result<MatchResult, ()>)
    requires
        rule_idx < config.rules@.len(),
        start < argv@.len(),
    ensures
        ({
            let rule = config.rules@[rule_idx as int];
            let (m, f) = walk(
                config.flag_groups,
                config.contracts,
                rule.arg_style,
                rule.subcommands@,
                views(argv@),
                start as int,
                views(path@),
                rule_idx as int,
                false,
            );
            &&& failures_view(final(failures)@) == failures_view(old(failures)@) + f
            &&& match r {
                Ok(res) => m == Some(res@),
                Err(_) => m is None,
            }
        }),
{
    let rule = &config.rules[rule_idx];
    walk_level(rule_idx, config, argv, start, path, &rule.subcommands, rule.arg_style, false, failures)
}

/// Matches from `start` against the nested subcommands of `parent` (see `walk`), where
/// `parent_style` is the arg style in force at `parent`; a nested subcommand without its
/// own style inherits it.
pub fn walk_subcommands_nested(
    rule_idx: usize,
    config: &Config,
    argv: &[String],
    start: usize,
    path: &[String],
    parent: &Subcommand,
    parent_style: ArgStyle,
    failures: &mut Vec<MatchFailure>,
) -> (r: Result<MatchResult, ()>)
    requires
        rule_idx < config.rules@.len(),
        start < argv@.len(),
    ensures
        ({
            let (m, f) = walk(
                config.flag_groups,
                config.contracts,
                parent_style,
                parent.subcommands@,
                views(argv@),
                start as int,
                views(path@),
                rule_idx as int,
                true,
            );
            &&& failures_view(final(failures)@) == failures_view(old(failures)@) + f
            &&& match r {
                Ok(res) => m == Some(res@),
                Err(_) => m is None,
            }
        }),
{
    walk_level(rule_idx, config, argv, start, path, &parent.subcommands, parent_style, true, failures)
}

/// Matches `argv` against rule `rule_idx` (see `try_rule`); `same_file` tells whether
/// `argv[0]` names the same file as the rule's binary.
pub fn try_match_rule(
    rule_idx: usize,
    config: &Config,
    argv: &[String],
    same_file: bool,
    failures: &mut Vec<MatchFailure>,
) -> (r: Result<MatchResult, ()>)
    requires
        rule_idx < config.rules@.len(),
    ensures
        ({
            let (m, f) = try_rule(*config, rule_idx as int, views(argv@), same_file);
            &&& failures_view(final(failures)@) == failures_view(old(failures)@) + f
            &&& match r {
                Ok(res) => m == Some(res@),
                Err(_) => m is None,
            }
        }),
{
    reveal(try_rule);
    let ghost av = views(argv@);
    let empty: Vec<String> = Vec::new();
    assert(views(empty@) =~= Seq::<Seq<char>>::empty());
    if argv.len() == 0 {
        record_failure(failures, rule_idx, &empty, 0, "", "empty command");
        proof {
            reveal_strlit("");
            assert(""@ =~= Seq::<char>::empty());
            assert(failures_view(failures@) =~= failures_view(old(failures)@) + seq![
                fail_v(rule_idx as int, Seq::empty(), 0, Seq::empty(), "empty command"@),
            ]);
        }
        return Err(());
    }
    let rule = &config.rules[rule_idx];
    let mut start: usize = 0;
    assert(av[0] == argv@[0]@);
    match rule.command_name() {
        Some(cmd) => {
            if !str_eq(argv[0].as_str(), cmd) && !same_file {
                let mut reason = owned("expected ");
                append(&mut reason, "'");
                append(&mut reason, cmd);
                append(&mut reason, "'");
                assert(reason@ =~= "expected "@ + quoted(cmd@));
                record_failure(failures, rule_idx, &empty, 0, argv[0].as_str(), reason.as_str());
                assert(failures_view(failures@) =~= failures_view(old(failures)@) + seq![
                    fail_v(rule_idx as int, Seq::empty(), 0, av[0], reason@),
                ]);
                return Err(());
            }
            start = 1;
        },
        None => {},
    }
    let mut prefix: Vec<String> = Vec::new();
    match rule.command_name() {
        Some(cmd) => prefix.push(owned(cmd)),
        None => {},
    }
    assert(views(prefix@) =~= command_path(*rule));
    let top_flags = expand_flags(&config.flag_groups, &rule.flag_groups, &rule.flags);
    let i = consume_flags(argv, start, &top_flags, &rule.arg_style);
    if i >= argv.len() {
        if rule.subcommands.len() == 0 && rule.args.len() == 0 {
            let res = MatchResult { rule_index: rule_idx, captures: StrMap::new(), subcommand_path: empty };
            assert(res.captures.string_view() =~= Map::<Seq<char>, Seq<char>>::empty());
            assert(failures_view(failures@) =~= failures_view(old(failures)@) + Seq::<FailureV>::empty());
            return Ok(res);
        }
        let last = argv.len() - 1;
        assert(av[last as int] == argv@[last as int]@);
        record_failure(failures, rule_idx, &prefix, last, argv[last].as_str(), "no arguments after command");
        assert(failures_view(failures@) =~= failures_view(old(failures)@) + seq![
            fail_v(rule_idx as int, command_path(*rule), last as int, av.last(), "no arguments after command"@),
        ]);
        return Err(());
    }
    if rule.subcommands.len() > 0 || rule.args.len() > 0 {
        let mut local: Vec<MatchFailure> = Vec::new();
        assert(failures_view(local@) =~= Seq::<FailureV>::empty());
        let r = if rule.subcommands.len() > 0 {
            walk_subcommands(rule_idx, config, argv, i, &empty, &mut local)
        } else {
            match_remaining_args_inner(rule_idx, config, argv, i, &empty, &rule.args, &rule.arg_style, &mut local)
        };
        assert(failures_view(local@) =~= Seq::<FailureV>::empty() + failures_view(local@));
        push_under_path(failures, &local, &prefix);
        r
    } else {
        assert(av[i as int] == argv@[i as int]@);
        record_failure(failures, rule_idx, &prefix, i, argv[i].as_str(), "unexpected arguments after command");
        assert(failures_view(failures@) =~= failures_view(old(failures)@) + seq![
            fail_v(rule_idx as int, command_path(*rule), i as int, av[i as int], "unexpected arguments after command"@),
        ]);
        Err(())
    }
}

/// Matches `argv` against the rules in order, taking `same_file[k]` as whether `argv[0]`
/// names the same file as rule `k`'s binary (missing entries count as false). Gives the
/// first match; when no rule matches, `NoMatch` with the command and every rule's
/// failures, in rule order.
pub fn match_command_with_files(config: &Config, argv: &[String], same_file: &[bool]) -> (r: Result<
    MatchResult,
    GuardError,
>)
    ensures
        ({
            let (m, f) = match_from(*config, views(argv@), same_file@, 0);
            match r {
                Ok(res) => m == Some(res@),
                Err(e) => {
                    &&& m is None
                    &&& e matches GuardError::NoMatch { command, failures }
                    &&& command@ == join(views(argv@), " "@)
                    &&& failures_view(failures@) == f
                },
            }
        }),
{
    let ghost av = views(argv@);
    let mut all_failures: Vec<MatchFailure> = Vec::new();
    let mut rule_idx: usize = 0;
    assert(failures_view(all_failures@) =~= Seq::<FailureV>::empty());
    while rule_idx < config.rules.len()
        invariant
            rule_idx <= config.rules@.len(),
            av == views(argv@),
            match_from(*config, av, same_file@, 0) == ({
                let (m, f) = match_from(*config, av, same_file@, rule_idx as int);
                (m, failures_view(all_failures@) + f)
            }),
        decreases config.rules.len() - rule_idx,
    {
        let mut failures: Vec<MatchFailure> = Vec::new();
        let same = rule_idx < same_file.len() && same_file[rule_idx];
        let ghost before = failures_view(all_failures@);
        match try_match_rule(rule_idx, config, argv, same, &mut failures) {
            Ok(res) => {
                return Ok(res);
            },
            Err(()) => {},
        }
        let ghost fresh = failures_view(failures@);
        assert(fresh =~= Seq::<FailureV>::empty() + fresh);
        all_failures.append(&mut failures);
        proof {
            assert(failures_view(all_failures@) =~= before + fresh);
            let (m2, f2) = match_from(*config, av, same_file@, rule_idx + 1);
            assert(before + (fresh + f2) =~= (before + fresh) + f2);
        }
        rule_idx = rule_idx + 1;
    }
    assert(failures_view(all_failures@) + Seq::<FailureV>::empty() =~= failures_view(all_failures@));
    Err(GuardError::NoMatch { command: join_strings(argv, " "), failures: all_failures })
}

/// Matches `argv` against the rules in order, treating no command token as another name
/// of a rule's binary (see `match_command_with_files`).
pub fn match_command(config: &Config, argv: &[String]) -> (r: Result<MatchResult, GuardError>)
    ensures
        ({
            let (m, f) = match_from(*config, views(argv@), Seq::empty(), 0);
            match r {
                Ok(res) => m == Some(res@),
                Err(e) => {
                    &&& m is None
                    &&& e matches GuardError::NoMatch { command, failures }
                    &&& command@ == join(views(argv@), " "@)
                    &&& failures_view(failures@) == f
                },
            }
        }),
{
    let none: Vec<bool> = Vec::new();
    match_command_with_files(config, argv, &none)
}

} // verus!
