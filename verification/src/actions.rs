//! What a matched rule does: the final argv of a `Run` action, the path checks, and the
//! plan of the action that the caller carries out.
use vstd::prelude::*;

use crate::config::action::Action;
use crate::config::rule::{Rule, command_name_of};
use crate::config::subcommand::Subcommand;
use crate::config::Config;
use crate::engine::matching::{find_sub, first_sub};
use crate::engine::validate::quoted;
use crate::errors::GuardError;
use crate::strmap::StrMap;
use crate::text::{
    append, clone_strings, dec_nat, lemma_parse_usize_dec_nat, extend_strings, lemma_views_push, owned, parse_usize, parse_usize_str, split_char,
    split_str, str_eq, views,
};

verus! {

// ---------------------------------------------------------------------------
// The argv of a `Run` action
// ---------------------------------------------------------------------------

/// The static arguments of a `Run` action.
pub open spec fn action_args(rule: Rule) -> Seq<Seq<char>> {
    match rule.action {
        Action::Run { args, .. } => views(args@),
        _ => Seq::empty(),
    }
}

/// How many leading user tokens are the command's own name (0 or 1).
pub open spec fn command_skip(rule: Rule, user: Seq<Seq<char>>) -> int {
    match command_name_of(rule) {
        Some(c) => if user.len() > 0 && user[0] == c {
            1
        } else {
            0
        },
        None => 0,
    }
}

/// Walks the user tokens from `i`: a token equal to the next name of `path` is a routing
/// token and is replaced by that subcommand's name and its `pre_args`; other tokens pass
/// through. Gives the output so far and where the walk stopped.
pub open spec fn inject(
    subs: Seq<Subcommand>,
    path: Seq<Seq<char>>,
    user: Seq<Seq<char>>,
    i: int,
    level: int,
    out: Seq<Seq<char>>,
) -> (Seq<Seq<char>>, int)
    decreases user.len() - i,
{
    if 0 <= i < user.len() && 0 <= level < path.len() {
        let tok = user[i];
        if tok == path[level] {
            match first_sub(subs, path[level], 0) {
                Some(k) => if 0 <= k < subs.len() {
                    inject(
                        subs[k].subcommands@,
                        path,
                        user,
                        i + 1,
                        level + 1,
                        out + seq![subs[k].name@] + views(subs[k].pre_args@),
                    )
                } else {
                    inject(subs, path, user, i + 1, level + 1, out)
                },
                None => inject(subs, path, user, i + 1, level + 1, out),
            }
        } else {
            inject(subs, path, user, i + 1, level, out.push(tok))
        }
    } else {
        (out, i)
    }
}

/// The static arguments that come before the user's tokens: the action's own args, then
/// the rule's `pre_args`.
pub open spec fn fixed_args(rule: Rule) -> Seq<Seq<char>> {
    action_args(rule) + views(rule.pre_args@)
}

/// The argv a `Run` action runs with: the action's args and the rule's `pre_args`, then
/// the user's tokens after the command name with each routing token replaced by its
/// subcommand's name and `pre_args`, then the rest of the user's tokens.
pub open spec fn command_argv(rule: Rule, path: Seq<Seq<char>>, user: Seq<Seq<char>>) -> Seq<
    Seq<char>,
> {
    let (out, i) = inject(rule.subcommands@, path, user, command_skip(rule, user), 0, fixed_args(rule));
    out + user.skip(i)
}

/// The first subcommand of `subs` named `name`.
pub fn find_sub_by_name<'a>(subs: &'a [Subcommand], name: &str) -> (r: Option<&'a Subcommand>)
    ensures
        r matches Some(s) ==> exists|k: int|
            first_sub(subs@, name@, 0) == Some(k) && 0 <= k < subs@.len() && *s == subs@[k],
        r is None ==> first_sub(subs@, name@, 0) is None,
{
    match find_sub(subs, name) {
        Some(k) => Some(&subs[k]),
        None => None,
    }
}

/// The final argv for a `Run` action (see `command_argv`).
pub fn build_command_argv(rule: &Rule, subcommand_path: &[String], user_argv: &[String]) -> (r: Vec<
    String,
>)
    ensures
        views(r@) == command_argv(*rule, views(subcommand_path@), views(user_argv@)),
{
    let ghost uv = views(user_argv@);
    let ghost pv = views(subcommand_path@);
    let mut argv: Vec<String> = match &rule.action {
        Action::Run { args, .. } => clone_strings(args.as_slice()),
        _ => Vec::new(),
    };
    assert(views(argv@) =~= action_args(*rule));
    extend_strings(&mut argv, rule.pre_args.as_slice());
    let mut i: usize = 0;
    match rule.command_name() {
        Some(cmd) => {
            if i < user_argv.len() && str_eq(user_argv[i].as_str(), cmd) {
                assert(uv[0] == user_argv@[0]@);
                i = i + 1;
            }
        },
        None => {},
    }
    assert(i as int == command_skip(*rule, uv));
    let mut sub_level: usize = 0;
    let mut subs: &[Subcommand] = rule.subcommands.as_slice();
    while i < user_argv.len() && sub_level < subcommand_path.len()
        invariant
            uv == views(user_argv@),
            pv == views(subcommand_path@),
            i <= user_argv@.len(),
            sub_level <= subcommand_path@.len(),
            inject(rule.subcommands@, pv, uv, command_skip(*rule, uv), 0, fixed_args(*rule))
                == inject(subs@, pv, uv, i as int, sub_level as int, views(argv@)),
        decreases user_argv.len() - i,
    {
        let token = &user_argv[i];
        assert(uv[i as int] == token@);
        assert(pv[sub_level as int] == subcommand_path@[sub_level as int]@);
        i = i + 1;
        if str_eq(token.as_str(), subcommand_path[sub_level].as_str()) {
            proof {
                crate::engine::laws::lemma_first_sub_range(subs@, pv[sub_level as int], 0);
            }
            match find_sub(subs, subcommand_path[sub_level].as_str()) {
                Some(k) => {
                    let sub = &subs[k];
                    let ghost before = views(argv@);
                    proof {
                        lemma_views_push(argv@, sub.name);
                    }
                    argv.push(sub.name.clone());
                    extend_strings(&mut argv, sub.pre_args.as_slice());
                    assert(before + seq![sub.name@] + views(sub.pre_args@) =~= views(argv@));
                    subs = sub.subcommands.as_slice();
                },
                None => {},
            }
            sub_level = sub_level + 1;
        } else {
            proof {
                lemma_views_push(argv@, *token);
            }
            argv.push(token.clone());
        }
    }
    let ghost mid = views(argv@);
    let start = i;
    while i < user_argv.len()
        invariant
            uv == views(user_argv@),
            start <= i <= user_argv@.len(),
            views(argv@) == mid + uv.subrange(start as int, i as int),
        decreases user_argv.len() - i,
    {
        proof {
            lemma_views_push(argv@, user_argv@[i as int]);
        }
        argv.push(user_argv[i].clone());
        i = i + 1;
        assert(views(argv@) =~= mid + uv.subrange(start as int, i as int));
    }
    assert(uv.subrange(start as int, i as int) =~= uv.skip(start as int));
    argv
}

proof fn lemma_inject_prefix(
    subs: Seq<Subcommand>,
    path: Seq<Seq<char>>,
    user: Seq<Seq<char>>,
    i: int,
    level: int,
    out: Seq<Seq<char>>,
)
    ensures
        ({
            let (o, j) = inject(subs, path, user, i, level, out);
            &&& out.len() <= o.len()
            &&& o.take(out.len() as int) == out
        }),
    decreases user.len() - i,
{
    if 0 <= i < user.len() && 0 <= level < path.len() {
        let tok = user[i];
        if tok == path[level] {
            match first_sub(subs, path[level], 0) {
                Some(k) => if 0 <= k < subs.len() {
                    let o2 = out + seq![subs[k].name@] + views(subs[k].pre_args@);
                    lemma_inject_prefix(subs[k].subcommands@, path, user, i + 1, level + 1, o2);
                    let (o, j) = inject(subs[k].subcommands@, path, user, i + 1, level + 1, o2);
                    assert(o.take(o2.len() as int).take(out.len() as int) =~= o.take(out.len() as int));
                    assert(o2.take(out.len() as int) =~= out);
                } else {
                    lemma_inject_prefix(subs, path, user, i + 1, level + 1, out);
                },
                None => lemma_inject_prefix(subs, path, user, i + 1, level + 1, out),
            }
        } else {
            lemma_inject_prefix(subs, path, user, i + 1, level, out.push(tok));
            let (o, j) = inject(subs, path, user, i + 1, level, out.push(tok));
            assert(o.take(out.len() + 1int).take(out.len() as int) =~= o.take(out.len() as int));
            assert(out.push(tok).take(out.len() as int) =~= out);
        }
    } else {
        assert(out.take(out.len() as int) =~= out);
    }
}

/// The action's own arguments, then the rule's `pre_args`, always come first in the argv
/// a `Run` action runs with, before anything the user typed.
pub proof fn law_static_args_come_first(rule: Rule, path: Seq<Seq<char>>, user: Seq<Seq<char>>)
    ensures
        command_argv(rule, path, user).len() >= fixed_args(rule).len(),
        command_argv(rule, path, user).take(fixed_args(rule).len() as int) == fixed_args(rule),
        command_argv(rule, path, user).take(action_args(rule).len() as int) == action_args(rule),
{
    let out = fixed_args(rule);
    lemma_inject_prefix(rule.subcommands@, path, user, command_skip(rule, user), 0, out);
    let (o, j) = inject(rule.subcommands@, path, user, command_skip(rule, user), 0, out);
    let all = o + user.skip(j);
    assert(all.take(out.len() as int) =~= o.take(out.len() as int));
    assert(all.take(action_args(rule).len() as int) =~= all.take(out.len() as int).take(
        action_args(rule).len() as int,
    ));
    assert(out.take(action_args(rule).len() as int) =~= action_args(rule));
}

/// Without a subcommand path, the user's tokens after the command name pass through
/// unchanged after the action's own arguments and the rule's `pre_args`.
pub proof fn law_plain_command_passes_tokens_through(rule: Rule, user: Seq<Seq<char>>)
    ensures
        command_argv(rule, Seq::empty(), user) == action_args(rule) + views(rule.pre_args@)
            + user.skip(command_skip(rule, user)),
{
}

// ---------------------------------------------------------------------------
// Path checks
// ---------------------------------------------------------------------------

/// A path segment that names something: not empty and not `.`.
pub open spec fn is_normal_seg(s: Seq<char>) -> bool {
    s.len() > 0 && s != seq!['.']
}

pub open spec fn normal_segs(parts: Seq<Seq<char>>) -> Seq<Seq<char>>
    decreases parts.len(),
{
    if parts.len() == 0 {
        Seq::empty()
    } else if is_normal_seg(parts.last()) {
        normal_segs(parts.drop_last()).push(parts.last())
    } else {
        normal_segs(parts.drop_last())
    }
}

/// The components of a path as `Path::components` gives them: the root `/` or a leading
/// `.`, then the segments other than empty ones and `.`.
pub open spec fn path_components(p: Seq<char>) -> Seq<Seq<char>> {
    let segs = normal_segs(split_char(p, '/'));
    if p.len() > 0 && p[0] == '/' {
        seq![seq!['/']] + segs
    } else if p.len() > 0 && p[0] == '.' && (p.len() == 1 || p[1] == '/') {
        seq![seq!['.']] + segs
    } else {
        segs
    }
}

/// `Path::starts_with`: the components of `base` are a prefix of those of `p`.
pub open spec fn path_starts_with(p: Seq<char>, base: Seq<char>) -> bool {
    let a = path_components(p);
    let b = path_components(base);
    b.len() <= a.len() && a.take(b.len() as int) == b
}

/// The components of a path (see `path_components`).
pub fn components_of(p: &str) -> (r: Vec<String>)
    ensures
        views(r@) == path_components(p@),
{
    let parts = split_str(p, '/');
    let ghost pv = views(parts@);
    let mut out: Vec<String> = Vec::new();
    let v = crate::text::chars_of(p);
    if v.len() > 0 && v[0] == '/' {
        out.push(owned("/"));
        proof {
            reveal_strlit("/");
            assert("/"@ =~= seq!['/']);
            assert(views(out@) =~= seq![seq!['/']]);
        }
    } else if v.len() > 0 && v[0] == '.' && (v.len() == 1 || v[1] == '/') {
        out.push(owned("."));
        proof {
            reveal_strlit(".");
            assert("."@ =~= seq!['.']);
            assert(views(out@) =~= seq![seq!['.']]);
        }
    }
    let ghost head = views(out@);
    let mut j: usize = 0;
    assert(normal_segs(pv.take(0)) =~= Seq::<Seq<char>>::empty());
    assert(views(out@) =~= head + normal_segs(pv.take(0)));
    while j < parts.len()
        invariant
            j <= parts@.len(),
            pv == views(parts@),
            views(out@) == head + normal_segs(pv.take(j as int)),
        decreases parts.len() - j,
    {
        let seg = &parts[j];
        assert(pv.take(j + 1).drop_last() =~= pv.take(j as int));
        assert(pv.take(j + 1).last() == seg@);
        let sv = crate::text::chars_of(seg.as_str());
        let normal = sv.len() > 0 && !(sv.len() == 1 && sv[0] == '.');
        assert(normal == is_normal_seg(seg@)) by {
            if sv.len() == 1 {
                assert(seg@ =~= seq![seg@[0]]);
            }
        }
        if normal {
            proof {
                lemma_views_push(out@, *seg);
            }
            out.push(seg.clone());
        }
        j = j + 1;
    }
    assert(pv.take(parts@.len() as int) =~= pv);
    proof {
        if p@.len() > 0 && p@[0] == '/' {
            assert(head =~= seq![seq!['/']]);
        } else if p@.len() > 0 && p@[0] == '.' && (p@.len() == 1 || p@[1] == '/') {
            assert(head =~= seq![seq!['.']]);
        } else {
            assert(head =~= Seq::<Seq<char>>::empty());
        }
        assert(views(out@) =~= path_components(p@));
    }
    out
}

fn components_prefix(a: &Vec<String>, b: &Vec<String>) -> (r: bool)
    ensures
        r == (views(b@).len() <= views(a@).len() && views(a@).take(views(b@).len() as int) == views(
            b@,
        )),
{
    if b.len() > a.len() {
        return false;
    }
    let mut i: usize = 0;
    while i < b.len()
        invariant
            b@.len() <= a@.len(),
            i <= b@.len(),
            forall|j: int| 0 <= j < i ==> a@[j]@ == b@[j]@,
        decreases b.len() - i,
    {
        if !str_eq(a[i].as_str(), b[i].as_str()) {
            assert(views(a@).take(b@.len() as int)[i as int] != views(b@)[i as int]);
            return false;
        }
        i = i + 1;
    }
    assert(views(a@).take(b@.len() as int) =~= views(b@));
    true
}

/// Whether path `p` lies under `base`, component by component (`Path::starts_with`).
pub fn path_under(p: &str, base: &str) -> (r: bool)
    ensures
        r == path_starts_with(p@, base@),
{
    let a = components_of(p);
    let b = components_of(base);
    components_prefix(&a, &b)
}

/// Accepts a resolved (canonical) path that lies under one of `roots`; otherwise
/// `PathNotAllowed` with the message `path 'P' not within any allowed root`.
pub fn within_roots(resolved: &str, roots: &[String]) -> (r: Result<(), GuardError>)
    ensures
        r is Ok <==> exists|j: int| 0 <= j < roots@.len() && path_starts_with(resolved@, #[trigger] roots@[j]@),
        r matches Err(e) ==> e matches GuardError::PathNotAllowed(m) && m@ == "path "@ + quoted(
            resolved@,
        ) + " not within any allowed root"@,
{
    let mut i: usize = 0;
    while i < roots.len()
        invariant
            i <= roots@.len(),
            forall|j: int| 0 <= j < i ==> !path_starts_with(resolved@, #[trigger] roots@[j]@),
        decreases roots.len() - i,
    {
        if path_under(resolved, roots[i].as_str()) {
            return Ok(());
        }
        i = i + 1;
    }
    let mut m = owned("path '");
    append(&mut m, resolved);
    append(&mut m, "' not within any allowed root");
    assert(m@ =~= "path "@ + quoted(resolved@) + " not within any allowed root"@) by {
        reveal_strlit("path '");
        reveal_strlit("path ");
        reveal_strlit("'");
        reveal_strlit("' not within any allowed root");
        reveal_strlit(" not within any allowed root");
    }
    Err(GuardError::PathNotAllowed(m))
}

/// Every path lies within itself: an allowed root is itself allowed.
pub proof fn law_path_within_itself(p: Seq<char>)
    ensures
        path_starts_with(p, p),
{
    assert(path_components(p).take(path_components(p).len() as int) =~= path_components(p));
}

/// Lying within is transitive: a path within `b`, where `b` lies within `c`, lies
/// within `c`.
pub proof fn law_path_within_transitive(a: Seq<char>, b: Seq<char>, c: Seq<char>)
    requires
        path_starts_with(a, b),
        path_starts_with(b, c),
    ensures
        path_starts_with(a, c),
{
    let pa = path_components(a);
    let pb = path_components(b);
    let pc = path_components(c);
    assert(pa.take(pc.len() as int) =~= pa.take(pb.len() as int).take(pc.len() as int));
}

/// Two paths whose components differ at a place both have are not within each other:
/// a sibling such as `/var/logs` is not within `/var/log`.
pub proof fn law_diverging_paths_not_within(a: Seq<char>, b: Seq<char>, k: int)
    requires
        0 <= k < path_components(a).len(),
        k < path_components(b).len(),
        path_components(a)[k] != path_components(b)[k],
    ensures
        !path_starts_with(a, b),
        !path_starts_with(b, a),
{
    let pa = path_components(a);
    let pb = path_components(b);
    if path_starts_with(a, b) {
        assert(pa.take(pb.len() as int)[k] == pb[k]);
    }
    if path_starts_with(b, a) {
        assert(pb.take(pa.len() as int)[k] == pa[k]);
    }
}

/// Two paths within each other have the same components.
pub proof fn law_mutually_within_paths_are_equal(a: Seq<char>, b: Seq<char>)
    requires
        path_starts_with(a, b),
        path_starts_with(b, a),
    ensures
        path_components(a) == path_components(b),
{
    let pa = path_components(a);
    let pb = path_components(b);
    assert(pa.take(pb.len() as int) =~= pa);
}

/// A root is within the allowed roots: whatever the other roots, a canonical path equal
/// to one of them is accepted.
pub proof fn law_each_root_is_allowed(roots: Seq<String>, j: int)
    requires
        0 <= j < roots.len(),
    ensures
        exists|k: int| 0 <= k < roots.len() && path_starts_with(roots[j]@, #[trigger] roots[k]@),
{
    law_path_within_itself(roots[j]@);
}

// ---------------------------------------------------------------------------
// Action plans
// ---------------------------------------------------------------------------

/// What to carry out for a matched rule.
#[derive(Debug)]
pub enum ActionPlan {
    /// Run `binary` with `argv`.
    Run { binary: String, argv: Vec<String>, implicit_symlinks: bool, timeout_ms: u64 },
    /// Print the file at `path` (to be checked against the roots), if it has at most
    /// `max_bytes` bytes.
    ReadFile { path: String, max_bytes: usize },
    /// Print the last `lines` lines of the file at `path`.
    TailFile { path: String, lines: usize },
    /// Describe the path `path` (its parent to be checked against the roots).
    StatPath { path: String },
    /// List the directory at `path`.
    ListDir { path: String },
    /// Print `text`.
    ShowHelp { text: String },
}

pub open spec fn action_error(r: Result<ActionPlan, GuardError>, msg: Seq<char>) -> bool {
    r matches Err(e) && e matches GuardError::Action(m) && m@ == msg
}

pub open spec fn missing_capture_msg(pc: Seq<char>) -> Seq<char> {
    "missing capture "@ + quoted(pc)
}

pub open spec fn unknown_root_set_msg(rs: Seq<char>) -> Seq<char> {
    "unknown root set "@ + quoted(rs)
}

fn action_err(prefix: &str, name: &str) -> (r: GuardError)
    ensures
        r matches GuardError::Action(m) && m@ == prefix@ + quoted(name@),
{
    let mut m = owned(prefix);
    append(&mut m, "'");
    append(&mut m, name);
    append(&mut m, "'");
    GuardError::Action(m)
}

/// The plan of a `Run` rule: its binary with the argv of `build_command_argv`.
pub fn execute_run(
    config: &Config,
    rule: &Rule,
    subcommand_path: &[String],
    user_argv: &[String],
) -> (r: Result<ActionPlan, GuardError>)
    ensures
        match rule.action {
            Action::Run { binary, timeout, .. } => r matches Ok(
                ActionPlan::Run { binary: b, argv, implicit_symlinks, timeout_ms },
            ) && b@ == binary@ && views(argv@) == command_argv(
                *rule,
                views(subcommand_path@),
                views(user_argv@),
            ) && implicit_symlinks == rule.implicit_symlinks && timeout_ms == timeout.millis,
            _ => action_error(r, "expected Run action"@),
        },
{
    match &rule.action {
        Action::Run { binary, timeout, .. } => {
            let argv = build_command_argv(rule, subcommand_path, user_argv);
            Ok(
                ActionPlan::Run {
                    binary: binary.clone(),
                    argv,
                    implicit_symlinks: rule.implicit_symlinks,
                    timeout_ms: timeout.millis,
                },
            )
        },
        _ => Err(GuardError::Action(owned("expected Run action"))),
    }
}

/// The checks shared by the path actions: the path capture must be present and the
/// root set must be `roots`.
fn captured_path(captures: &StrMap<String>, path_capture: &String, root_set: &String) -> (r: Result<
    String,
    GuardError,
>)
    ensures
        match captures.lookup(path_capture@) {
            None => r matches Err(e) && e matches GuardError::Action(m) && m@
                == missing_capture_msg(path_capture@),
            Some(p) => if root_set@ != "roots"@ {
                r matches Err(e) && e matches GuardError::Action(m) && m@ == unknown_root_set_msg(
                    root_set@,
                )
            } else {
                r matches Ok(s) && s@ == p@
            },
        },
{
    let path = match captures.get(path_capture.as_str()) {
        Some(p) => p,
        None => {
            return Err(action_err("missing capture ", path_capture.as_str()));
        },
    };
    if !str_eq(root_set.as_str(), "roots") {
        return Err(action_err("unknown root set ", root_set.as_str()));
    }
    Ok(path.clone())
}

/// The plan of a `ReadFile` action.
pub fn execute_read_file(config: &Config, action: &Action, captures: &StrMap<String>) -> (r: Result<
    ActionPlan,
    GuardError,
>)
    ensures
        match *action {
            Action::ReadFile { path_capture, root_set } => match captures.lookup(path_capture@) {
                None => action_error(r, missing_capture_msg(path_capture@)),
                Some(p) => if root_set@ != "roots"@ {
                    action_error(r, unknown_root_set_msg(root_set@))
                } else {
                    r matches Ok(ActionPlan::ReadFile { path, max_bytes }) && path@ == p@
                        && max_bytes == config.global.max_read_bytes
                },
            },
            _ => action_error(r, "expected ReadFile action"@),
        },
{
    match action {
        Action::ReadFile { path_capture: pc, root_set } => {
            let path = captured_path(captures, pc, root_set)?;
            Ok(ActionPlan::ReadFile { path, max_bytes: config.global.max_read_bytes })
        },
        _ => Err(GuardError::Action(owned("expected ReadFile action"))),
    }
}

/// The number of lines a `TailFile` action asks for: the value of its lines capture when
/// that parses as a `usize`, else its default.
pub open spec fn requested_lines(
    captures: StrMap<String>,
    lines_capture: Option<String>,
    default_lines: usize,
) -> int {
    match lines_capture {
        Some(lc) => match captures.lookup(lc@) {
            Some(l) => match parse_usize(l@) {
                Some(n) => n,
                None => default_lines as int,
            },
            None => default_lines as int,
        },
        None => default_lines as int,
    }
}

/// The plan of a `TailFile` action; the line count is capped at `max_tail_lines`.
pub fn execute_tail_file(config: &Config, action: &Action, captures: &StrMap<String>) -> (r: Result<
    ActionPlan,
    GuardError,
>)
    ensures
        match *action {
            Action::TailFile { path_capture, lines_capture, default_lines, root_set } => match captures.lookup(
                path_capture@,
            ) {
                None => action_error(r, missing_capture_msg(path_capture@)),
                Some(p) => if root_set@ != "roots"@ {
                    action_error(r, unknown_root_set_msg(root_set@))
                } else {
                    r matches Ok(ActionPlan::TailFile { path, lines }) && path@ == p@ && lines
                        == vstd::math::min(
                        requested_lines(*captures, lines_capture, default_lines),
                        config.global.max_tail_lines as int,
                    )
                },
            },
            _ => action_error(r, "expected TailFile action"@),
        },
{
    match action {
        Action::TailFile { path_capture: pc, lines_capture, default_lines, root_set } => {
            let mut lines = *default_lines;
            match lines_capture {
                Some(lc) => match captures.get(lc.as_str()) {
                    Some(l) => match parse_usize_str(l.as_str()) {
                        Some(n) => {
                            lines = n;
                        },
                        None => {},
                    },
                    None => {},
                },
                None => {},
            }
            let path = captured_path(captures, pc, root_set)?;
            let capped = if lines < config.global.max_tail_lines {
                lines
            } else {
                config.global.max_tail_lines
            };
            Ok(ActionPlan::TailFile { path, lines: capped })
        },
        _ => Err(GuardError::Action(owned("expected TailFile action"))),
    }
}

/// The plan of a `StatPath` action.
pub fn execute_stat_path(config: &Config, action: &Action, captures: &StrMap<String>) -> (r: Result<
    ActionPlan,
    GuardError,
>)
    ensures
        match *action {
            Action::StatPath { path_capture, root_set } => match captures.lookup(path_capture@) {
                None => action_error(r, missing_capture_msg(path_capture@)),
                Some(p) => if root_set@ != "roots"@ {
                    action_error(r, unknown_root_set_msg(root_set@))
                } else {
                    r matches Ok(ActionPlan::StatPath { path }) && path@ == p@
                },
            },
            _ => action_error(r, "expected StatPath action"@),
        },
{
    match action {
        Action::StatPath { path_capture: pc, root_set } => {
            let path = captured_path(captures, pc, root_set)?;
            Ok(ActionPlan::StatPath { path })
        },
        _ => Err(GuardError::Action(owned("expected StatPath action"))),
    }
}

/// The plan of a `ListDir` action.
pub fn execute_list_dir(config: &Config, action: &Action, captures: &StrMap<String>) -> (r: Result<
    ActionPlan,
    GuardError,
>)
    ensures
        match *action {
            Action::ListDir { path_capture, root_set } => match captures.lookup(path_capture@) {
                None => action_error(r, missing_capture_msg(path_capture@)),
                Some(p) => if root_set@ != "roots"@ {
                    action_error(r, unknown_root_set_msg(root_set@))
                } else {
                    r matches Ok(ActionPlan::ListDir { path }) && path@ == p@
                },
            },
            _ => action_error(r, "expected ListDir action"@),
        },
{
    match action {
        Action::ListDir { path_capture: pc, root_set } => {
            let path = captured_path(captures, pc, root_set)?;
            Ok(ActionPlan::ListDir { path })
        },
        _ => Err(GuardError::Action(owned("expected ListDir action"))),
    }
}

/// The plan of `ShowHelp`: the configured help text.
pub fn execute_show_help(config: &Config) -> (r: Result<ActionPlan, GuardError>)
    ensures
        r matches Ok(ActionPlan::ShowHelp { text }) && text@ == config.global.help_text@,
{
    Ok(ActionPlan::ShowHelp { text: config.global.help_text.clone() })
}

/// What executing the matched `rule` gives, by the kind of its action: the plan that
/// carries out the action, or the error for a capture it lacks or a root set it does not
/// know.
pub open spec fn planned(
    config: Config,
    rule: Rule,
    sub_path: Seq<Seq<char>>,
    captures: StrMap<String>,
    words: Seq<Seq<char>>,
    r: Result<ActionPlan, GuardError>,
) -> bool {
    match rule.action {
        Action::Run { binary, timeout, .. } => r matches Ok(
            ActionPlan::Run { binary: b, argv, implicit_symlinks, timeout_ms },
        ) && b@ == binary@ && views(argv@) == command_argv(
            rule,
            sub_path,
            words,
        ) && implicit_symlinks == rule.implicit_symlinks && timeout_ms == timeout.millis,
        Action::ReadFile { path_capture, root_set } => match captures.lookup(path_capture@) {
            None => action_error(r, missing_capture_msg(path_capture@)),
            Some(p) => if root_set@ != "roots"@ {
                action_error(r, unknown_root_set_msg(root_set@))
            } else {
                r matches Ok(ActionPlan::ReadFile { path, max_bytes }) && path@ == p@
                    && max_bytes == config.global.max_read_bytes
            },
        },
        Action::TailFile { path_capture, lines_capture, default_lines, root_set } => match captures.lookup(
            path_capture@,
        ) {
            None => action_error(r, missing_capture_msg(path_capture@)),
            Some(p) => if root_set@ != "roots"@ {
                action_error(r, unknown_root_set_msg(root_set@))
            } else {
                r matches Ok(ActionPlan::TailFile { path, lines }) && path@ == p@ && lines
                    == vstd::math::min(
                    requested_lines(captures, lines_capture, default_lines),
                    config.global.max_tail_lines as int,
                )
            },
        },
        Action::StatPath { path_capture, root_set } => match captures.lookup(path_capture@) {
            None => action_error(r, missing_capture_msg(path_capture@)),
            Some(p) => if root_set@ != "roots"@ {
                action_error(r, unknown_root_set_msg(root_set@))
            } else {
                r matches Ok(ActionPlan::StatPath { path }) && path@ == p@
            },
        },
        Action::ListDir { path_capture, root_set } => match captures.lookup(path_capture@) {
            None => action_error(r, missing_capture_msg(path_capture@)),
            Some(p) => if root_set@ != "roots"@ {
                action_error(r, unknown_root_set_msg(root_set@))
            } else {
                r matches Ok(ActionPlan::ListDir { path }) && path@ == p@
            },
        },
        Action::ShowHelp => r matches Ok(ActionPlan::ShowHelp { text }) && text@
            == config.global.help_text@,
    }
}

/// A `TailFile` plan tails the number of lines the command asked for: when the lines
/// capture is there and reads as a `usize` `n`, the plan tails `min(n, max_tail_lines)`
/// lines; only when the capture is missing or is not a number does the action's default
/// count (also capped) apply.
pub proof fn law_tail_lines_follow_request(
    config: Config,
    rule: Rule,
    sub_path: Seq<Seq<char>>,
    captures: StrMap<String>,
    user: Seq<Seq<char>>,
    r: Result<ActionPlan, GuardError>,
)
    requires
        planned(config, rule, sub_path, captures, user, r),
        rule.action matches Action::TailFile { path_capture, root_set, .. } && captures.lookup(
            path_capture@,
        ) is Some && root_set@ == "roots"@,
    ensures
        match rule.action {
            Action::TailFile { lines_capture, default_lines, .. } => {
                let max = config.global.max_tail_lines as int;
                let asked: Option<int> = match lines_capture {
                    Some(lc) => match captures.lookup(lc@) {
                        Some(l) => parse_usize(l@),
                        None => None,
                    },
                    None => None,
                };
                r matches Ok(ActionPlan::TailFile { lines, .. }) && match asked {
                    Some(n) => lines == (if n < max { n } else { max }),
                    None => lines == (if default_lines < max { default_lines as int } else { max }),
                }
            },
            _ => false,
        },
{
}

/// In particular a lines capture that is the decimal text of a count `n` gets
/// `min(n, max_tail_lines)` lines, whatever the action's default.
pub proof fn law_tail_lines_decimal_request(
    config: Config,
    rule: Rule,
    sub_path: Seq<Seq<char>>,
    captures: StrMap<String>,
    user: Seq<Seq<char>>,
    r: Result<ActionPlan, GuardError>,
    n: nat,
)
    requires
        planned(config, rule, sub_path, captures, user, r),
        n <= usize::MAX,
        match rule.action {
            Action::TailFile { path_capture, root_set, lines_capture: Some(lc), .. } => {
                &&& captures.lookup(path_capture@) is Some
                &&& root_set@ == "roots"@
                &&& (captures.lookup(lc@) matches Some(l) && l@ == dec_nat(n))
            },
            _ => false,
        },
    ensures
        r matches Ok(ActionPlan::TailFile { lines, .. }) && lines == (if n
            < config.global.max_tail_lines {
            n as int
        } else {
            config.global.max_tail_lines as int
        }),
{
    lemma_parse_usize_dec_nat(n);
    law_tail_lines_follow_request(config, rule, sub_path, captures, user, r);
}

/// The plan of the matched `rule`'s action, by its kind.
pub fn execute(
    config: &Config,
    rule: &Rule,
    subcommand_path: &[String],
    captures: &StrMap<String>,
    user_argv: &[String],
) -> (r: Result<ActionPlan, GuardError>)
    ensures
        planned(*config, *rule, views(subcommand_path@), *captures, views(user_argv@), r),
{
    match &rule.action {
        Action::Run { .. } => execute_run(config, rule, subcommand_path, user_argv),
        Action::ReadFile { .. } => execute_read_file(config, &rule.action, captures),
        Action::TailFile { .. } => execute_tail_file(config, &rule.action, captures),
        Action::StatPath { .. } => execute_stat_path(config, &rule.action, captures),
        Action::ListDir { .. } => execute_list_dir(config, &rule.action, captures),
        Action::ShowHelp => execute_show_help(config),
    }
}

} // verus!
