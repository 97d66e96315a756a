//! Learning rules from example commands: an example command line is merged into the
//! rule tree of its binary, creating the rule and subcommand where they are missing.
use vstd::prelude::*;

use crate::config::action::Action;
use crate::config::profile::Profile;
use crate::config::Config;
use crate::config::arg::ArgStyle;
use crate::config::duration::Duration;
use crate::config::rule::Rule;
use crate::config::subcommand::Subcommand;
use crate::engine::flags::group_flags;
use crate::errors::GuardError;
use crate::shell::{shell_words, split_words};
use crate::engine::matching::{find_sub, first_sub};
use crate::strmap::StrMap;
use crate::text::{
    append, chars_of, contains_string, ends_with, owned, starts_with, str_ends_with, str_eq, str_starts_with,
    views,
};

verus! {

// ---------------------------------------------------------------------------
// Model
// ---------------------------------------------------------------------------

/// A token that reads as an option: it starts with `-` or `/`.
pub open spec fn option_token(t: Seq<char>) -> bool {
    t.len() > 0 && (t[0] == '-' || t[0] == '/')
}

/// `xs` with `x` appended unless it is already there.
pub open spec fn add_unique(xs: Seq<Seq<char>>, x: Seq<char>) -> Seq<Seq<char>> {
    if xs.contains(x) {
        xs
    } else {
        xs.push(x)
    }
}

/// Where the token after the option at `i` leaves off: a following non-option token is
/// taken as the option's value.
pub open spec fn after_option(argv: Seq<Seq<char>>, i: int) -> int {
    if i + 1 < argv.len() && !option_token(argv[i + 1]) {
        i + 2
    } else {
        i + 1
    }
}

/// Merging the run of options from `start` into `flags`: each option is added once, a
/// value after it is skipped. Gives the flags and the position of the first token that
/// is not an option.
pub open spec fn merge_flags_spec(flags: Seq<Seq<char>>, argv: Seq<Seq<char>>, start: int) -> (
    Seq<Seq<char>>,
    int,
)
    decreases argv.len() - start,
{
    if start < 0 || start >= argv.len() || !option_token(argv[start]) {
        (flags, start)
    } else {
        merge_flags_spec(add_unique(flags, argv[start]), argv, after_option(argv, start))
    }
}

/// Merging the tokens after a subcommand's name into its flags and args: options (with
/// their values) go to the flags, other tokens to the args, each added once.
pub open spec fn sub_walk(
    flags: Seq<Seq<char>>,
    args: Seq<Seq<char>>,
    argv: Seq<Seq<char>>,
    i: int,
) -> (Seq<Seq<char>>, Seq<Seq<char>>)
    decreases argv.len() - i,
{
    if i < 0 || i >= argv.len() {
        (flags, args)
    } else if option_token(argv[i]) {
        sub_walk(add_unique(flags, argv[i]), args, argv, after_option(argv, i))
    } else {
        sub_walk(flags, add_unique(args, argv[i]), argv, i + 1)
    }
}

/// `n` is `o` with new flags and args as `sub_walk` gives them from `j`; nothing else
/// changed.
pub open spec fn sub_updated(o: Subcommand, n: Subcommand, argv: Seq<Seq<char>>, j: int) -> bool {
    &&& n.name == o.name
    &&& n.arg_style == o.arg_style
    &&& n.flag_groups == o.flag_groups
    &&& n.pre_args == o.pre_args
    &&& n.subcommands == o.subcommands
    &&& (views(n.flags@), views(n.args@)) == sub_walk(views(o.flags@), views(o.args@), argv, j)
}

/// A subcommand just created for `name`: nothing allowed in it yet.
pub open spec fn fresh_sub(s: Subcommand, name: Seq<char>) -> bool {
    &&& s.name@ == name
    &&& s.arg_style is None
    &&& s.flag_groups@.len() == 0
    &&& s.flags@.len() == 0
    &&& s.args@.len() == 0
    &&& s.pre_args@.len() == 0
    &&& s.subcommands@.len() == 0
}

// ---------------------------------------------------------------------------
// Options and subcommands
// ---------------------------------------------------------------------------

fn is_option_token(t: &str) -> (r: bool)
    ensures
        r == option_token(t@),
{
    proof {
        reveal_strlit("-");
        reveal_strlit("/");
        assert("-"@ =~= seq!['-']);
        assert("/"@ =~= seq!['/']);
        if t@.len() > 0 {
            assert(starts_with(t@, seq!['-']) <==> t@[0] == '-') by {
                if t@[0] == '-' {
                    assert(t@.subrange(0, 1) =~= seq!['-']);
                }
                if starts_with(t@, seq!['-']) {
                    assert(t@.subrange(0, 1)[0] == t@[0]);
                }
            }
            assert(starts_with(t@, seq!['/']) <==> t@[0] == '/') by {
                if t@[0] == '/' {
                    assert(t@.subrange(0, 1) =~= seq!['/']);
                }
                if starts_with(t@, seq!['/']) {
                    assert(t@.subrange(0, 1)[0] == t@[0]);
                }
            }
        }
    }
    str_starts_with(t, "-") || str_starts_with(t, "/")
}

fn push_unique(v: &mut Vec<String>, s: &String)
    ensures
        views(final(v)@) == add_unique(views(old(v)@), s@),
{
    if !contains_string(v.as_slice(), s.as_str()) {
        let ghost before = v@;
        v.push(s.clone());
        assert(views(v@) =~= views(before).push(s@));
    }
}

/// Merges the options from `start` on into `flags` (each once, skipping a value after
/// each) and gives the position of the first token that is not an option.
fn merge_flags(flags: &mut Vec<String>, argv: &[String], start: usize) -> (r: usize)
    requires
        start <= argv@.len(),
    ensures
        (views(final(flags)@), r as int) == merge_flags_spec(
            views(old(flags)@),
            views(argv@),
            start as int,
        ),
        start <= r <= argv@.len(),
{
    let ghost av = views(argv@);
    let ghost s0 = start;
    let mut start = start;
    while start < argv.len()
        invariant_except_break
            merge_flags_spec(views(old(flags)@), av, s0 as int) == merge_flags_spec(
                views(flags@),
                av,
                start as int,
            ),
        invariant
            start <= argv@.len(),
            av == views(argv@),
            start >= s0,
        ensures
            merge_flags_spec(views(old(flags)@), av, s0 as int) == (
                views(flags@),
                start as int,
            ),
            s0 <= start <= argv@.len(),
        decreases argv.len() - start,
    {
        if !is_option_token(argv[start].as_str()) {
            break;
        }
        push_unique(flags, &argv[start]);
        start = start + 1;
        if start < argv.len() {
            if !is_option_token(argv[start].as_str()) {
                start = start + 1;
            }
        }
    }
    start
}

/// The subcommand named `name` among `subs`, appended fresh when there is none.
fn find_or_create_subcommand(subs: &mut Vec<Subcommand>, name: &str) -> (k: usize)
    ensures
        k < final(subs)@.len(),
        match first_sub(old(subs)@, name@, 0) {
            Some(p) => k == p && final(subs)@ == old(subs)@,
            None => {
                &&& k == old(subs)@.len()
                &&& final(subs)@.len() == old(subs)@.len() + 1
                &&& final(subs)@.take(k as int) == old(subs)@
                &&& fresh_sub(final(subs)@[k as int], name@)
            },
        },
{
    match find_sub(subs.as_slice(), name) {
        Some(k) => k,
        None => {
            subs.push(
                Subcommand {
                    name: owned(name),
                    arg_style: None,
                    flag_groups: Vec::new(),
                    flags: Vec::new(),
                    args: Vec::new(),
                    pre_args: Vec::new(),
                    subcommands: Vec::new(),
                },
            );
            assert(subs@.take(old(subs)@.len() as int) =~= old(subs)@);
            subs.len() - 1
        },
    }
}

/// The run of options ends at or after `start`, and after it when it is not empty.
proof fn lemma_merge_flags_advances(flags: Seq<Seq<char>>, argv: Seq<Seq<char>>, start: int)
    requires
        0 <= start <= argv.len(),
    ensures
        start <= merge_flags_spec(flags, argv, start).1 <= argv.len(),
        start < argv.len() && option_token(argv[start]) ==> start < merge_flags_spec(
            flags,
            argv,
            start,
        ).1,
    decreases argv.len() - start,
{
    if start < argv.len() && option_token(argv[start]) {
        lemma_merge_flags_advances(add_unique(flags, argv[start]), argv, after_option(argv, start));
    }
}

/// Merging a run of options into flags without duplicates keeps the flags that were
/// there, first and in order, adds no flag twice, adds only options of the run, and
/// stops at the end of the tokens or at the first token that is neither an option nor
/// the value right after one.
pub proof fn law_merge_flags_dedups_and_stops(
    flags: Seq<Seq<char>>,
    argv: Seq<Seq<char>>,
    start: int,
)
    requires
        no_dups(flags),
        0 <= start <= argv.len(),
    ensures
        ({
            let (f2, r) = merge_flags_spec(flags, argv, start);
            &&& no_dups(f2)
            &&& flags.len() <= f2.len()
            &&& f2.take(flags.len() as int) == flags
            &&& start <= r <= argv.len()
            &&& (r == argv.len() || !option_token(argv[r]))
            &&& forall|k: int|
                flags.len() <= k < f2.len() ==> exists|j: int|
                    start <= j < r && option_token(argv[j]) && argv[j] == #[trigger] f2[k]
            &&& forall|j: int|
                start <= j < r && !option_token(#[trigger] argv[j]) ==> start < j && option_token(
                    argv[j - 1],
                )
        }),
    decreases argv.len() - start,
{
    if start < argv.len() && option_token(argv[start]) {
        let t = argv[start];
        let f1 = add_unique(flags, t);
        let n = after_option(argv, start);
        if !flags.contains(t) {
            assert forall|i: int, j: int| 0 <= i < j < f1.len() implies f1[i] != f1[j] by {
                if j == flags.len() {
                    assert(flags[i] != t);
                }
            }
        }
        law_merge_flags_dedups_and_stops(f1, argv, n);
        let (f2, r) = merge_flags_spec(f1, argv, n);
        assert(merge_flags_spec(flags, argv, start) == (f2, r));
        assert(f2.take(f1.len() as int).take(flags.len() as int) =~= f2.take(flags.len() as int));
        assert(f1.take(flags.len() as int) =~= flags);
        assert forall|k: int| flags.len() <= k < f2.len() implies exists|j: int|
            start <= j < r && option_token(argv[j]) && argv[j] == #[trigger] f2[k] by {
            if k < f1.len() {
                assert(f2[k] == f2.take(f1.len() as int)[k]);
                assert(f2[k] == t);
                assert(argv[start] == f2[k]);
            }
        }
        assert forall|j: int| start <= j < r && !option_token(#[trigger] argv[j]) implies start < j
            && option_token(argv[j - 1]) by {
            if j < n {
                assert(j == start + 1);
            }
        }
    } else {
        assert(flags.take(flags.len() as int) =~= flags);
    }
}

/// Merging a run of options first does not change what the walk of a subcommand gives.
proof fn lemma_sub_walk_merge(
    flags: Seq<Seq<char>>,
    args: Seq<Seq<char>>,
    argv: Seq<Seq<char>>,
    i: int,
)
    requires
        0 <= i <= argv.len(),
    ensures
        ({
            let (f2, j) = merge_flags_spec(flags, argv, i);
            sub_walk(flags, args, argv, i) == sub_walk(f2, args, argv, j)
        }),
    decreases argv.len() - i,
{
    if i < argv.len() && option_token(argv[i]) {
        lemma_sub_walk_merge(add_unique(flags, argv[i]), args, argv, after_option(argv, i));
    }
}

/// Merges the tokens from `i` on into the flags and args of `sub`.
fn merge_into_sub(sub: &mut Subcommand, argv: &[String], i: usize)
    requires
        i <= argv@.len(),
    ensures
        sub_updated(*old(sub), *final(sub), views(argv@), i as int),
{
    let ghost av = views(argv@);
    let ghost i0 = i;
    let ghost target = sub_walk(views(sub.flags@), views(sub.args@), av, i as int);
    proof {
        lemma_sub_walk_merge(views(sub.flags@), views(sub.args@), av, i as int);
    }
    let mut i = merge_flags(&mut sub.flags, argv, i);
    while i < argv.len()
        invariant
            i <= argv@.len(),
            av == views(argv@),
            sub.name == old(sub).name,
            sub.arg_style == old(sub).arg_style,
            sub.flag_groups == old(sub).flag_groups,
            sub.pre_args == old(sub).pre_args,
            sub.subcommands == old(sub).subcommands,
            target == sub_walk(views(old(sub).flags@), views(old(sub).args@), av, i0 as int),
            target == sub_walk(views(sub.flags@), views(sub.args@), av, i as int),
        decreases argv.len() - i,
    {
        if is_option_token(argv[i].as_str()) {
            proof {
                lemma_sub_walk_merge(views(sub.flags@), views(sub.args@), av, i as int);
                lemma_merge_flags_advances(views(sub.flags@), av, i as int);
            }
            i = merge_flags(&mut sub.flags, argv, i);
        } else {
            push_unique(&mut sub.args, &argv[i]);
            i = i + 1;
        }
    }
}

/// The subcommands after merging the tokens from `i` on (`i` the position of the
/// subcommand's name): the named subcommand is updated, or a fresh one is appended and
/// updated; the others stay as they were.
pub open spec fn subs_merged(
    old_subs: Seq<Subcommand>,
    new_subs: Seq<Subcommand>,
    argv: Seq<Seq<char>>,
    i: int,
) -> bool {
    match first_sub(old_subs, argv[i], 0) {
        Some(p) => {
            &&& new_subs.len() == old_subs.len()
            &&& forall|q: int| 0 <= q < old_subs.len() && q != p ==> new_subs[q] == old_subs[q]
            &&& sub_updated(old_subs[p], new_subs[p], argv, i + 1)
        },
        None => {
            &&& new_subs.len() == old_subs.len() + 1
            &&& forall|q: int| 0 <= q < old_subs.len() ==> new_subs[q] == old_subs[q]
            &&& fresh_sub_updated(new_subs[old_subs.len() as int], argv, i)
        },
    }
}

/// A subcommand created for `argv[i]` and filled from the tokens after it.
pub open spec fn fresh_sub_updated(n: Subcommand, argv: Seq<Seq<char>>, i: int) -> bool {
    &&& n.name@ == argv[i]
    &&& n.arg_style is None
    &&& n.flag_groups@.len() == 0
    &&& n.pre_args@.len() == 0
    &&& n.subcommands@.len() == 0
    &&& (views(n.flags@), views(n.args@)) == sub_walk(Seq::empty(), Seq::empty(), argv, i + 1)
}

/// What merging `argv` (the tokens after the binary) does to a rule: the leading
/// options go to the rule's flags; the token after them, if any, names a subcommand
/// that takes the rest.
pub open spec fn rule_merged(o: Rule, n: Rule, argv: Seq<Seq<char>>) -> bool {
    let (flags, i) = merge_flags_spec(views(o.flags@), argv, 0);
    &&& views(n.flags@) == flags
    &&& n.action == o.action
    &&& n.command == o.command
    &&& n.implicit_symlinks == o.implicit_symlinks
    &&& n.arg_style == o.arg_style
    &&& n.flag_groups == o.flag_groups
    &&& n.args == o.args
    &&& n.pre_args == o.pre_args
    &&& i >= argv.len() ==> n.subcommands == o.subcommands
    &&& i < argv.len() ==> subs_merged(o.subcommands@, n.subcommands@, argv, i)
}

/// Merges the tokens of an example command (after its binary) into `rule`.
fn walk_and_merge(rule: &mut Rule, argv: &[String])
    ensures
        rule_merged(*old(rule), *final(rule), views(argv@)),
{
    let ghost av = views(argv@);
    let i = merge_flags(&mut rule.flags, argv, 0);
    if i >= argv.len() {
        return;
    }
    assert(av[i as int] == argv@[i as int]@);
    let ghost subs0 = rule.subcommands@;
    let k = find_or_create_subcommand(&mut rule.subcommands, argv[i].as_str());
    let ghost subs1 = rule.subcommands@;
    merge_into_sub(&mut rule.subcommands[k], argv, i + 1);
    proof {
        let subs2 = rule.subcommands@;
        assert(subs2.len() == subs1.len());
        assert(forall|q: int| 0 <= q < subs1.len() && q != k ==> subs2[q] == subs1[q]);
        assert(sub_updated(subs1[k as int], subs2[k as int], av, i + 1));
        match first_sub(subs0, av[i as int], 0) {
            Some(p) => {},
            None => {
                assert(forall|q: int| 0 <= q < subs0.len() ==> subs1[q] == subs1.take(k as int)[q]);
                assert(views(subs1[k as int].flags@) =~= Seq::<Seq<char>>::empty());
                assert(views(subs1[k as int].args@) =~= Seq::<Seq<char>>::empty());
            },
        }
    }
}

// ---------------------------------------------------------------------------
// Rules
// ---------------------------------------------------------------------------

/// Where a rule for a binary named `name` is installed when it is created.
pub open spec fn system_bin_path(name: Seq<char>) -> Seq<char> {
    "/run/current-system/sw/bin/"@ + name
}

/// A rule runs the binary `name`: its `Run` binary is `name` or a path ending in `/name`.
pub open spec fn runs_binary(r: Rule, name: Seq<char>) -> bool {
    match r.action {
        Action::Run { binary, .. } => ends_with(binary@, seq!['/'] + name) || binary@ == name,
        _ => false,
    }
}

/// The first rule at or after `k` that runs `name`.
pub open spec fn first_rule_for(rules: Seq<Rule>, name: Seq<char>, k: int) -> Option<int>
    decreases rules.len() - k,
{
    if k < 0 || k >= rules.len() {
        None
    } else if runs_binary(rules[k], name) {
        Some(k)
    } else {
        first_rule_for(rules, name, k + 1)
    }
}

/// A rule just created for the binary `name`: it runs the system binary of that name
/// with no extra arguments and the default timeout, and allows nothing yet.
pub open spec fn fresh_rule(r: Rule, name: Seq<char>) -> bool {
    &&& r.action matches Action::Run { binary, args, timeout } && binary@ == system_bin_path(name)
        && args@.len() == 0 && timeout.millis == 5000
    &&& r.command is None
    &&& r.implicit_symlinks
    &&& r.arg_style == ArgStyle::GnuLong
    &&& r.flag_groups@.len() == 0
    &&& r.flags@.len() == 0
    &&& r.args@.len() == 0
    &&& r.pre_args@.len() == 0
    &&& r.subcommands@.len() == 0
}

fn rule_runs_binary(r: &Rule, name: &str) -> (b: bool)
    ensures
        b == runs_binary(*r, name@),
{
    match &r.action {
        Action::Run { binary, .. } => {
            let mut suffix = owned("/");
            append(&mut suffix, name);
            proof {
                reveal_strlit("/");
                assert("/"@ =~= seq!['/']);
            }
            str_ends_with(binary.as_str(), suffix.as_str()) || str_eq(binary.as_str(), name)
        },
        _ => false,
    }
}

/// The first rule that runs `name`, appended fresh when there is none.
fn find_or_create_rule(rules: &mut Vec<Rule>, name: &str) -> (k: usize)
    ensures
        k < final(rules)@.len(),
        match first_rule_for(old(rules)@, name@, 0) {
            Some(p) => k == p && final(rules)@ == old(rules)@,
            None => {
                &&& k == old(rules)@.len()
                &&& final(rules)@.len() == old(rules)@.len() + 1
                &&& final(rules)@.take(k as int) == old(rules)@
                &&& fresh_rule(final(rules)@[k as int], name@)
            },
        },
{
    let mut k: usize = 0;
    while k < rules.len()
        invariant
            k <= rules@.len(),
            rules@ == old(rules)@,
            first_rule_for(rules@, name@, 0) == first_rule_for(rules@, name@, k as int),
        decreases rules.len() - k,
    {
        if rule_runs_binary(&rules[k], name) {
            return k;
        }
        k = k + 1;
    }
    let mut binary = owned("/run/current-system/sw/bin/");
    append(&mut binary, name);
    rules.push(
        Rule {
            action: Action::Run { binary, args: Vec::new(), timeout: Duration::default() },
            command: None,
            implicit_symlinks: true,
            arg_style: ArgStyle::default(),
            flag_groups: Vec::new(),
            flags: Vec::new(),
            args: Vec::new(),
            pre_args: Vec::new(),
            subcommands: Vec::new(),
        },
    );
    assert(rules@.take(old(rules)@.len() as int) =~= old(rules)@);
    rules.len() - 1
}

// ---------------------------------------------------------------------------
// Common flag groups
// ---------------------------------------------------------------------------

/// No string occurs twice.
pub open spec fn no_dups(s: Seq<Seq<char>>) -> bool {
    forall|i: int, j: int| 0 <= i < j < s.len() ==> s[i] != s[j]
}

/// A flag allowed in subcommand `s`: one of its own, or one of a group it names.
pub open spec fn sub_allows_flag(s: Subcommand, groups: StrMap<Vec<String>>, f: Seq<char>) -> bool {
    ||| views(s.flags@).contains(f)
    ||| exists|g: int|
        0 <= g < s.flag_groups@.len() && #[trigger] group_flags(groups, s.flag_groups@[g]@).contains(
            f,
        )
}

/// A flag that a rule uses: one of its top-level flags, or one allowed in one of its
/// direct subcommands.
pub open spec fn rule_uses_flag(r: Rule, groups: StrMap<Vec<String>>, f: Seq<char>) -> bool {
    ||| views(r.flags@).contains(f)
    ||| exists|k: int|
        0 <= k < r.subcommands@.len() && #[trigger] sub_allows_flag(r.subcommands@[k], groups, f)
}

/// A flag that every rule running `name` uses.
pub open spec fn common_flag(
    rules: Seq<Rule>,
    groups: StrMap<Vec<String>>,
    name: Seq<char>,
    f: Seq<char>,
) -> bool {
    forall|i: int|
        0 <= i < rules.len() && runs_binary(rules[i], name) ==> #[trigger] rule_uses_flag(
            rules[i],
            groups,
            f,
        )
}

/// The number of rules that run `name`.
pub open spec fn count_runs(rules: Seq<Rule>, name: Seq<char>) -> nat
    decreases rules.len(),
{
    if rules.len() == 0 {
        0
    } else {
        count_runs(rules.drop_last(), name) + if runs_binary(rules.last(), name) {
            1nat
        } else {
            0nat
        }
    }
}

/// At least two different flags are common to the rules running `name`.
pub open spec fn two_common_flags(
    rules: Seq<Rule>,
    groups: StrMap<Vec<String>>,
    name: Seq<char>,
) -> bool {
    exists|a: Seq<char>, b: Seq<char>|
        a != b && #[trigger] common_flag(rules, groups, name, a) && #[trigger] common_flag(
            rules,
            groups,
            name,
            b,
        )
}

/// The name of the flag group made for the binary `name`.
pub open spec fn common_group_name(name: Seq<char>) -> Seq<char> {
    name + "-common-flags"@
}

/// The elements of `xs` that are not in `c`, in order.
pub open spec fn remove_all(xs: Seq<Seq<char>>, c: Set<Seq<char>>) -> Seq<Seq<char>>
    decreases xs.len(),
{
    if xs.len() == 0 {
        xs
    } else if c.contains(xs.last()) {
        remove_all(xs.drop_last(), c)
    } else {
        remove_all(xs.drop_last(), c).push(xs.last())
    }
}

pub proof fn lemma_contains_push(s: Seq<Seq<char>>, x: Seq<char>)
    ensures
        forall|f: Seq<char>| #[trigger] s.push(x).contains(f) <==> s.contains(f) || f == x,
{
    assert forall|f: Seq<char>| #[trigger] s.push(x).contains(f) <==> s.contains(f) || f == x by {
        if s.push(x).contains(f) {
            let i = choose|i: int| 0 <= i < s.push(x).len() && s.push(x)[i] == f;
            if i < s.len() {
                assert(s[i] == f);
            }
        }
        if s.contains(f) {
            let i = choose|i: int| 0 <= i < s.len() && s[i] == f;
            assert(s.push(x)[i] == f);
        }
        if f == x {
            assert(s.push(x)[s.len() as int] == x);
        }
    }
}

fn push_all_unique(v: &mut Vec<String>, xs: &Vec<String>)
    requires
        no_dups(views(old(v)@)),
    ensures
        no_dups(views(final(v)@)),
        forall|f: Seq<char>|
            #[trigger] views(final(v)@).contains(f) <==> views(old(v)@).contains(f) || views(
                xs@,
            ).contains(f),
{
    let mut i: usize = 0;
    while i < xs.len()
        invariant
            i <= xs@.len(),
            no_dups(views(v@)),
            forall|f: Seq<char>|
                #[trigger] views(v@).contains(f) <==> views(old(v)@).contains(f) || views(
                    xs@,
                ).take(i as int).contains(f),
        decreases xs.len() - i,
    {
        let ghost before = views(v@);
        push_unique(v, &xs[i]);
        proof {
            assert(views(xs@).take(i + 1) =~= views(xs@).take(i as int).push(xs@[i as int]@));
            lemma_contains_push(views(xs@).take(i as int), xs@[i as int]@);
            lemma_contains_push(before, xs@[i as int]@);
            if !before.contains(xs@[i as int]@) {
                assert(views(v@) =~= before.push(xs@[i as int]@));
            }
        }
        i = i + 1;
    }
    assert(views(xs@).take(xs@.len() as int) =~= views(xs@));
}

/// The flags that `r` uses (see `rule_uses_flag`), each once.
fn collect_rule_flags(r: &Rule, groups: &StrMap<Vec<String>>) -> (v: Vec<String>)
    ensures
        no_dups(views(v@)),
        forall|f: Seq<char>| #[trigger] views(v@).contains(f) <==> rule_uses_flag(*r, *groups, f),
{
    let mut v: Vec<String> = Vec::new();
    assert(views(v@) =~= Seq::<Seq<char>>::empty());
    push_all_unique(&mut v, &r.flags);
    let mut k: usize = 0;
    while k < r.subcommands.len()
        invariant
            k <= r.subcommands@.len(),
            no_dups(views(v@)),
            forall|f: Seq<char>|
                #[trigger] views(v@).contains(f) <==> views(r.flags@).contains(f) || exists|q: int|
                    0 <= q < k && #[trigger] sub_allows_flag(r.subcommands@[q], *groups, f),
        decreases r.subcommands.len() - k,
    {
        let sub = &r.subcommands[k];
        let ghost v0 = views(v@);
        push_all_unique(&mut v, &sub.flags);
        let mut g: usize = 0;
        while g < sub.flag_groups.len()
            invariant
                g <= sub.flag_groups@.len(),
                no_dups(views(v@)),
                forall|f: Seq<char>|
                    #[trigger] views(v@).contains(f) <==> v0.contains(f) || views(sub.flags@).contains(f)
                        || exists|h: int|
                        0 <= h < g && #[trigger] group_flags(*groups, sub.flag_groups@[h]@).contains(f),
            decreases sub.flag_groups.len() - g,
        {
            match groups.get(sub.flag_groups[g].as_str()) {
                Some(gf) => {
                    push_all_unique(&mut v, gf);
                },
                None => {},
            }
            proof {
                assert forall|f: Seq<char>| #[trigger] views(v@).contains(f) <==> v0.contains(f)
                    || views(sub.flags@).contains(f) || exists|h: int|
                    0 <= h < g + 1 && #[trigger] group_flags(*groups, sub.flag_groups@[h]@).contains(
                        f,
                    ) by {
                    if group_flags(*groups, sub.flag_groups@[g as int]@).contains(f) {
                        assert(0 <= g < g + 1);
                    }
                }
            }
            g = g + 1;
        }
        proof {
            assert forall|f: Seq<char>| #[trigger] views(v@).contains(f) <==> views(r.flags@).contains(
                f,
            ) || exists|q: int|
                0 <= q < k + 1 && #[trigger] sub_allows_flag(r.subcommands@[q], *groups, f) by {
                if sub_allows_flag(r.subcommands@[k as int], *groups, f) {
                    assert(0 <= k < k + 1);
                }
            }
        }
        k = k + 1;
    }
    v
}

/// The strings of `common` that also occur in `other`, in order.
fn keep_shared(common: &Vec<String>, other: &Vec<String>) -> (r: Vec<String>)
    requires
        no_dups(views(common@)),
    ensures
        no_dups(views(r@)),
        forall|f: Seq<char>|
            #[trigger] views(r@).contains(f) <==> views(common@).contains(f) && views(
                other@,
            ).contains(f),
{
    let mut r: Vec<String> = Vec::new();
    let mut i: usize = 0;
    assert(views(r@) =~= Seq::<Seq<char>>::empty());
    while i < common.len()
        invariant
            i <= common@.len(),
            no_dups(views(common@)),
            no_dups(views(r@)),
            forall|f: Seq<char>|
                #[trigger] views(r@).contains(f) <==> views(common@).take(i as int).contains(f)
                    && views(other@).contains(f),
        decreases common.len() - i,
    {
        let ghost before = views(r@);
        proof {
            assert(views(common@).take(i + 1) =~= views(common@).take(i as int).push(
                common@[i as int]@,
            ));
            lemma_contains_push(views(common@).take(i as int), common@[i as int]@);
            lemma_contains_push(before, common@[i as int]@);
        }
        if contains_string(other.as_slice(), common[i].as_str()) {
            r.push(common[i].clone());
            proof {
                assert(views(r@) =~= before.push(common@[i as int]@));
                assert(!before.contains(common@[i as int]@)) by {
                    if before.contains(common@[i as int]@) {
                        let j = choose|j: int|
                            0 <= j < i && views(common@).take(i as int)[j] == common@[i as int]@;
                        assert(views(common@)[j] == views(common@)[i as int]);
                    }
                }
            }
        }
        i = i + 1;
    }
    assert(views(common@).take(common@.len() as int) =~= views(common@));
    r
}

/// The positions of the rules that run `name`, in order.
fn rule_indices(rules: &Vec<Rule>, name: &str) -> (idx: Vec<usize>)
    ensures
        idx@.len() == count_runs(rules@, name@),
        forall|u: int|
            0 <= u < idx@.len() ==> idx@[u] < rules@.len() && runs_binary(
                rules@[idx@[u] as int],
                name@,
            ),
        forall|u: int, w: int| 0 <= u < w < idx@.len() ==> idx@[u] < idx@[w],
        forall|i: int|
            0 <= i < rules@.len() && runs_binary(rules@[i], name@) ==> exists|u: int|
                0 <= u < idx@.len() && idx@[u] == i,
{
    let mut idx: Vec<usize> = Vec::new();
    let mut i: usize = 0;
    while i < rules.len()
        invariant
            i <= rules@.len(),
            idx@.len() == count_runs(rules@.take(i as int), name@),
            forall|u: int|
                0 <= u < idx@.len() ==> idx@[u] < i && runs_binary(rules@[idx@[u] as int], name@),
            forall|u: int, w: int| 0 <= u < w < idx@.len() ==> idx@[u] < idx@[w],
            forall|j: int|
                0 <= j < i && runs_binary(rules@[j], name@) ==> exists|u: int|
                    0 <= u < idx@.len() && idx@[u] == j,
        decreases rules.len() - i,
    {
        assert(rules@.take(i + 1).drop_last() =~= rules@.take(i as int));
        let ghost before = idx@;
        if rule_runs_binary(&rules[i], name) {
            idx.push(i);
            assert(idx@[idx@.len() - 1] == i);
            assert forall|j: int|
                0 <= j < i + 1 && runs_binary(rules@[j], name@) implies exists|u: int|
                0 <= u < idx@.len() && idx@[u] == j by {
                if j < i {
                    let u = choose|u: int| 0 <= u < before.len() && before[u] == j;
                    assert(idx@[u] == j);
                }
            }
        }
        i = i + 1;
    }
    assert(rules@.take(rules@.len() as int) =~= rules@);
    idx
}

/// `a` comes before `b` in the order of `String`: code point by code point, a proper
/// prefix first.
pub open spec fn lex_lt(a: Seq<char>, b: Seq<char>) -> bool
    decreases a.len(),
{
    if a.len() == 0 {
        b.len() > 0
    } else if b.len() == 0 {
        false
    } else if a[0] != b[0] {
        a[0] < b[0]
    } else {
        lex_lt(a.drop_first(), b.drop_first())
    }
}

/// Strictly increasing in that order.
pub open spec fn sorted_strict(s: Seq<Seq<char>>) -> bool {
    forall|i: int, j: int| 0 <= i < j < s.len() ==> lex_lt(s[i], s[j])
}

pub proof fn lemma_lex_irreflexive(a: Seq<char>)
    ensures
        !lex_lt(a, a),
    decreases a.len(),
{
    if a.len() > 0 {
        lemma_lex_irreflexive(a.drop_first());
    }
}

pub proof fn lemma_lex_transitive(a: Seq<char>, b: Seq<char>, c: Seq<char>)
    requires
        lex_lt(a, b),
        lex_lt(b, c),
    ensures
        lex_lt(a, c),
    decreases a.len(),
{
    if a.len() > 0 && b.len() > 0 && c.len() > 0 && a[0] == b[0] && b[0] == c[0] {
        lemma_lex_transitive(a.drop_first(), b.drop_first(), c.drop_first());
    }
}

pub proof fn lemma_lex_total(a: Seq<char>, b: Seq<char>)
    requires
        a != b,
    ensures
        lex_lt(a, b) || lex_lt(b, a),
    decreases a.len(),
{
    if a.len() > 0 && b.len() > 0 && a[0] == b[0] {
        if a.drop_first() =~= b.drop_first() {
            assert forall|k: int| 0 <= k < a.len() implies a[k] == b[k] by {
                if k > 0 {
                    assert(a[k] == a.drop_first()[k - 1]);
                    assert(b[k] == b.drop_first()[k - 1]);
                }
            }
            assert(a =~= b);
        } else {
            lemma_lex_total(a.drop_first(), b.drop_first());
        }
    } else if a.len() == 0 && b.len() == 0 {
        assert(a =~= b);
    }
}

/// Whether `a` comes before `b` in the order of `String`.
pub fn str_lt(a: &str, b: &str) -> (r: bool)
    ensures
        r == lex_lt(a@, b@),
{
    let ca = chars_of(a);
    let cb = chars_of(b);
    let mut i: usize = 0;
    assert(ca@.skip(0) =~= ca@);
    assert(cb@.skip(0) =~= cb@);
    while i < ca.len() && i < cb.len()
        invariant
            i <= ca@.len(),
            i <= cb@.len(),
            lex_lt(a@, b@) == lex_lt(ca@.skip(i as int), cb@.skip(i as int)),
        decreases ca.len() - i,
    {
        assert(ca@.skip(i as int)[0] == ca@[i as int]);
        assert(cb@.skip(i as int)[0] == cb@[i as int]);
        if ca[i] != cb[i] {
            return ca[i] < cb[i];
        }
        assert(ca@.skip(i as int).drop_first() =~= ca@.skip(i + 1));
        assert(cb@.skip(i as int).drop_first() =~= cb@.skip(i + 1));
        i = i + 1;
    }
    ca.len() <= i && i < cb.len()
}

/// The strings of `v` sorted in the order of `String`.
fn sort_strings(v: &Vec<String>) -> (r: Vec<String>)
    requires
        no_dups(views(v@)),
    ensures
        sorted_strict(views(r@)),
        forall|f: Seq<char>| #[trigger] views(r@).contains(f) <==> views(v@).contains(f),
{
    let mut r: Vec<String> = Vec::new();
    let mut i: usize = 0;
    assert(views(r@) =~= Seq::<Seq<char>>::empty());
    while i < v.len()
        invariant
            i <= v@.len(),
            no_dups(views(v@)),
            sorted_strict(views(r@)),
            forall|f: Seq<char>|
                #[trigger] views(r@).contains(f) <==> views(v@).take(i as int).contains(f),
        decreases v.len() - i,
    {
        let ghost x = v@[i as int]@;
        let ghost rv = views(r@);
        assert(!rv.contains(x)) by {
            if rv.contains(x) {
                let j = choose|j: int| 0 <= j < i && views(v@).take(i as int)[j] == x;
                assert(views(v@)[j] == views(v@)[i as int]);
            }
        }
        let mut pos: usize = 0;
        while pos < r.len()
            invariant
                pos <= r@.len(),
                rv == views(r@),
                i < v@.len(),
                x == v@[i as int]@,
                forall|j: int| 0 <= j < pos ==> lex_lt(rv[j], x),
            ensures
                pos <= r@.len(),
                forall|j: int| 0 <= j < pos ==> lex_lt(rv[j], x),
                pos < r@.len() ==> !lex_lt(rv[pos as int], x),
            decreases r.len() - pos,
        {
            if !str_lt(r[pos].as_str(), v[i].as_str()) {
                break;
            }
            pos = pos + 1;
        }
        proof {
            if pos < rv.len() {
                assert(rv[pos as int] != x);
                lemma_lex_total(rv[pos as int], x);
                assert forall|j: int| pos <= j < rv.len() implies lex_lt(x, rv[j]) by {
                    if j > pos {
                        lemma_lex_transitive(x, rv[pos as int], rv[j]);
                    }
                }
            }
        }
        r.insert(pos, v[i].clone());
        proof {
            let nv = views(r@);
            assert(nv.len() == rv.len() + 1);
            assert(forall|j: int| 0 <= j < pos ==> nv[j] == rv[j]);
            assert(nv[pos as int] == x);
            assert(forall|j: int| pos < j < nv.len() ==> nv[j] == rv[j - 1]);
            assert forall|a: int, b: int| 0 <= a < b < nv.len() implies lex_lt(nv[a], nv[b]) by {
                if b < pos {
                } else if b == pos {
                } else if a < pos {
                    lemma_lex_transitive(nv[a], x, nv[b]);
                } else if a == pos {
                } else {
                }
            }
            assert(views(v@).take(i + 1) =~= views(v@).take(i as int).push(x));
            lemma_contains_push(views(v@).take(i as int), x);
            assert forall|f: Seq<char>| #[trigger] nv.contains(f) <==> rv.contains(f) || f == x by {
                if nv.contains(f) {
                    let j = choose|j: int| 0 <= j < nv.len() && nv[j] == f;
                    if j < pos {
                        assert(rv[j] == f);
                    } else if j > pos {
                        assert(rv[j - 1] == f);
                    }
                }
                if rv.contains(f) {
                    let j = choose|j: int| 0 <= j < rv.len() && rv[j] == f;
                    if j < pos {
                        assert(nv[j] == f);
                    } else {
                        assert(nv[j + 1] == f);
                    }
                }
                if f == x {
                    assert(nv[pos as int] == f);
                }
            }
        }
        i = i + 1;
    }
    assert(views(v@).take(v@.len() as int) =~= views(v@));
    r
}

/// `o` with the flags in `c` taken out and the group `g` named, once.
pub open spec fn sub_grouped(o: Subcommand, n: Subcommand, c: Set<Seq<char>>, g: Seq<char>) -> bool {
    &&& n.name == o.name
    &&& n.arg_style == o.arg_style
    &&& n.args == o.args
    &&& n.pre_args == o.pre_args
    &&& n.subcommands == o.subcommands
    &&& views(n.flags@) == remove_all(views(o.flags@), c)
    &&& views(n.flag_groups@) == add_unique(views(o.flag_groups@), g)
}

/// `o` with the flags in `c` taken out of its top level and of each direct subcommand,
/// each of which names the group `g`.
pub open spec fn rule_grouped(o: Rule, n: Rule, c: Set<Seq<char>>, g: Seq<char>) -> bool {
    &&& n.action == o.action
    &&& n.command == o.command
    &&& n.implicit_symlinks == o.implicit_symlinks
    &&& n.arg_style == o.arg_style
    &&& n.flag_groups == o.flag_groups
    &&& n.args == o.args
    &&& n.pre_args == o.pre_args
    &&& views(n.flags@) == remove_all(views(o.flags@), c)
    &&& n.subcommands@.len() == o.subcommands@.len()
    &&& forall|k: int|
        0 <= k < o.subcommands@.len() ==> #[trigger] sub_grouped(
            o.subcommands@[k],
            n.subcommands@[k],
            c,
            g,
        )
}

/// A listing of the set `c`: each of its elements once, in the order of `String`.
pub open spec fn sorted_listing(v: Seq<Seq<char>>, c: Set<Seq<char>>) -> bool {
    &&& sorted_strict(v)
    &&& forall|f: Seq<char>| #[trigger] v.contains(f) <==> c.contains(f)
}

/// What making a common flag group for the binary `name` does. When at least three
/// rules run `name`, at least two flags are common to all of them, and no group of the
/// name `common_group_name(name)` exists yet: that group is created with the common
/// flags; those flags leave the top level and the direct subcommands of each of these
/// rules, and each such subcommand names the group. Otherwise nothing changes.
pub open spec fn flag_groups_made(
    old_rules: Seq<Rule>,
    new_rules: Seq<Rule>,
    old_groups: StrMap<Vec<String>>,
    new_groups: StrMap<Vec<String>>,
    name: Seq<char>,
) -> bool {
    let g = common_group_name(name);
    let c = Set::new(|f: Seq<char>| common_flag(old_rules, old_groups, name, f));
    if count_runs(old_rules, name) < 3 || !two_common_flags(old_rules, old_groups, name)
        || old_groups.has(g) {
        new_rules == old_rules && new_groups == old_groups
    } else {
        &&& new_groups.lookup(g) matches Some(v) && sorted_listing(views(v@), c)
        &&& forall|k: Seq<char>| k != g ==> #[trigger] new_groups.lookup(k) == old_groups.lookup(k)
        &&& new_rules.len() == old_rules.len()
        &&& forall|i: int|
            0 <= i < old_rules.len() ==> if runs_binary(old_rules[i], name) {
                rule_grouped(old_rules[i], #[trigger] new_rules[i], c, g)
            } else {
                new_rules[i] == old_rules[i]
            }
    }
}

/// Takes the strings listed in `c` out of `v`.
fn remove_listed(v: &mut Vec<String>, c: &Vec<String>)
    ensures
        views(final(v)@) == remove_all(views(old(v)@), views(c@).to_set()),
{
    let ghost cs = views(c@).to_set();
    let mut kept: Vec<String> = Vec::new();
    let mut i: usize = 0;
    assert(views(kept@) =~= remove_all(views(v@).take(0), cs));
    while i < v.len()
        invariant
            i <= v@.len(),
            v@ == old(v)@,
            cs == views(c@).to_set(),
            views(kept@) == remove_all(views(v@).take(i as int), cs),
        decreases v.len() - i,
    {
        assert(views(v@).take(i + 1).drop_last() =~= views(v@).take(i as int));
        if !contains_string(c.as_slice(), v[i].as_str()) {
            let ghost before = views(kept@);
            kept.push(v[i].clone());
            assert(views(kept@) =~= before.push(v@[i as int]@));
        }
        i = i + 1;
    }
    assert(views(v@).take(v@.len() as int) =~= views(v@));
    *v = kept;
}

fn group_sub(sub: &mut Subcommand, c: &Vec<String>, g: &String)
    ensures
        sub_grouped(*old(sub), *final(sub), views(c@).to_set(), g@),
{
    remove_listed(&mut sub.flags, c);
    push_unique(&mut sub.flag_groups, g);
}

fn group_rule(rule: &mut Rule, c: &Vec<String>, g: &String)
    ensures
        rule_grouped(*old(rule), *final(rule), views(c@).to_set(), g@),
{
    remove_listed(&mut rule.flags, c);
    let mut k: usize = 0;
    while k < rule.subcommands.len()
        invariant
            k <= rule.subcommands@.len(),
            rule.action == old(rule).action,
            rule.command == old(rule).command,
            rule.implicit_symlinks == old(rule).implicit_symlinks,
            rule.arg_style == old(rule).arg_style,
            rule.flag_groups == old(rule).flag_groups,
            rule.args == old(rule).args,
            rule.pre_args == old(rule).pre_args,
            views(rule.flags@) == remove_all(views(old(rule).flags@), views(c@).to_set()),
            rule.subcommands@.len() == old(rule).subcommands@.len(),
            forall|q: int|
                0 <= q < k ==> #[trigger] sub_grouped(
                    old(rule).subcommands@[q],
                    rule.subcommands@[q],
                    views(c@).to_set(),
                    g@,
                ),
            forall|q: int|
                k <= q < rule.subcommands@.len() ==> rule.subcommands@[q]
                    == old(rule).subcommands@[q],
        decreases rule.subcommands.len() - k,
    {
        group_sub(&mut rule.subcommands[k], c, g);
        k = k + 1;
    }
}

/// Makes a flag group of the flags common to the rules that run `name` (see
/// `flag_groups_made`).
fn auto_create_flag_groups_in_rules(
    flag_groups: &mut StrMap<Vec<String>>,
    rules: &mut Vec<Rule>,
    name: &str,
)
    ensures
        flag_groups_made(old(rules)@, final(rules)@, *old(flag_groups), *final(flag_groups), name@),
{
    let ghost c = Set::new(|f: Seq<char>| common_flag(rules@, *flag_groups, name@, f));
    let idxs = rule_indices(rules, name);
    if idxs.len() < 3 {
        return;
    }
    let mut common = collect_rule_flags(&rules[idxs[0]], flag_groups);
    let mut t: usize = 1;
    while t < idxs.len()
        invariant
            1 <= t <= idxs@.len(),
            rules@ == old(rules)@,
            *flag_groups == *old(flag_groups),
            forall|u: int|
                0 <= u < idxs@.len() ==> idxs@[u] < rules@.len() && runs_binary(
                    rules@[idxs@[u] as int],
                    name@,
                ),
            no_dups(views(common@)),
            forall|f: Seq<char>|
                #[trigger] views(common@).contains(f) <==> forall|u: int|
                    0 <= u < t ==> #[trigger] rule_uses_flag(
                        rules@[idxs@[u] as int],
                        *flag_groups,
                        f,
                    ),
        decreases idxs.len() - t,
    {
        let other = collect_rule_flags(&rules[idxs[t]], flag_groups);
        common = keep_shared(&common, &other);
        proof {
            assert forall|f: Seq<char>|
                #[trigger] views(common@).contains(f) <==> forall|u: int|
                    0 <= u < t + 1 ==> #[trigger] rule_uses_flag(
                        rules@[idxs@[u] as int],
                        *flag_groups,
                        f,
                    ) by {
                if forall|u: int|
                    0 <= u < t + 1 ==> #[trigger] rule_uses_flag(
                        rules@[idxs@[u] as int],
                        *flag_groups,
                        f,
                    ) {
                    assert(rule_uses_flag(rules@[idxs@[t as int] as int], *flag_groups, f));
                }
            }
        }
        t = t + 1;
    }
    proof {
        assert forall|f: Seq<char>| #[trigger] views(common@).contains(f) <==> c.contains(f) by {
            if views(common@).contains(f) {
                assert forall|i: int|
                    0 <= i < rules@.len() && runs_binary(rules@[i], name@) implies #[trigger] rule_uses_flag(
                    rules@[i],
                    *flag_groups,
                    f,
                ) by {
                    let u = choose|u: int| 0 <= u < idxs@.len() && idxs@[u] == i;
                    assert(rule_uses_flag(rules@[idxs@[u] as int], *flag_groups, f));
                }
            }
            if c.contains(f) {
                assert forall|u: int| 0 <= u < idxs@.len() implies #[trigger] rule_uses_flag(
                    rules@[idxs@[u] as int],
                    *flag_groups,
                    f,
                ) by {
                    assert(runs_binary(rules@[idxs@[u] as int], name@));
                }
            }
        }
        assert(views(common@).to_set() =~= c);
    }
    if common.len() < 2 {
        proof {
            if two_common_flags(rules@, *flag_groups, name@) {
                let (a, b) = choose|a: Seq<char>, b: Seq<char>|
                    a != b && #[trigger] common_flag(rules@, *flag_groups, name@, a)
                        && #[trigger] common_flag(rules@, *flag_groups, name@, b);
                assert(c.contains(a));
                assert(c.contains(b));
                assert(views(common@).contains(a));
                assert(views(common@).contains(b));
            }
        }
        return;
    }
    proof {
        let a = views(common@)[0];
        let b = views(common@)[1];
        assert(views(common@).contains(a));
        assert(views(common@).contains(b));
        assert(common_flag(rules@, *flag_groups, name@, a));
        assert(common_flag(rules@, *flag_groups, name@, b));
    }
    let mut group = owned(name);
    append(&mut group, "-common-flags");
    if flag_groups.contains_key(group.as_str()) {
        return;
    }
    let listing = sort_strings(&common);
    flag_groups.insert(group.clone(), listing);
    let mut u: usize = 0;
    while u < idxs.len()
        invariant
            u <= idxs@.len(),
            group@ == common_group_name(name@),
            views(common@).to_set() == c,
            rules@.len() == old(rules)@.len(),
            forall|w: int|
                0 <= w < idxs@.len() ==> idxs@[w] < rules@.len() && runs_binary(
                    old(rules)@[idxs@[w] as int],
                    name@,
                ),
            forall|w: int, z: int| 0 <= w < z < idxs@.len() ==> idxs@[w] < idxs@[z],
            forall|i: int|
                0 <= i < rules@.len() ==> if exists|w: int| 0 <= w < u && idxs@[w] == i {
                    rule_grouped(old(rules)@[i], #[trigger] rules@[i], c, group@)
                } else {
                    rules@[i] == old(rules)@[i]
                },
        decreases idxs.len() - u,
    {
        let idx = idxs[u];
        let ghost before = rules@;
        group_rule(&mut rules[idx], &common, &group);
        proof {
            assert forall|i: int| 0 <= i < rules@.len() implies if exists|w: int|
                0 <= w < u + 1 && idxs@[w] == i {
                rule_grouped(old(rules)@[i], #[trigger] rules@[i], c, group@)
            } else {
                rules@[i] == old(rules)@[i]
            } by {
                if i == idx {
                    assert(idxs@[u as int] == i);
                    assert(!exists|w: int| 0 <= w < u && idxs@[w] == i);
                } else {
                    assert(rules@[i] == before[i]);
                    if exists|w: int| 0 <= w < u + 1 && idxs@[w] == i {
                        let w = choose|w: int| 0 <= w < u + 1 && idxs@[w] == i;
                        assert(w < u);
                    }
                }
            }
        }
        u = u + 1;
    }
    proof {
        assert forall|i: int| 0 <= i < old(rules)@.len() implies if runs_binary(
            old(rules)@[i],
            name@,
        ) {
            rule_grouped(old(rules)@[i], #[trigger] rules@[i], c, group@)
        } else {
            rules@[i] == old(rules)@[i]
        } by {
            if runs_binary(old(rules)@[i], name@) {
                let w = choose|w: int| 0 <= w < idxs@.len() && idxs@[w] == i;
            } else {
                if exists|w: int| 0 <= w < idxs@.len() && idxs@[w] == i {
                    let w = choose|w: int| 0 <= w < idxs@.len() && idxs@[w] == i;
                    assert(runs_binary(old(rules)@[idxs@[w] as int], name@));
                }
            }
        }
    }
}

// ---------------------------------------------------------------------------
// Adding an example command to a configuration
// ---------------------------------------------------------------------------

/// `mid` is `rules` with the example `rest` (the words after the binary `bin`) merged
/// into the first rule that runs `bin`, or into a fresh rule appended for it.
pub open spec fn rule_added(
    rules: Seq<Rule>,
    mid: Seq<Rule>,
    bin: Seq<char>,
    rest: Seq<Seq<char>>,
) -> bool {
    match first_rule_for(rules, bin, 0) {
        Some(p) => {
            &&& mid.len() == rules.len()
            &&& forall|q: int| 0 <= q < rules.len() && q != p ==> mid[q] == rules[q]
            &&& rule_merged(rules[p], mid[p], rest)
        },
        None => {
            &&& mid.len() == rules.len() + 1
            &&& forall|q: int| 0 <= q < rules.len() ==> mid[q] == rules[q]
            &&& exists|f: Rule| fresh_rule(f, bin) && rule_merged(f, mid[rules.len() as int], rest)
        },
    }
}

/// What adding the example `words` (binary first) does to a list of rules and its flag
/// groups: the example is merged into the rules, then a common flag group may be made
/// for the binary.
pub open spec fn example_added(
    old_rules: Seq<Rule>,
    new_rules: Seq<Rule>,
    old_groups: StrMap<Vec<String>>,
    new_groups: StrMap<Vec<String>>,
    words: Seq<Seq<char>>,
) -> bool {
    exists|mid: Seq<Rule>|
        rule_added(old_rules, mid, words[0], words.skip(1)) && #[trigger] flag_groups_made(
            mid,
            new_rules,
            old_groups,
            new_groups,
            words[0],
        )
}

/// Adds the example `words` (binary first) to `rules` and `groups`.
fn add_example(rules: &mut Vec<Rule>, groups: &mut StrMap<Vec<String>>, words: &[String])
    requires
        words@.len() > 0,
    ensures
        example_added(old(rules)@, final(rules)@, *old(groups), *final(groups), views(words@)),
{
    let ghost w = views(words@);
    assert(w[0] == words@[0]@);
    let k = find_or_create_rule(rules, words[0].as_str());
    let ghost fresh = rules@[k as int];
    let rest = &words[1..words.len()];
    assert(views(rest@) =~= w.skip(1));
    walk_and_merge(&mut rules[k], rest);
    let ghost mid = rules@;
    proof {
        match first_rule_for(old(rules)@, w[0], 0) {
            Some(p) => {},
            None => {
                assert(forall|q: int| 0 <= q < old(rules)@.len() ==> mid[q] == old(rules)@.take(k as int)[q]);
                assert(fresh_rule(fresh, w[0]) && rule_merged(fresh, mid[k as int], w.skip(1)));
            },
        }
        assert(rule_added(old(rules)@, mid, w[0], w.skip(1)));
    }
    auto_create_flag_groups_in_rules(groups, rules, words[0].as_str());
}

/// What adding the example `words` to a profile does: its rules and flag groups (empty
/// when it has none) learn the example; the rest of the profile stays.
pub open spec fn profile_learned(op: Profile, np: Profile, words: Seq<Seq<char>>) -> bool {
    &&& np.users == op.users
    &&& np.global == op.global
    &&& np.contracts == op.contracts
    &&& np.roots == op.roots
    &&& np.units == op.units
    &&& np.rules matches Some(nr)
    &&& np.flag_groups matches Some(ng)
    &&& match op.flag_groups {
        Some(og) => example_added(rules_or_none(op.rules), nr@, og, ng, words),
        None => exists|og: StrMap<Vec<String>>|
            og.entries_seq().len() == 0 && #[trigger] example_added(
                rules_or_none(op.rules),
                nr@,
                og,
                ng,
                words,
            ),
    }
}

fn add_example_to_profile(p: &mut Profile, words: &[String])
    requires
        words@.len() > 0,
    ensures
        profile_learned(*old(p), *final(p), views(words@)),
{
    let mut rules = match p.rules.take() {
        Some(v) => v,
        None => Vec::new(),
    };
    let mut groups = match p.flag_groups.take() {
        Some(g) => g,
        None => StrMap::new(),
    };
    assert(rules@ == rules_or_none(old(p).rules));
    let ghost g0 = groups;
    add_example(&mut rules, &mut groups, words);
    proof {
        match old(p).flag_groups {
            Some(og) => {
                assert(og == g0);
            },
            None => {
                assert(g0.entries_seq().len() == 0);
                assert(example_added(rules_or_none(old(p).rules), rules@, g0, groups, views(words@)));
            },
        }
    }
    p.rules = Some(rules);
    p.flag_groups = Some(groups);
    proof {
        let nr = p.rules->0;
        let ng = p.flag_groups->0;
        assert(example_added(rules_or_none(old(p).rules), nr@, g0, ng, views(words@)));
    }
}

/// The words of an example command, from what splitting its text gave: an error when
/// the text could not be split or holds no word.
pub fn rule_words(split: Option<Vec<String>>) -> (r: Result<Vec<String>, GuardError>)
    ensures
        match split {
            None => r matches Err(GuardError::Config(m)) && m@ == "failed to parse command"@,
            Some(v) => if v@.len() == 0 {
                r matches Err(GuardError::Config(m)) && m@ == "empty command"@
            } else {
                r == Ok::<Vec<String>, GuardError>(v)
            },
        },
{
    match split {
        None => Err(GuardError::Config(owned("failed to parse command"))),
        Some(v) => if v.len() == 0 {
            Err(GuardError::Config(owned("empty command")))
        } else {
            Ok(v)
        },
    }
}

/// Splits the text of an example command into its words, as a shell would.
pub fn split_rule_command(cmd_input: &str) -> (r: Result<Vec<String>, GuardError>)
    ensures
        match shell_words(cmd_input@) {
            None => r matches Err(GuardError::Config(m)) && m@ == "failed to parse command"@,
            Some(ws) => if ws.len() == 0 {
                r matches Err(GuardError::Config(m)) && m@ == "empty command"@
            } else {
                r matches Ok(v) && views(v@) == ws
            },
        },
{
    rule_words(split_words(cmd_input))
}

/// The message for a profile that the configuration does not have.
pub open spec fn missing_profile_msg(name: Seq<char>) -> Seq<char> {
    "profile '"@ + name + "' does not exist"@
}

/// The rules of an optional list, an empty list when there is none.
pub open spec fn rules_or_none(o: Option<Vec<Rule>>) -> Seq<Rule> {
    match o {
        Some(v) => v@,
        None => Seq::empty(),
    }
}

/// Adds the example command `words` (binary first) to the base rules of `config`, or,
/// when `profile` names one, to that profile's rules and flag groups (which are created
/// when the profile has none). An unknown profile is an error and changes nothing.
pub fn merge_rule(config: &mut Config, words: &[String], profile: Option<&str>) -> (r: Result<
    (),
    GuardError,
>)
    requires
        words@.len() > 0,
    ensures
        match profile {
            None => {
                &&& r is Ok
                &&& example_added(
                    old(config).rules@,
                    final(config).rules@,
                    old(config).flag_groups,
                    final(config).flag_groups,
                    views(words@),
                )
                &&& final(config).global == old(config).global
                &&& final(config).contracts == old(config).contracts
                &&& final(config).roots == old(config).roots
                &&& final(config).units == old(config).units
                &&& final(config).profiles == old(config).profiles
            },
            Some(name) => match old(config).profiles.lookup(name@) {
                None => {
                    &&& r matches Err(GuardError::Config(m)) && m@ == missing_profile_msg(name@)
                    &&& *final(config) == *old(config)
                },
                Some(op) => {
                    &&& r is Ok
                    &&& final(config).rules == old(config).rules
                    &&& final(config).flag_groups == old(config).flag_groups
                    &&& final(config).global == old(config).global
                    &&& final(config).contracts == old(config).contracts
                    &&& final(config).roots == old(config).roots
                    &&& final(config).units == old(config).units
                    &&& forall|j: Seq<char>|
                        j != name@ ==> #[trigger] final(config).profiles.lookup(j)
                            == old(config).profiles.lookup(j)
                    &&& final(config).profiles.lookup(name@) matches Some(np)
                    &&& profile_learned(op, np, views(words@))
                },
            },
        },
{
    match profile {
        None => {
            let ghost p0 = config.profiles;
            add_example(&mut config.rules, &mut config.flag_groups, words);
            assert(config.profiles == p0);
            Ok(())
        },
        Some(name) => {
            let taken = config.profiles.replace(name, Profile::default());
            match taken {
                None => {
                    let mut m = owned("profile '");
                    append(&mut m, name);
                    append(&mut m, "' does not exist");
                    Err(GuardError::Config(m))
                },
                Some(p) => {
                    let mut p = p;
                    add_example_to_profile(&mut p, words);
                    config.profiles.replace(name, p);
                    Ok(())
                },
            }
        },
    }
}

// ---------------------------------------------------------------------------
// Properties of merging
// ---------------------------------------------------------------------------

/// `b` has every element of `a`.
pub open spec fn covers(b: Seq<Seq<char>>, a: Seq<Seq<char>>) -> bool {
    forall|x: Seq<char>| #[trigger] a.contains(x) ==> b.contains(x)
}

proof fn lemma_add_unique_covers(xs: Seq<Seq<char>>, x: Seq<char>)
    ensures
        covers(add_unique(xs, x), xs),
        add_unique(xs, x).contains(x),
{
    if !xs.contains(x) {
        lemma_contains_push(xs, x);
    }
}

proof fn lemma_merge_flags_covers(flags: Seq<Seq<char>>, argv: Seq<Seq<char>>, start: int)
    ensures
        covers(merge_flags_spec(flags, argv, start).0, flags),
    decreases argv.len() - start,
{
    if 0 <= start < argv.len() && option_token(argv[start]) {
        let f2 = add_unique(flags, argv[start]);
        lemma_add_unique_covers(flags, argv[start]);
        lemma_merge_flags_covers(f2, argv, after_option(argv, start));
    }
}

/// Merging into flags that already hold everything the merge would give changes nothing.
proof fn lemma_merge_flags_settled(
    flags: Seq<Seq<char>>,
    g: Seq<Seq<char>>,
    argv: Seq<Seq<char>>,
    start: int,
)
    requires
        covers(g, merge_flags_spec(flags, argv, start).0),
    ensures
        merge_flags_spec(g, argv, start) == (g, merge_flags_spec(flags, argv, start).1),
    decreases argv.len() - start,
{
    if 0 <= start < argv.len() && option_token(argv[start]) {
        let t = argv[start];
        let f2 = add_unique(flags, t);
        lemma_add_unique_covers(flags, t);
        lemma_merge_flags_covers(f2, argv, after_option(argv, start));
        assert(g.contains(t));
        assert(add_unique(g, t) == g);
        lemma_merge_flags_settled(f2, g, argv, after_option(argv, start));
    }
}

proof fn lemma_sub_walk_covers(
    flags: Seq<Seq<char>>,
    args: Seq<Seq<char>>,
    argv: Seq<Seq<char>>,
    i: int,
)
    ensures
        covers(sub_walk(flags, args, argv, i).0, flags),
        covers(sub_walk(flags, args, argv, i).1, args),
    decreases argv.len() - i,
{
    if 0 <= i < argv.len() {
        if option_token(argv[i]) {
            lemma_add_unique_covers(flags, argv[i]);
            lemma_sub_walk_covers(add_unique(flags, argv[i]), args, argv, after_option(argv, i));
        } else {
            lemma_add_unique_covers(args, argv[i]);
            lemma_sub_walk_covers(flags, add_unique(args, argv[i]), argv, i + 1);
        }
    }
}

proof fn lemma_sub_walk_settled(
    flags: Seq<Seq<char>>,
    args: Seq<Seq<char>>,
    g: Seq<Seq<char>>,
    h: Seq<Seq<char>>,
    argv: Seq<Seq<char>>,
    i: int,
)
    requires
        covers(g, sub_walk(flags, args, argv, i).0),
        covers(h, sub_walk(flags, args, argv, i).1),
    ensures
        sub_walk(g, h, argv, i) == (g, h),
    decreases argv.len() - i,
{
    if 0 <= i < argv.len() {
        let t = argv[i];
        if option_token(t) {
            let f2 = add_unique(flags, t);
            lemma_add_unique_covers(flags, t);
            lemma_sub_walk_covers(f2, args, argv, after_option(argv, i));
            assert(g.contains(t));
            assert(add_unique(g, t) == g);
            lemma_sub_walk_settled(f2, args, g, h, argv, after_option(argv, i));
        } else {
            let a2 = add_unique(args, t);
            lemma_add_unique_covers(args, t);
            lemma_sub_walk_covers(flags, a2, argv, i + 1);
            assert(h.contains(t));
            assert(add_unique(h, t) == h);
            lemma_sub_walk_settled(flags, a2, g, h, argv, i + 1);
        }
    }
}

proof fn lemma_first_sub_same_names(a: Seq<Subcommand>, b: Seq<Subcommand>, tok: Seq<char>, k: int)
    requires
        a.len() == b.len(),
        forall|q: int| 0 <= q < a.len() ==> #[trigger] a[q].name == b[q].name,
    ensures
        first_sub(a, tok, k) == first_sub(b, tok, k),
    decreases a.len() - k,
{
    if 0 <= k < a.len() {
        assert(a[k].name == b[k].name);
        lemma_first_sub_same_names(a, b, tok, k + 1);
    }
}

proof fn lemma_first_sub_appended(a: Seq<Subcommand>, b: Seq<Subcommand>, tok: Seq<char>, k: int)
    requires
        0 <= k <= a.len(),
        b.len() == a.len() + 1,
        forall|q: int| 0 <= q < a.len() ==> #[trigger] b[q] == a[q],
        first_sub(a, tok, k) is None,
        b[a.len() as int].name@ == tok,
    ensures
        first_sub(b, tok, k) == Some(a.len() as int),
    decreases a.len() - k,
{
    if k < a.len() {
        assert(b[k] == a[k]);
        lemma_first_sub_appended(a, b, tok, k + 1);
    }
}

/// Two rules that read the same: equal but for the flag, argument and flag-group lists
/// of their top level and direct subcommands, which hold the same strings in the same
/// order.
pub open spec fn same_rule_text(a: Rule, b: Rule) -> bool {
    &&& a.action == b.action
    &&& a.command == b.command
    &&& a.implicit_symlinks == b.implicit_symlinks
    &&& a.arg_style == b.arg_style
    &&& a.flag_groups == b.flag_groups
    &&& a.args == b.args
    &&& a.pre_args == b.pre_args
    &&& views(a.flags@) == views(b.flags@)
    &&& a.subcommands@.len() == b.subcommands@.len()
    &&& forall|k: int|
        0 <= k < a.subcommands@.len() ==> #[trigger] same_sub_text(
            a.subcommands@[k],
            b.subcommands@[k],
        )
}

pub open spec fn same_sub_text(a: Subcommand, b: Subcommand) -> bool {
    &&& a.name == b.name
    &&& a.arg_style == b.arg_style
    &&& a.pre_args == b.pre_args
    &&& a.subcommands == b.subcommands
    &&& views(a.flag_groups@) == views(b.flag_groups@)
    &&& views(a.flags@) == views(b.flags@)
    &&& views(a.args@) == views(b.args@)
}

/// Merging the same example into a rule a second time changes nothing: every flag,
/// subcommand and argument it brings is already there, once.
pub proof fn law_merging_twice_changes_nothing(o: Rule, n: Rule, n2: Rule, argv: Seq<Seq<char>>)
    requires
        rule_merged(o, n, argv),
        rule_merged(n, n2, argv),
    ensures
        same_rule_text(n, n2),
{
    let (f1, i) = merge_flags_spec(views(o.flags@), argv, 0);
    lemma_merge_flags_settled(views(o.flags@), views(n.flags@), argv, 0);
    if i < argv.len() {
        let os = o.subcommands@;
        let ns = n.subcommands@;
        let ns2 = n2.subcommands@;
        let p = match first_sub(os, argv[i], 0) {
            Some(p) => p,
            None => os.len() as int,
        };
        match first_sub(os, argv[i], 0) {
            Some(q) => {
                assert forall|x: int| 0 <= x < os.len() implies #[trigger] os[x].name == ns[x].name by {
                    if x != q {
                        assert(ns[x] == os[x]);
                    }
                }
                lemma_first_sub_same_names(os, ns, argv[i], 0);
            },
            None => {
                lemma_first_sub_appended(os, ns, argv[i], 0);
            },
        }
        assert(first_sub(ns, argv[i], 0) == Some(p));
        let w = sub_walk(views(ns[p].flags@), views(ns[p].args@), argv, i + 1);
        match first_sub(os, argv[i], 0) {
            Some(q) => {
                lemma_sub_walk_settled(
                    views(os[p].flags@),
                    views(os[p].args@),
                    views(ns[p].flags@),
                    views(ns[p].args@),
                    argv,
                    i + 1,
                );
            },
            None => {
                lemma_sub_walk_settled(
                    Seq::empty(),
                    Seq::empty(),
                    views(ns[p].flags@),
                    views(ns[p].args@),
                    argv,
                    i + 1,
                );
            },
        }
        assert forall|k: int| 0 <= k < ns.len() implies #[trigger] same_sub_text(ns[k], ns2[k]) by {
            if k != p {
                assert(ns2[k] == ns[k]);
            }
        }
    }
}

pub proof fn lemma_add_unique_prefix(xs: Seq<Seq<char>>, x: Seq<char>)
    ensures
        add_unique(xs, x).len() >= xs.len(),
        add_unique(xs, x).take(xs.len() as int) == xs,
        no_dups(xs) ==> no_dups(add_unique(xs, x)),
{
    if !xs.contains(x) {
        assert(xs.push(x).take(xs.len() as int) =~= xs);
        if no_dups(xs) {
            assert forall|i: int, j: int| 0 <= i < j < xs.push(x).len() implies xs.push(x)[i]
                != xs.push(x)[j] by {
                if j == xs.len() {
                    assert(xs.push(x)[i] == xs[i]);
                }
            }
        }
    } else {
        assert(xs.take(xs.len() as int) =~= xs);
    }
}

proof fn lemma_merge_flags_prefix(flags: Seq<Seq<char>>, argv: Seq<Seq<char>>, start: int)
    ensures
        merge_flags_spec(flags, argv, start).0.len() >= flags.len(),
        merge_flags_spec(flags, argv, start).0.take(flags.len() as int) == flags,
        no_dups(flags) ==> no_dups(merge_flags_spec(flags, argv, start).0),
    decreases argv.len() - start,
{
    if 0 <= start < argv.len() && option_token(argv[start]) {
        let f2 = add_unique(flags, argv[start]);
        lemma_add_unique_prefix(flags, argv[start]);
        lemma_merge_flags_prefix(f2, argv, after_option(argv, start));
        let r = merge_flags_spec(f2, argv, after_option(argv, start)).0;
        assert(r.take(flags.len() as int) =~= r.take(f2.len() as int).take(flags.len() as int));
    } else {
        assert(flags.take(flags.len() as int) =~= flags);
    }
}

/// Merging an example into a rule keeps the flags it had, first and in their order, and
/// adds each new flag once: a flag list without repeats stays without repeats.
pub proof fn law_merge_keeps_existing_flags_first(o: Rule, n: Rule, argv: Seq<Seq<char>>)
    requires
        rule_merged(o, n, argv),
    ensures
        views(n.flags@).len() >= views(o.flags@).len(),
        views(n.flags@).take(views(o.flags@).len() as int) == views(o.flags@),
        no_dups(views(o.flags@)) ==> no_dups(views(n.flags@)),
{
    lemma_merge_flags_prefix(views(o.flags@), argv, 0);
}

/// Every option of a run of options lands in the merged flags, and the flags that were
/// there stay.
proof fn lemma_merge_flags_takes_options(flags: Seq<Seq<char>>, argv: Seq<Seq<char>>, start: int)
    requires
        0 <= start <= argv.len(),
    ensures
        ({
            let (f2, r) = merge_flags_spec(flags, argv, start);
            &&& covers(f2, flags)
            &&& forall|j: int|
                start <= j < r && option_token(#[trigger] argv[j]) ==> f2.contains(argv[j])
        }),
    decreases argv.len() - start,
{
    lemma_merge_flags_covers(flags, argv, start);
    if start < argv.len() && option_token(argv[start]) {
        let t = argv[start];
        let f1 = add_unique(flags, t);
        lemma_add_unique_covers(flags, t);
        lemma_merge_flags_takes_options(f1, argv, after_option(argv, start));
    }
}

/// Merging the tokens of an example from `i` on into a subcommand's flags and args
/// keeps what was there and loses no token: every option lands in the flags, and every
/// other token lands in the args unless it is the value right after an option.
pub proof fn law_sub_walk_keeps_every_token(
    flags: Seq<Seq<char>>,
    args: Seq<Seq<char>>,
    argv: Seq<Seq<char>>,
    i: int,
)
    requires
        0 <= i <= argv.len(),
    ensures
        ({
            let (f2, a2) = sub_walk(flags, args, argv, i);
            &&& covers(f2, flags)
            &&& covers(a2, args)
            &&& forall|j: int| i <= j < argv.len() && option_token(#[trigger] argv[j]) ==> f2.contains(argv[j])
            &&& forall|j: int|
                i <= j < argv.len() && !option_token(#[trigger] argv[j]) && (j == i || !option_token(
                    argv[j - 1],
                )) ==> a2.contains(argv[j])
        }),
    decreases argv.len() - i,
{
    lemma_sub_walk_covers(flags, args, argv, i);
    if i < argv.len() {
        let t = argv[i];
        if option_token(t) {
            let f1 = add_unique(flags, t);
            let n = after_option(argv, i);
            lemma_add_unique_covers(flags, t);
            law_sub_walk_keeps_every_token(f1, args, argv, n);
            lemma_sub_walk_covers(f1, args, argv, n);
        } else {
            let a1 = add_unique(args, t);
            lemma_add_unique_covers(args, t);
            law_sub_walk_keeps_every_token(flags, a1, argv, i + 1);
            lemma_sub_walk_covers(flags, a1, argv, i + 1);
        }
    }
}

/// Merging the tokens of an example from `i` on adds nothing twice and nothing that is
/// not in the example: each new flag is an option of `argv[i..]`, each new arg a token
/// of `argv[i..]` that is not an option.
pub proof fn law_sub_walk_adds_only_example_tokens(
    flags: Seq<Seq<char>>,
    args: Seq<Seq<char>>,
    argv: Seq<Seq<char>>,
    i: int,
)
    requires
        0 <= i <= argv.len(),
        no_dups(flags),
        no_dups(args),
    ensures
        ({
            let (f2, a2) = sub_walk(flags, args, argv, i);
            &&& no_dups(f2)
            &&& no_dups(a2)
            &&& forall|x: Seq<char>|
                #[trigger] f2.contains(x) ==> flags.contains(x) || exists|j: int|
                    i <= j < argv.len() && argv[j] == x && option_token(x)
            &&& forall|x: Seq<char>|
                #[trigger] a2.contains(x) ==> args.contains(x) || exists|j: int|
                    i <= j < argv.len() && argv[j] == x && !option_token(x)
        }),
    decreases argv.len() - i,
{
    if i < argv.len() {
        let t = argv[i];
        if option_token(t) {
            let f1 = add_unique(flags, t);
            lemma_add_unique_no_dups(flags, t);
            law_sub_walk_adds_only_example_tokens(f1, args, argv, after_option(argv, i));
            let (f2, a2) = sub_walk(f1, args, argv, after_option(argv, i));
            assert forall|x: Seq<char>| #[trigger] f2.contains(x) implies flags.contains(x) || exists|j: int|
                i <= j < argv.len() && argv[j] == x && option_token(x) by {
                if f1.contains(x) && !flags.contains(x) {
                    let w = choose|w: int| 0 <= w < f1.len() && f1[w] == x;
                    assert(argv[i] == x);
                }
            }
        } else {
            let a1 = add_unique(args, t);
            lemma_add_unique_no_dups(args, t);
            law_sub_walk_adds_only_example_tokens(flags, a1, argv, i + 1);
            let (f2, a2) = sub_walk(flags, a1, argv, i + 1);
            assert forall|x: Seq<char>| #[trigger] a2.contains(x) implies args.contains(x) || exists|j: int|
                i <= j < argv.len() && argv[j] == x && !option_token(x) by {
                if a1.contains(x) && !args.contains(x) {
                    let w = choose|w: int| 0 <= w < a1.len() && a1[w] == x;
                    assert(argv[i] == x);
                }
            }
        }
    }
}

proof fn lemma_add_unique_no_dups(xs: Seq<Seq<char>>, x: Seq<char>)
    requires
        no_dups(xs),
    ensures
        no_dups(add_unique(xs, x)),
{
    if !xs.contains(x) {
        let ys = xs.push(x);
        assert forall|a: int, b: int| 0 <= a < b < ys.len() implies ys[a] != ys[b] by {
            if b == xs.len() {
                assert(xs[a] != x);
            }
        }
    }
}

/// A rule merged from an example allows the example's words: every leading option is
/// among the rule's flags, and the word after them names one of the rule's subcommands
/// whose flags hold every later option and whose args hold every later word that is not
/// an option or the value right after one.
pub proof fn law_merged_rule_keeps_example_tokens(o: Rule, n: Rule, argv: Seq<Seq<char>>)
    requires
        rule_merged(o, n, argv),
    ensures
        ({
            let i = merge_flags_spec(views(o.flags@), argv, 0).1;
            &&& forall|j: int|
                0 <= j < i && option_token(#[trigger] argv[j]) ==> views(n.flags@).contains(argv[j])
            &&& i < argv.len() ==> exists|q: int|
                0 <= q < n.subcommands@.len() && #[trigger] n.subcommands@[q].name@ == argv[i] && {
                    let s = n.subcommands@[q];
                    &&& forall|j: int|
                        i < j < argv.len() && option_token(#[trigger] argv[j]) ==> views(
                            s.flags@,
                        ).contains(argv[j])
                    &&& forall|j: int|
                        i < j < argv.len() && !option_token(#[trigger] argv[j]) && (j == i + 1
                            || !option_token(argv[j - 1])) ==> views(s.args@).contains(argv[j])
                }
        }),
{
    lemma_merge_flags_takes_options(views(o.flags@), argv, 0);
    lemma_merge_flags_advances(views(o.flags@), argv, 0);
    let i = merge_flags_spec(views(o.flags@), argv, 0).1;
    if i < argv.len() {
        crate::engine::laws::lemma_first_sub_range(o.subcommands@, argv[i], 0);
        match first_sub(o.subcommands@, argv[i], 0) {
            Some(p) => {
                let s = n.subcommands@[p];
                let os = o.subcommands@[p];
                law_sub_walk_keeps_every_token(views(os.flags@), views(os.args@), argv, i + 1);
                assert(s.name@ == argv[i]);
            },
            None => {
                let q = o.subcommands@.len() as int;
                law_sub_walk_keeps_every_token(Seq::empty(), Seq::empty(), argv, i + 1);
                assert(n.subcommands@[q].name@ == argv[i]);
            },
        }
    }
}

} // verus!
