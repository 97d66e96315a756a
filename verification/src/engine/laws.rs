//! Properties of command matching as a whole.
use vstd::prelude::*;

use super::matching::{
    ArgsState, args_loop, arg_step, init_state, match_args, match_from, same_at, try_rule, walk,
    fail_v, first_sub, first_applicable, pattern_template, captured_value,
};
use super::types::{MatchView, PatternV, TmplV};
use crate::text::dec_nat;
use crate::config::arg::ArgStyle;
use crate::config::contract::Contract;
use crate::config::rule::command_name_of;
use crate::config::subcommand::Subcommand;
use crate::config::Config;
use crate::errors::FailureV;
use crate::strmap::StrMap;

verus! {

/// `path` names a chain of nested subcommands starting among `subs`.
pub open spec fn path_in_tree(subs: Seq<Subcommand>, path: Seq<Seq<char>>) -> bool
    decreases path.len(),
{
    path.len() == 0 || exists|k: int|
        0 <= k < subs.len() && #[trigger] subs[k].name@ == path[0] && path_in_tree(
            subs[k].subcommands@,
            path.drop_first(),
        )
}

/// Some failure in `f` belongs to rule `j`.
pub open spec fn has_failure_of(f: Seq<FailureV>, j: int) -> bool {
    exists|q: int| 0 <= q < f.len() && #[trigger] f[q].rule_index == j
}

/// Every failure in `f` from position `from` on belongs to rule `rule_idx`.
pub open spec fn all_of_rule(f: Seq<FailureV>, from: int, rule_idx: int) -> bool {
    forall|j: int| from <= j < f.len() ==> (#[trigger] f[j]).rule_index == rule_idx
}

proof fn lemma_arg_step(
    contracts: StrMap<Contract>,
    i: int,
    tok: Seq<char>,
    path: Seq<Seq<char>>,
    pats: Seq<PatternV>,
    style: ArgStyle,
    rule_idx: int,
    st: ArgsState,
)
    ensures
        ({
            let s2 = arg_step(contracts, i, tok, path, pats, style, rule_idx, st);
            ||| (s2.fails == st.fails && s2.has_error == st.has_error)
            ||| (s2.fails.len() == st.fails.len() + 1 && s2.fails.drop_last() == st.fails
                && s2.fails.last().rule_index == rule_idx && s2.has_error)
        }),
{
    let s2 = arg_step(contracts, i, tok, path, pats, style, rule_idx, st);
    if s2.fails.len() == st.fails.len() + 1 {
        assert(s2.fails.drop_last() =~= st.fails);
    }
}

proof fn lemma_args_loop(
    contracts: StrMap<Contract>,
    argv: Seq<Seq<char>>,
    path: Seq<Seq<char>>,
    pats: Seq<PatternV>,
    style: ArgStyle,
    rule_idx: int,
    i: int,
    st: ArgsState,
)
    ensures
        ({
            let r = args_loop(contracts, argv, path, pats, style, rule_idx, i, st);
            &&& st.fails.len() <= r.fails.len()
            &&& r.fails.take(st.fails.len() as int) == st.fails
            &&& all_of_rule(r.fails, st.fails.len() as int, rule_idx)
            &&& (r.has_error <==> (st.has_error || r.fails.len() > st.fails.len()))
        }),
    decreases argv.len() - i,
{
    if 0 <= i < argv.len() {
        let st2 = arg_step(contracts, i, argv[i], path, pats, style, rule_idx, st);
        lemma_arg_step(contracts, i, argv[i], path, pats, style, rule_idx, st);
        lemma_args_loop(contracts, argv, path, pats, style, rule_idx, i + 1, st2);
        let r = args_loop(contracts, argv, path, pats, style, rule_idx, i, st);
        assert(r == args_loop(contracts, argv, path, pats, style, rule_idx, i + 1, st2));
        assert(r.fails.take(st2.fails.len() as int).take(st.fails.len() as int) =~= r.fails.take(
            st.fails.len() as int,
        ));
        if st2.fails.len() == st.fails.len() + 1 {
            assert(st2.fails.take(st.fails.len() as int) =~= st.fails);
            assert(r.fails[st.fails.len() as int] == st2.fails[st.fails.len() as int]);
        } else {
            assert(st2.fails.take(st.fails.len() as int) =~= st.fails);
        }
    } else {
        assert(st.fails.take(st.fails.len() as int) =~= st.fails);
    }
}

proof fn lemma_match_args(
    contracts: StrMap<Contract>,
    argv: Seq<Seq<char>>,
    start: int,
    path: Seq<Seq<char>>,
    args: Seq<Seq<char>>,
    style: ArgStyle,
    rule_idx: int,
)
    ensures
        ({
            let (m, f) = match_args(contracts, argv, start, path, args, style, rule_idx);
            &&& all_of_rule(f, 0, rule_idx)
            &&& match m {
                Some(v) => v.rule_index == rule_idx && v.path == path && f.len() == 0,
                None => f.len() > 0,
            }
        }),
{
    lemma_args_loop(
        contracts,
        argv,
        path,
        super::matching::patterns_of(args),
        style,
        rule_idx,
        start,
        init_state(),
    );
}

pub proof fn lemma_first_sub_range(subs: Seq<Subcommand>, tok: Seq<char>, k: int)
    ensures
        first_sub(subs, tok, k) matches Some(j) ==> k <= j < subs.len() && subs[j].name@ == tok,
    decreases subs.len() - k,
{
    if 0 <= k < subs.len() && subs[k].name@ != tok {
        lemma_first_sub_range(subs, tok, k + 1);
    }
}

proof fn lemma_walk(
    groups: StrMap<Vec<String>>,
    contracts: StrMap<Contract>,
    outer_style: ArgStyle,
    subs: Seq<Subcommand>,
    argv: Seq<Seq<char>>,
    start: int,
    path: Seq<Seq<char>>,
    rule_idx: int,
    nested: bool,
)
    ensures
        ({
            let (m, f) = walk(groups, contracts, outer_style, subs, argv, start, path, rule_idx, nested);
            &&& all_of_rule(f, 0, rule_idx)
            &&& match m {
                Some(v) => {
                    &&& v.rule_index == rule_idx
                    &&& f.len() == 0
                    &&& path.len() < v.path.len()
                    &&& v.path.take(path.len() as int) == path
                    &&& path_in_tree(subs, v.path.skip(path.len() as int))
                },
                None => f.len() > 0,
            }
        }),
    decreases subs,
{
    let tok = argv[start];
    lemma_first_sub_range(subs, tok, 0);
    match first_sub(subs, tok, 0) {
        None => {},
        Some(k) => if 0 <= k < subs.len() {
            let sub = subs[k];
            let np = path.push(sub.name@);
            let style = super::flags::eff_style(outer_style, sub.arg_style);
            let allowed = super::flags::expand(
                groups,
                crate::text::views(sub.flag_groups@),
                crate::text::views(sub.flags@),
            );
            let i = super::matching::consume(argv, start + 1, allowed, style);
            if 0 <= i < argv.len() && first_sub(sub.subcommands@, argv[i], 0) is Some {
                lemma_walk(
                    groups,
                    contracts,
                    style,
                    sub.subcommands@,
                    argv,
                    i,
                    np,
                    rule_idx,
                    true,
                );
                let (m, f) = walk(
                    groups,
                    contracts,
                    style,
                    sub.subcommands@,
                    argv,
                    i,
                    np,
                    rule_idx,
                    true,
                );
                if let Some(v) = m {
                    assert(v.path.take(np.len() as int).take(path.len() as int) =~= v.path.take(
                        path.len() as int,
                    ));
                    assert(np.take(path.len() as int) =~= path);
                    let rest = v.path.skip(path.len() as int);
                    assert(rest[0] == np[path.len() as int]);
                    assert(rest.drop_first() =~= v.path.skip(np.len() as int));
                    assert(subs[k].name@ == rest[0]);
                    assert(path_in_tree(subs[k].subcommands@, rest.drop_first()));
                    assert(path_in_tree(subs, rest));
                }
            } else {
                lemma_match_args(contracts, argv, i, np, crate::text::views(sub.args@), style, rule_idx);
                let (m, f) = match_args(contracts, argv, i, np, crate::text::views(sub.args@), style, rule_idx);
                if let Some(v) = m {
                    assert(np.take(path.len() as int) =~= path);
                    let rest = v.path.skip(path.len() as int);
                    assert(rest =~= seq![sub.name@]);
                    assert(rest.drop_first().len() == 0);
                    assert(subs[k].name@ == rest[0]);
                    assert(path_in_tree(subs[k].subcommands@, rest.drop_first()));
                    assert(path_in_tree(subs, rest));
                }
            }
        },
    }
}

/// What `try_rule` gives: a match for rule `k` itself whose subcommand path is a chain of
/// the rule's subcommands, with no failures; or at least one failure, all of rule `k`.
pub proof fn lemma_try_rule(cfg: Config, k: int, argv: Seq<Seq<char>>, same_file: bool)
    ensures
        ({
            let (m, f) = try_rule(cfg, k, argv, same_file);
            &&& all_of_rule(f, 0, k)
            &&& match m {
                Some(v) => v.rule_index == k && f.len() == 0 && path_in_tree(
                    cfg.rules@[k].subcommands@,
                    v.path,
                ),
                None => f.len() > 0,
            }
        }),
{
    reveal(try_rule);
    let rule = cfg.rules@[k];
    if argv.len() > 0 {
        let cmd = crate::config::rule::command_name_of(rule);
        if !(cmd is Some && argv[0] != cmd->0 && !same_file) {
            let start = if cmd is Some {
                1int
            } else {
                0int
            };
            let top = super::flags::expand(
                cfg.flag_groups,
                crate::text::views(rule.flag_groups@),
                crate::text::views(rule.flags@),
            );
            let i = super::matching::consume(argv, start, top, rule.arg_style);
            if i < argv.len() {
                if rule.subcommands@.len() > 0 {
                    lemma_walk(
                        cfg.flag_groups,
                        cfg.contracts,
                        rule.arg_style,
                        rule.subcommands@,
                        argv,
                        i,
                        Seq::empty(),
                        k,
                        false,
                    );
                    let (m, f) = walk(
                        cfg.flag_groups,
                        cfg.contracts,
                        rule.arg_style,
                        rule.subcommands@,
                        argv,
                        i,
                        Seq::empty(),
                        k,
                        false,
                    );
                    if let Some(v) = m {
                        assert(v.path.skip(0) =~= v.path);
                    }
                } else if rule.args@.len() > 0 {
                    lemma_match_args(
                        cfg.contracts,
                        argv,
                        i,
                        Seq::empty(),
                        crate::text::views(rule.args@),
                        rule.arg_style,
                        k,
                    );
                }
            }
        }
    }
}

proof fn lemma_match_from(cfg: Config, argv: Seq<Seq<char>>, same_file: Seq<bool>, k: int)
    requires
        0 <= k,
    ensures
        ({
            let (m, f) = match_from(cfg, argv, same_file, k);
            match m {
                Some(v) => {
                    &&& k <= v.rule_index < cfg.rules@.len()
                    &&& try_rule(cfg, v.rule_index, argv, same_at(same_file, v.rule_index)).0
                        == Some(v)
                    &&& forall|j: int|
                        k <= j < v.rule_index ==> (#[trigger] try_rule(
                            cfg,
                            j,
                            argv,
                            same_at(same_file, j),
                        )).0 is None
                },
                None => {
                    &&& forall|j: int|
                        k <= j < cfg.rules@.len() ==> (#[trigger] try_rule(
                            cfg,
                            j,
                            argv,
                            same_at(same_file, j),
                        )).0 is None
                    &&& forall|j: int|
                        k <= j < cfg.rules@.len() ==> #[trigger] has_failure_of(f, j)
                },
            }
        }),
    decreases cfg.rules@.len() - k,
{
    if k < cfg.rules@.len() {
        lemma_try_rule(cfg, k, argv, same_at(same_file, k));
        lemma_match_from(cfg, argv, same_file, k + 1);
        let (r, f) = try_rule(cfg, k, argv, same_at(same_file, k));
        if r is None {
            let (r2, f2) = match_from(cfg, argv, same_file, k + 1);
            if r2 is None {
                assert forall|j: int| k <= j < cfg.rules@.len() implies #[trigger] has_failure_of(
                    f + f2,
                    j,
                ) by {
                    if j == k {
                        assert((f + f2)[0].rule_index == k);
                    } else {
                        assert(has_failure_of(f2, j));
                        let q = choose|q: int| 0 <= q < f2.len() && #[trigger] f2[q].rule_index == j;
                        assert((f + f2)[f.len() + q] == f2[q]);
                    }
                }
            }
        }
    }
}

/// The first rule that matches wins: a match comes from the lowest-numbered rule that
/// matches on its own, and every rule before it fails; when nothing matches, every rule
/// fails and each one contributes at least one failure saying why.
pub proof fn law_first_matching_rule_wins(cfg: Config, argv: Seq<Seq<char>>, same_file: Seq<bool>)
    ensures
        ({
            let (m, f) = match_from(cfg, argv, same_file, 0);
            match m {
                Some(v) => {
                    &&& 0 <= v.rule_index < cfg.rules@.len()
                    &&& try_rule(cfg, v.rule_index, argv, same_at(same_file, v.rule_index)).0
                        == Some(v)
                    &&& forall|j: int|
                        0 <= j < v.rule_index ==> (#[trigger] try_rule(
                            cfg,
                            j,
                            argv,
                            same_at(same_file, j),
                        )).0 is None
                },
                None => {
                    &&& forall|j: int|
                        0 <= j < cfg.rules@.len() ==> (#[trigger] try_rule(
                            cfg,
                            j,
                            argv,
                            same_at(same_file, j),
                        )).0 is None
                    &&& forall|j: int|
                        0 <= j < cfg.rules@.len() ==> #[trigger] has_failure_of(f, j)
                },
            }
        }),
{
    lemma_match_from(cfg, argv, same_file, 0);
}

/// A match names the rule it came from, and its subcommand path is a chain of that
/// rule's (nested) subcommands.
pub proof fn law_match_path_in_rule_tree(cfg: Config, argv: Seq<Seq<char>>, same_file: Seq<bool>)
    ensures
        match match_from(cfg, argv, same_file, 0).0 {
            Some(v) => 0 <= v.rule_index < cfg.rules@.len() && path_in_tree(
                cfg.rules@[v.rule_index].subcommands@,
                v.path,
            ),
            None => true,
        },
{
    lemma_match_from(cfg, argv, same_file, 0);
    if let Some(v) = match_from(cfg, argv, same_file, 0).0 {
        lemma_try_rule(cfg, v.rule_index, argv, same_at(same_file, v.rule_index));
    }
}

proof fn lemma_empty_argv(cfg: Config, same_file: Seq<bool>, k: int)
    requires
        0 <= k <= cfg.rules@.len(),
    ensures
        match_from(cfg, Seq::empty(), same_file, k) == (
            None::<MatchView>,
            Seq::new(
                (cfg.rules@.len() - k) as nat,
                |j: int| fail_v(j + k, Seq::empty(), 0, Seq::empty(), "empty command"@),
            ),
        ),
    decreases cfg.rules@.len() - k,
{
    reveal(try_rule);
    if k < cfg.rules@.len() {
        lemma_empty_argv(cfg, same_file, k + 1);
        let (r2, f2) = match_from(cfg, Seq::empty(), same_file, k + 1);
        let f = seq![fail_v(k, Seq::empty(), 0, Seq::empty(), "empty command"@)];
        assert(f + f2 =~= Seq::new(
            (cfg.rules@.len() - k) as nat,
            |j: int| fail_v(j + k, Seq::empty(), 0, Seq::empty(), "empty command"@),
        ));
    } else {
        assert(Seq::new(
            (cfg.rules@.len() - k) as nat,
            |j: int| fail_v(j + k, Seq::empty(), 0, Seq::empty(), "empty command"@),
        ) =~= Seq::<FailureV>::empty());
    }
}

/// Once a rule's command token is got past (the command's own name, or a word naming the
/// same file), every failure that rule records has a path that starts with the
/// command's name, followed by the subcommands got past.
pub proof fn law_failure_paths_start_with_command(
    cfg: Config,
    k: int,
    argv: Seq<Seq<char>>,
    same_file: bool,
)
    requires
        0 <= k < cfg.rules@.len(),
        argv.len() > 0,
        command_name_of(cfg.rules@[k]) is Some,
        argv[0] == command_name_of(cfg.rules@[k])->0 || same_file,
    ensures
        forall|j: int|
            0 <= j < try_rule(cfg, k, argv, same_file).1.len() ==> {
                let p = (#[trigger] try_rule(cfg, k, argv, same_file).1[j]).path;
                p.len() >= 1 && p[0] == command_name_of(cfg.rules@[k])->0
            },
{
    reveal(try_rule);
}

/// An empty command matches no rule, and each rule, in order, fails with
/// "empty command" at token 0.
pub proof fn law_empty_command_matches_nothing(cfg: Config, same_file: Seq<bool>)
    ensures
        match_from(cfg, Seq::empty(), same_file, 0) == (
            None::<MatchView>,
            Seq::new(
                cfg.rules@.len(),
                |j: int| fail_v(j, Seq::empty(), 0, Seq::empty(), "empty command"@),
            ),
        ),
{
    lemma_empty_argv(cfg, same_file, 0);
    assert(Seq::new(
        (cfg.rules@.len() - 0) as nat,
        |j: int| fail_v(j + 0, Seq::empty(), 0, Seq::empty(), "empty command"@),
    ) =~= Seq::new(
        cfg.rules@.len(),
        |j: int| fail_v(j, Seq::empty(), 0, Seq::empty(), "empty command"@),
    ));
}

proof fn lemma_extend_rules(
    cfg: Config,
    cfg2: Config,
    argv: Seq<Seq<char>>,
    same_file: Seq<bool>,
    k: int,
)
    requires
        0 <= k,
        cfg2.flag_groups == cfg.flag_groups,
        cfg2.contracts == cfg.contracts,
        cfg.rules@.len() <= cfg2.rules@.len(),
        forall|j: int| 0 <= j < cfg.rules@.len() ==> cfg2.rules@[j] == cfg.rules@[j],
        match_from(cfg, argv, same_file, k).0 is Some,
    ensures
        match_from(cfg2, argv, same_file, k).0 == match_from(cfg, argv, same_file, k).0,
    decreases cfg.rules@.len() - k,
{
    if k < cfg.rules@.len() {
        reveal(try_rule);
        assert(try_rule(cfg2, k, argv, same_at(same_file, k)) == try_rule(
            cfg,
            k,
            argv,
            same_at(same_file, k),
        ));
        if try_rule(cfg, k, argv, same_at(same_file, k)).0 is None {
            lemma_extend_rules(cfg, cfg2, argv, same_file, k + 1);
        }
    }
}

/// Adding rules after the existing ones never changes a command that already matched.
pub proof fn law_appended_rules_keep_matches(
    cfg: Config,
    cfg2: Config,
    argv: Seq<Seq<char>>,
    same_file: Seq<bool>,
)
    requires
        cfg2.flag_groups == cfg.flag_groups,
        cfg2.contracts == cfg.contracts,
        cfg.rules@.len() <= cfg2.rules@.len(),
        forall|j: int| 0 <= j < cfg.rules@.len() ==> cfg2.rules@[j] == cfg.rules@[j],
        match_from(cfg, argv, same_file, 0).0 is Some,
    ensures
        match_from(cfg2, argv, same_file, 0).0 == match_from(cfg, argv, same_file, 0).0,
{
    lemma_extend_rules(cfg, cfg2, argv, same_file, 0);
}

/// Whether token `tok` is taken by a placeholder that has no name of its own: the first
/// pattern that takes it holds a template other than a contract name.
pub open spec fn taken_unnamed(tok: Seq<char>, pats: Seq<PatternV>, style: ArgStyle) -> bool {
    match first_applicable(tok, pats, style, 0) {
        Some(k) => match pattern_template(pats[k]) {
            Some(t) => !(t is ContractRef),
            None => false,
        },
        None => false,
    }
}

/// How many of the tokens `argv[start..j)` are taken by placeholders without a name.
pub open spec fn unnamed_before(
    argv: Seq<Seq<char>>,
    pats: Seq<PatternV>,
    style: ArgStyle,
    start: int,
    j: int,
) -> nat
    decreases j - start,
{
    if j <= start {
        0
    } else {
        unnamed_before(argv, pats, style, start, j - 1) + if taken_unnamed(argv[j - 1], pats, style) {
            1nat
        } else {
            0nat
        }
    }
}

/// Taking the tokens up to `m` is taking those before `m`, then token `m`.
proof fn lemma_args_loop_last(
    contracts: StrMap<Contract>,
    argv: Seq<Seq<char>>,
    path: Seq<Seq<char>>,
    pats: Seq<PatternV>,
    style: ArgStyle,
    rule_idx: int,
    i: int,
    m: int,
    st: ArgsState,
)
    requires
        0 <= i <= m < argv.len(),
    ensures
        args_loop(contracts, argv.take(m + 1), path, pats, style, rule_idx, i, st) == arg_step(
            contracts,
            m,
            argv[m],
            path,
            pats,
            style,
            rule_idx,
            args_loop(contracts, argv.take(m), path, pats, style, rule_idx, i, st),
        ),
    decreases m - i,
{
    let a1 = argv.take(m + 1);
    let a0 = argv.take(m);
    if i == m {
        assert(a1[m] == argv[m]);
        assert(args_loop(contracts, a1, path, pats, style, rule_idx, m + 1, arg_step(
            contracts, m, argv[m], path, pats, style, rule_idx, st)) == arg_step(
            contracts, m, argv[m], path, pats, style, rule_idx, st));
    } else {
        assert(a1[i] == argv[i]);
        assert(a0[i] == argv[i]);
        let st2 = arg_step(contracts, i, argv[i], path, pats, style, rule_idx, st);
        lemma_args_loop_last(contracts, argv, path, pats, style, rule_idx, i + 1, m, st2);
    }
}

/// The numbering of unnamed captures after the tokens `argv[start..m)` have been taken
/// counts exactly the tokens taken by placeholders without a name.
proof fn lemma_args_counter(
    contracts: StrMap<Contract>,
    argv: Seq<Seq<char>>,
    path: Seq<Seq<char>>,
    pats: Seq<PatternV>,
    style: ArgStyle,
    rule_idx: int,
    start: int,
    m: int,
)
    requires
        0 <= start <= m <= argv.len(),
    ensures
        args_loop(contracts, argv.take(m), path, pats, style, rule_idx, start, init_state()).counter
            == unnamed_before(argv, pats, style, start, m),
    decreases m - start,
{
    if m > start {
        lemma_args_counter(contracts, argv, path, pats, style, rule_idx, start, m - 1);
        lemma_args_loop_last(contracts, argv, path, pats, style, rule_idx, start, m - 1, init_state());
    } else {
        assert(argv.take(m).len() == m);
    }
}

/// Unnamed captures are numbered consecutively from `arg_0` among the tokens taken by
/// placeholders that are not contract names, whatever contract placeholders come
/// between them: once token `j` is taken by such a placeholder, its value is captured
/// under `arg_K`, where `K` is how many earlier tokens (from `start`) such placeholders
/// took. A token taken by a contract placeholder is captured under the contract's name.
pub proof fn law_unnamed_captures_numbered(
    contracts: StrMap<Contract>,
    argv: Seq<Seq<char>>,
    path: Seq<Seq<char>>,
    pats: Seq<PatternV>,
    style: ArgStyle,
    rule_idx: int,
    start: int,
    j: int,
)
    requires
        0 <= start <= j < argv.len(),
        first_applicable(argv[j], pats, style, 0) is Some,
    ensures
        ({
            let k = first_applicable(argv[j], pats, style, 0)->0;
            let st = args_loop(contracts, argv.take(j + 1), path, pats, style, rule_idx, start, init_state());
            let v = captured_value(argv[j], pats[k]);
            &&& taken_unnamed(argv[j], pats, style) ==> {
                let key = "arg_"@ + dec_nat(unnamed_before(argv, pats, style, start, j));
                st.caps.contains_key(key) && st.caps[key] == v
            }
            &&& pattern_template(pats[k]) matches Some(TmplV::ContractRef(n)) ==> st.caps.contains_key(n)
                && st.caps[n] == v
        }),
{
    lemma_args_counter(contracts, argv, path, pats, style, rule_idx, start, j);
    lemma_args_loop_last(contracts, argv, path, pats, style, rule_idx, start, j, init_state());
}

/// Taking all the tokens from `start` leaves the numbering at the count of tokens taken
/// by placeholders without a name: contract placeholders never use up a number.
pub proof fn law_unnamed_count(
    contracts: StrMap<Contract>,
    argv: Seq<Seq<char>>,
    path: Seq<Seq<char>>,
    pats: Seq<PatternV>,
    style: ArgStyle,
    rule_idx: int,
    start: int,
)
    requires
        0 <= start <= argv.len(),
    ensures
        args_loop(contracts, argv, path, pats, style, rule_idx, start, init_state()).counter
            == unnamed_before(argv, pats, style, start, argv.len() as int),
{
    lemma_args_counter(contracts, argv, path, pats, style, rule_idx, start, argv.len() as int);
    assert(argv.take(argv.len() as int) =~= argv);
}

} // verus!
