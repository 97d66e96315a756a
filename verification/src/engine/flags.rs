use vstd::prelude::*;

use crate::config::arg::ArgStyle;
use crate::config::rule::Rule;
use crate::config::subcommand::Subcommand;
use crate::strmap::StrMap;
use crate::text::{clone_strings, starts_with, str_starts_with, views};

verus! {

/// Whether a token reads as a flag in the given style.
pub open spec fn flag_like(tok: Seq<char>, style: ArgStyle) -> bool {
    match style {
        ArgStyle::GnuLong => starts_with(tok, "--"@),
        ArgStyle::PosixShort => starts_with(tok, "-"@) && !starts_with(tok, "--"@),
        ArgStyle::Dos => starts_with(tok, "/"@),
    }
}

/// Whether `token` reads as a flag: `--x` in GNU style, `-x` (but not `--x`) in POSIX
/// style, `/x` in DOS style.
pub fn is_flag_like(token: &str, style: &ArgStyle) -> (r: bool)
    ensures
        r == flag_like(token@, *style),
{
    match style {
        ArgStyle::GnuLong => str_starts_with(token, "--"),
        ArgStyle::PosixShort => str_starts_with(token, "-") && !str_starts_with(token, "--"),
        ArgStyle::Dos => str_starts_with(token, "/"),
    }
}

/// The flags of group `g`, or none when there is no such group.
pub open spec fn group_flags(m: StrMap<Vec<String>>, g: Seq<char>) -> Seq<Seq<char>> {
    match m.lookup(g) {
        Some(fs) => views(fs@),
        None => Seq::empty(),
    }
}

/// The inline flags followed by the flags of each named group, in order.
pub open spec fn expand(
    m: StrMap<Vec<String>>,
    groups: Seq<Seq<char>>,
    inline: Seq<Seq<char>>,
) -> Seq<Seq<char>>
    decreases groups.len(),
{
    if groups.len() == 0 {
        inline
    } else {
        expand(m, groups.drop_last(), inline) + group_flags(m, groups.last())
    }
}

/// The allowed flags of a level: its inline flags, then those of its flag groups.
pub fn expand_flags(
    flag_groups_map: &StrMap<Vec<String>>,
    groups: &[String],
    inline: &[String],
) -> (r: Vec<String>)
    ensures
        views(r@) == expand(*flag_groups_map, views(groups@), views(inline@)),
{
    let mut all = clone_strings(inline);
    let mut i: usize = 0;
    while i < groups.len()
        invariant
            i <= groups@.len(),
            views(all@) == expand(*flag_groups_map, views(groups@).take(i as int), views(inline@)),
        decreases groups.len() - i,
    {
        let ghost before = views(all@);
        proof {
            assert(views(groups@).take(i + 1).drop_last() =~= views(groups@).take(i as int));
            assert(views(groups@).take(i + 1).last() == groups@[i as int]@);
        }
        match flag_groups_map.get(groups[i].as_str()) {
            Some(fs) => {
                let extra = clone_strings(fs.as_slice());
                let mut j: usize = 0;
                while j < extra.len()
                    invariant
                        j <= extra@.len(),
                        views(all@) == before + views(extra@).take(j as int),
                    decreases extra.len() - j,
                {
                    let x = extra[j].clone();
                    proof {
                        crate::text::lemma_views_push(all@, x);
                    }
                    all.push(x);
                    j = j + 1;
                    assert(views(all@) =~= before + views(extra@).take(j as int));
                }
                assert(views(extra@).take(extra@.len() as int) =~= views(extra@));
            },
            None => {
                assert(before =~= before + Seq::<Seq<char>>::empty());
            },
        }
        i = i + 1;
    }
    assert(views(groups@).take(groups@.len() as int) =~= views(groups@));
    all
}

/// The arg style in force at a level: the subcommand's own, else the one in force at the
/// level around it (`outer`).
pub open spec fn eff_style(outer: ArgStyle, sub_style: Option<ArgStyle>) -> ArgStyle {
    match sub_style {
        Some(s) => s,
        None => outer,
    }
}

/// The arg style in force at the rule's top level (`sub` is `None`) or for one of the
/// rule's top-level subcommands `sub`.
pub fn effective_style<'a>(rule: &'a Rule, sub: Option<&'a Subcommand>) -> (r: &'a ArgStyle)
    ensures
        *r == match sub {
            Some(s) => eff_style(rule.arg_style, s.arg_style),
            None => rule.arg_style,
        },
{
    match sub {
        Some(s) => match &s.arg_style {
            Some(st) => st,
            None => &rule.arg_style,
        },
        None => &rule.arg_style,
    }
}

} // verus!
