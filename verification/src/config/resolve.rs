//! The configuration in effect for one SSH user: the base configuration extended by the
//! profile that lists the user.
use vstd::prelude::*;

use crate::config::global::Global;
use crate::config::profile::Profile;
use crate::config::rule::Rule;
use crate::config::Config;
use crate::engine::laws::law_appended_rules_keep_matches;
use crate::engine::matching::match_from;
use crate::errors::GuardError;
use crate::merge::{
    add_unique, lemma_add_unique_prefix, lemma_contains_push, no_dups, rules_or_none,
};
use crate::strmap::{lookup_in, StrMap};
use crate::text::{append, contains_string, owned, str_eq, views};

verus! {

/// Whether the profile entry `e[k]` lists `user`.
pub open spec fn lists_user(e: Seq<(String, Profile)>, user: Seq<char>, k: int) -> bool {
    views(e[k].1.users@).contains(user)
}

/// The first profile entry at or after `k` that lists `user`.
pub open spec fn first_listing(e: Seq<(String, Profile)>, user: Seq<char>, k: int) -> Option<int>
    decreases e.len() - k,
{
    if k < 0 || k >= e.len() {
        None
    } else if lists_user(e, user, k) {
        Some(k)
    } else {
        first_listing(e, user, k + 1)
    }
}

/// The value of `k` in `over` when it has one, else in `base`.
pub open spec fn overlay_lookup<V>(base: StrMap<V>, over: Option<StrMap<V>>, k: Seq<char>) -> Option<
    V,
> {
    match over {
        Some(m) => match m.lookup(k) {
            Some(v) => Some(v),
            None => base.lookup(k),
        },
        None => base.lookup(k),
    }
}

/// `base` followed by each string of `extra` that is not there yet.
pub open spec fn append_unique(base: Seq<Seq<char>>, extra: Seq<Seq<char>>) -> Seq<Seq<char>>
    decreases extra.len(),
{
    if extra.len() == 0 {
        base
    } else {
        add_unique(append_unique(base, extra.drop_last()), extra.last())
    }
}

/// The strings of an optional list, none when there is no list.
pub open spec fn strings_or_none(o: Option<Vec<String>>) -> Seq<Seq<char>> {
    match o {
        Some(v) => views(v@),
        None => Seq::empty(),
    }
}

/// The settings in effect under a profile: the profile's overrides, if any, over the base.
pub open spec fn profile_global(p: Profile, base: Global) -> Global {
    match p.global {
        Some(o) => o.applied(base),
        None => base,
    }
}

/// `c` is `base` extended by the profile `p`: overridden settings; contracts and flag
/// groups merged with the profile's keys winning; the profile's rules after the base
/// rules; its roots and units appended after the base ones, leaving out those already
/// there; and no profiles.
pub open spec fn extended_by(base: Config, p: Profile, c: Config) -> bool {
    &&& c.global == profile_global(p, base.global)
    &&& forall|k: Seq<char>|
        #[trigger] c.contracts.lookup(k) == overlay_lookup(base.contracts, p.contracts, k)
    &&& forall|k: Seq<char>|
        #[trigger] c.flag_groups.lookup(k) == overlay_lookup(base.flag_groups, p.flag_groups, k)
    &&& p.contracts is None ==> c.contracts == base.contracts
    &&& p.flag_groups is None ==> c.flag_groups == base.flag_groups
    &&& c.rules@ == base.rules@ + rules_or_none(p.rules)
    &&& views(c.roots@) == append_unique(views(base.roots@), strings_or_none(p.roots))
    &&& views(c.units@) == append_unique(views(base.units@), strings_or_none(p.units))
    &&& c.profiles.entries_seq().len() == 0
}

/// `c` is `base` as it is, without its profiles.
pub open spec fn unextended(base: Config, c: Config) -> bool {
    &&& c.global == base.global
    &&& c.contracts == base.contracts
    &&& c.flag_groups == base.flag_groups
    &&& c.rules == base.rules
    &&& c.roots == base.roots
    &&& c.units == base.units
    &&& c.profiles.entries_seq().len() == 0
}

/// The message for a user that two profiles list.
pub open spec fn ambiguous_user_msg(user: Seq<char>, a: Seq<char>, b: Seq<char>) -> Seq<char> {
    "user '"@ + user + "' is listed in more than one profile: '"@ + a + "' and '"@ + b + "'"@
}

/// Puts the entries of `over` into `base`, replacing the values of keys it has.
fn overlay<V>(base: &mut StrMap<V>, over: StrMap<V>)
    ensures
        forall|k: Seq<char>|
            #[trigger] final(base).lookup(k) == overlay_lookup(*old(base), Some(over), k),
{
    let ghost b0 = *base;
    let mut entries = over.into_entries();
    let ghost e = entries@;
    let ghost n = e.len();
    assert(e.skip(0) =~= e);
    assert(n == entries.len());
    let mut i: usize = 0;
    while entries.len() > 0
        invariant
            i <= n,
            n <= usize::MAX,
            n == e.len(),
            entries@ == e.skip(i as int),
            forall|k: Seq<char>|
                #[trigger] base.lookup(k) == match lookup_in(e.take(i as int), k) {
                    Some(v) => Some(v),
                    None => b0.lookup(k),
                },
        decreases entries.len(),
    {
        let (k, v) = entries.remove(0);
        proof {
            assert(e.skip(i as int)[0] == e[i as int]);
            assert(e.take(i + 1).drop_last() =~= e.take(i as int));
            assert(e.take(i + 1).last() == e[i as int]);
            assert(entries@ =~= e.skip(i + 1));
        }
        base.insert(k, v);
        i = i + 1;
    }
    assert(e.take(n as int) =~= e);
}

/// Appends to `base` each string of `extra` that it does not hold yet, in order.
fn push_missing(base: &mut Vec<String>, extra: Vec<String>)
    ensures
        views(final(base)@) == append_unique(views(old(base)@), views(extra@)),
{
    let mut i: usize = 0;
    while i < extra.len()
        invariant
            i <= extra@.len(),
            views(base@) == append_unique(views(old(base)@), views(extra@).take(i as int)),
        decreases extra.len() - i,
    {
        let ghost before = views(base@);
        proof {
            assert(views(extra@).take(i + 1).drop_last() =~= views(extra@).take(i as int));
        }
        if !contains_string(base.as_slice(), extra[i].as_str()) {
            base.push(extra[i].clone());
            assert(views(base@) =~= before.push(extra@[i as int]@));
        }
        i = i + 1;
    }
    assert(views(extra@).take(extra@.len() as int) =~= views(extra@));
}

fn lists(p: &Profile, user: &str) -> (r: bool)
    ensures
        r == views(p.users@).contains(user@),
{
    contains_string(p.users.as_slice(), user)
}

impl Config {
    /// The configuration in effect for `user`. When no profile lists the user, it is the
    /// base configuration; when one does, it is the base extended by that profile (see
    /// `extended_by`); a user listed by two profiles is an error. The result has no
    /// profiles.
    pub fn resolve_for_user(self, user: &str) -> (r: Result<Config, GuardError>)
        ensures
            ({
                let e = self.profiles.entries_seq();
                match first_listing(e, user@, 0) {
                    None => r matches Ok(c) && unextended(self, c),
                    Some(p) => match first_listing(e, user@, p + 1) {
                        Some(q) => r matches Err(GuardError::Config(m)) && m@ == ambiguous_user_msg(
                            user@,
                            e[p].0@,
                            e[q].0@,
                        ),
                        None => r matches Ok(c) && extended_by(self, e[p].1, c),
                    },
                }
            }),
    {
        let ghost e = self.profiles.entries_seq();
        let ghost base = self;
        let global = self.global;
        let contracts = self.contracts;
        let flag_groups = self.flag_groups;
        let rules = self.rules;
        let roots = self.roots;
        let units = self.units;
        let mut entries = self.profiles.into_entries();
        let mut found: Option<usize> = None;
        let mut k: usize = 0;
        while k < entries.len()
            invariant
                entries@ == e,
                e == self.profiles.entries_seq(),
                k <= e.len(),
                match found {
                    None => first_listing(e, user@, 0) == first_listing(e, user@, k as int),
                    Some(p) => {
                        &&& p < k
                        &&& first_listing(e, user@, 0) == Some(p as int)
                        &&& first_listing(e, user@, p + 1) == first_listing(e, user@, k as int)
                    },
                },
            decreases entries.len() - k,
        {
            if lists(&entries[k].1, user) {
                match found {
                    None => {
                        found = Some(k);
                    },
                    Some(p) => {
                        assert(first_listing(e, user@, k as int) == Some(k as int));
                        let mut m = owned("user '");
                        append(&mut m, user);
                        append(&mut m, "' is listed in more than one profile: '");
                        append(&mut m, entries[p].0.as_str());
                        append(&mut m, "' and '");
                        append(&mut m, entries[k].0.as_str());
                        append(&mut m, "'");
                        assert(m@ == ambiguous_user_msg(user@, e[p as int].0@, e[k as int].0@));
                        assert(first_listing(e, user@, 0) == Some(p as int));
                        assert(first_listing(e, user@, p + 1) == Some(k as int));
                        return Err(GuardError::Config(m));
                    },
                }
            }
            k = k + 1;
        }
        match found {
            None => Ok(
                Config {
                    global,
                    contracts,
                    flag_groups,
                    rules,
                    roots,
                    units,
                    profiles: StrMap::new(),
                },
            ),
            Some(p) => {
                let (_name, profile) = entries.remove(p);
                let Profile {
                    users: _,
                    global: over_global,
                    contracts: over_contracts,
                    flag_groups: over_groups,
                    rules: over_rules,
                    roots: over_roots,
                    units: over_units,
                } = profile;
                let new_global = match &over_global {
                    Some(o) => o.apply_to(&global),
                    None => global,
                };
                let mut contracts = contracts;
                match over_contracts {
                    Some(m) => overlay(&mut contracts, m),
                    None => {},
                }
                let mut flag_groups = flag_groups;
                match over_groups {
                    Some(m) => overlay(&mut flag_groups, m),
                    None => {},
                }
                let mut rules = rules;
                match over_rules {
                    Some(mut extra) => rules.append(&mut extra),
                    None => {},
                }
                let mut roots = roots;
                match over_roots {
                    Some(extra) => push_missing(&mut roots, extra),
                    None => {},
                }
                let mut units = units;
                match over_units {
                    Some(extra) => push_missing(&mut units, extra),
                    None => {},
                }
                Ok(
                    Config {
                        global: new_global,
                        contracts,
                        flag_groups,
                        rules,
                        roots,
                        units,
                        profiles: StrMap::new(),
                    },
                )
            },
        }
    }
}

/// Appending without repeats keeps the base list first and in order, and ends up with
/// exactly the strings of both lists; a base list without repeats stays without repeats.
pub proof fn law_append_unique_keeps_base_first(base: Seq<Seq<char>>, extra: Seq<Seq<char>>)
    ensures
        append_unique(base, extra).len() >= base.len(),
        append_unique(base, extra).take(base.len() as int) == base,
        forall|x: Seq<char>|
            #[trigger] append_unique(base, extra).contains(x) <==> base.contains(x)
                || extra.contains(x),
        no_dups(base) ==> no_dups(append_unique(base, extra)),
    decreases extra.len(),
{
    if extra.len() == 0 {
        assert(base.take(base.len() as int) =~= base);
    } else {
        let prev = append_unique(base, extra.drop_last());
        law_append_unique_keeps_base_first(base, extra.drop_last());
        lemma_add_unique_prefix(prev, extra.last());
        assert(add_unique(prev, extra.last()).take(base.len() as int) =~= add_unique(
            prev,
            extra.last(),
        ).take(prev.len() as int).take(base.len() as int));
        lemma_contains_push(prev, extra.last());
        lemma_contains_push(extra.drop_last(), extra.last());
        assert(extra.drop_last().push(extra.last()) =~= extra);
    }
}

/// Under a profile that overrides no contract and no flag group, every command that
/// the base configuration allows is still matched by the same rule, in the same way: the
/// profile's rules only come after the base rules.
pub proof fn law_profile_keeps_base_matches(
    base: Config,
    p: Profile,
    c: Config,
    argv: Seq<Seq<char>>,
    same_file: Seq<bool>,
)
    requires
        extended_by(base, p, c),
        p.contracts is None,
        p.flag_groups is None,
        match_from(base, argv, same_file, 0).0 is Some,
    ensures
        match_from(c, argv, same_file, 0).0 == match_from(base, argv, same_file, 0).0,
{
    assert forall|j: int| 0 <= j < base.rules@.len() implies c.rules@[j] == base.rules@[j] by {
        assert(c.rules@[j] == (base.rules@ + rules_or_none(p.rules))[j]);
    }
    law_appended_rules_keep_matches(base, c, argv, same_file);
}

} // verus!
