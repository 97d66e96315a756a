use vstd::prelude::*;

use crate::config::action::Action;
use crate::config::arg::ArgStyle;
use crate::config::subcommand::Subcommand;
use crate::text::chars_of;

verus! {

/// One allowed command: how it is matched and what it does.
#[derive(Debug)]
pub struct Rule {
    pub action: Action,
    /// The first token users must type. For `Run` actions it defaults to the binary's
    /// file name.
    pub command: Option<String>,
    /// If false, the binary path must not be a symlink; if true, symlinks are followed.
    pub implicit_symlinks: bool,
    /// Default arg style for the rule and its subcommands (unless overridden).
    pub arg_style: ArgStyle,
    /// Flag groups allowed at the top level (before any subcommand).
    pub flag_groups: Vec<String>,
    /// Flags allowed at the top level.
    pub flags: Vec<String>,
    /// Allowed arguments when the rule has no subcommands.
    pub args: Vec<String>,
    /// Static arguments placed before the user's argv.
    pub pre_args: Vec<String>,
    /// The command tree.
    pub subcommands: Vec<Subcommand>,
}

pub fn default_implicit() -> (r: bool)
    ensures
        r,
{
    true
}

/// Where the last path segment of `p` begins: just after its last `/`, or 0.
pub open spec fn last_seg_start(p: Seq<char>) -> int
    decreases p.len(),
{
    if p.len() == 0 {
        0
    } else if p.last() == '/' {
        p.len() as int
    } else {
        last_seg_start(p.drop_last())
    }
}

pub proof fn lemma_last_seg_start_bound(p: Seq<char>)
    ensures
        0 <= last_seg_start(p) <= p.len(),
        p.len() > 0 && p.last() != '/' ==> last_seg_start(p) < p.len(),
    decreases p.len(),
{
    if p.len() > 0 && p.last() != '/' {
        lemma_last_seg_start_bound(p.drop_last());
    }
}

/// The last component of a path: trailing `/` and `.` components are skipped.
pub open spec fn last_component(p: Seq<char>) -> Option<Seq<char>>
    decreases p.len(),
{
    if p.len() == 0 {
        None
    } else if p.last() == '/' {
        last_component(p.drop_last())
    } else {
        let k = last_seg_start(p);
        proof {
            lemma_last_seg_start_bound(p);
        }
        if p.skip(k) == seq!['.'] {
            last_component(p.take(k))
        } else {
            Some(p.skip(k))
        }
    }
}

/// What `Path::file_name` gives: the last component, unless it is `..`.
pub open spec fn file_name(p: Seq<char>) -> Option<Seq<char>> {
    match last_component(p) {
        Some(c) => if c == seq!['.', '.'] {
            None
        } else {
            Some(c)
        },
        None => None,
    }
}

/// The command name of a rule: its `command`, or else the file name of a `Run` binary.
pub open spec fn command_name_of(r: Rule) -> Option<Seq<char>> {
    match r.command {
        Some(c) => Some(c@),
        None => match r.action {
            Action::Run { binary, .. } => file_name(binary@),
            _ => None,
        },
    }
}

proof fn lemma_last_seg_start_is(p: Seq<char>, k: int)
    requires
        0 <= k <= p.len(),
        forall|j: int| k <= j < p.len() ==> p[j] != '/',
        k == 0 || p[k - 1] == '/',
    ensures
        last_seg_start(p) == k,
    decreases p.len(),
{
    if p.len() > k {
        lemma_last_seg_start_is(p.drop_last(), k);
    }
}

/// `Path::file_name` of `s`.
pub fn path_file_name(s: &str) -> (r: Option<&str>)
    ensures
        r matches Some(x) ==> file_name(s@) == Some(x@),
        r is None ==> file_name(s@) is None,
{
    let v = chars_of(s);
    let mut end = v.len();
    assert(v@.take(end as int) =~= v@);
    loop
        invariant
            end <= v@.len(),
            v@ == s@,
            last_component(v@) == last_component(v@.take(end as int)),
        decreases end,
    {
        let ghost e0 = end;
        while end > 0 && v[end - 1] == '/'
            invariant
                end <= e0,
                end <= v@.len(),
                last_component(v@) == last_component(v@.take(end as int)),
            decreases end,
        {
            assert(v@.take(end as int).drop_last() =~= v@.take(end - 1));
            end = end - 1;
        }
        if end == 0 {
            return None;
        }
        let mut k = end;
        while k > 0 && v[k - 1] != '/'
            invariant
                k <= end <= v@.len(),
                0 < end,
                v@[end - 1] != '/',
                forall|j: int| k <= j < end ==> v@[j] != '/',
            decreases k,
        {
            k = k - 1;
        }
        let ghost p = v@.take(end as int);
        proof {
            lemma_last_seg_start_is(p, k as int);
            assert(p.take(k as int) =~= v@.take(k as int));
            assert(p.skip(k as int) =~= v@.subrange(k as int, end as int));
        }
        if end - k == 1 && v[k] == '.' {
            assert(p.skip(k as int) =~= seq!['.']);
            end = k;
        } else {
            assert(p.skip(k as int).len() == end - k);
            assert(end - k == 1 ==> p.skip(k as int)[0] == v@[k as int]);
            assert(p.skip(k as int) != seq!['.']);
            if end - k == 2 && v[k] == '.' && v[k + 1] == '.' {
                assert(p.skip(k as int) =~= seq!['.', '.']);
                return None;
            }
            assert(end - k == 2 ==> p.skip(k as int)[0] == v@[k as int] && p.skip(k as int)[1]
                == v@[k + 1]);
            assert(p.skip(k as int) != seq!['.', '.']);
            return Some(s.substring_char(k, end));
        }
    }
}

impl Rule {
    /// The command name users type for this rule: the explicit `command`, or the file
    /// name of a `Run` action's binary.
    pub fn command_name(&self) -> (r: Option<&str>)
        ensures
            r matches Some(x) ==> command_name_of(*self) == Some(x@),
            r is None ==> command_name_of(*self) is None,
    {
        match &self.command {
            Some(cmd) => Some(cmd.as_str()),
            None => match &self.action {
                Action::Run { binary, .. } => path_file_name(binary.as_str()),
                _ => None,
            },
        }
    }

    /// The binary of a `Run` action.
    pub fn binary_path(&self) -> (r: Option<&String>)
        ensures
            match self.action {
                Action::Run { binary, .. } => r == Some(&binary),
                _ => r is None,
            },
    {
        match &self.action {
            Action::Run { binary, .. } => Some(binary),
            _ => None,
        }
    }
}

} // verus!
