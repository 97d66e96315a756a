//! The decisions taken while an action is carried out: which paths may be touched,
//! which binary runs, when a running command has taken too long, and what is printed.
use vstd::prelude::*;

use crate::actions::{path_starts_with, within_roots};
use crate::engine::validate::quoted;
use crate::errors::GuardError;
use crate::merge::{lemma_lex_irreflexive, lemma_lex_total, lemma_lex_transitive, lex_lt};
use crate::text::{append, dec_nat, owned, push_decimal, views};

verus! {

// ---------------------------------------------------------------------------
// Paths and binaries
// ---------------------------------------------------------------------------

/// Accepts the path `input` when it resolves, `canonical` being the path it resolves to
/// (none when it does not), to a path under one of `roots`.
pub fn resolve_within_roots(input: &str, canonical: Option<&str>, roots: &[String]) -> (r: Result<
    (),
    GuardError,
>)
    ensures
        match canonical {
            None => r matches Err(GuardError::PathNotAllowed(m)) && m@ == "cannot resolve path "@
                + quoted(input@),
            Some(c) => {
                &&& r is Ok <==> exists|j: int|
                    0 <= j < roots@.len() && path_starts_with(c@, #[trigger] roots@[j]@)
                &&& r matches Err(e) ==> e matches GuardError::PathNotAllowed(m) && m@ == "path "@
                    + quoted(c@) + " not within any allowed root"@
            },
        },
{
    match canonical {
        None => {
            let mut m = owned("cannot resolve path '");
            append(&mut m, input);
            append(&mut m, "'");
            assert(m@ =~= "cannot resolve path "@ + quoted(input@)) by {
                reveal_strlit("cannot resolve path '");
                reveal_strlit("cannot resolve path ");
                reveal_strlit("'");
            }
            Err(GuardError::PathNotAllowed(m))
        },
        Some(c) => within_roots(c, roots),
    }
}

/// What the file system says about a binary about to run.
#[derive(Debug)]
pub struct BinaryLookup {
    /// Whether a file exists at the path.
    pub exists: bool,
    /// The canonical path, or the message of the error that canonicalizing gave.
    pub canonical: Result<String, String>,
    /// Whether the path itself is a symbolic link, or the message of the error that
    /// reading its metadata gave.
    pub symlink: Result<bool, String>,
}

/// The path to run for `binary`: an error when it does not exist; its canonical path when
/// symbolic links are allowed; the binary itself when they are not and it is no link.
pub fn resolve_binary(binary: &str, implicit_symlinks: bool, found: &BinaryLookup) -> (r: Result<
    String,
    GuardError,
>)
    ensures
        !found.exists ==> (r matches Err(GuardError::Action(m)) && m@ == "binary "@ + quoted(
            binary@,
        ) + " does not exist"@),
        found.exists && implicit_symlinks ==> match found.canonical {
            Ok(p) => r matches Ok(s) && s@ == p@,
            Err(e) => r matches Err(GuardError::Action(m)) && m@ == "cannot resolve binary "@
                + quoted(binary@) + ": "@ + e@,
        },
        found.exists && !implicit_symlinks ==> match found.symlink {
            Err(e) => r matches Err(GuardError::Io(m)) && m@ == e@,
            Ok(true) => r matches Err(GuardError::Action(m)) && m@ == "binary "@ + quoted(binary@)
                + " is a symlink and implicit_symlinks is disabled"@,
            Ok(false) => r matches Ok(s) && s@ == binary@,
        },
{
    proof {
        reveal_strlit("binary '");
        reveal_strlit("binary ");
        reveal_strlit("'");
        reveal_strlit("cannot resolve binary '");
        reveal_strlit("cannot resolve binary ");
        reveal_strlit("' does not exist");
        reveal_strlit(" does not exist");
        reveal_strlit("': ");
        reveal_strlit(": ");
        reveal_strlit("' is a symlink and implicit_symlinks is disabled");
        reveal_strlit(" is a symlink and implicit_symlinks is disabled");
    }
    if !found.exists {
        let mut m = owned("binary '");
        append(&mut m, binary);
        append(&mut m, "' does not exist");
        assert(m@ =~= "binary "@ + quoted(binary@) + " does not exist"@);
        return Err(GuardError::Action(m));
    }
    if implicit_symlinks {
        match &found.canonical {
            Ok(p) => Ok(p.clone()),
            Err(e) => {
                let mut m = owned("cannot resolve binary '");
                append(&mut m, binary);
                append(&mut m, "': ");
                append(&mut m, e.as_str());
                assert(m@ =~= "cannot resolve binary "@ + quoted(binary@) + ": "@ + e@);
                Err(GuardError::Action(m))
            },
        }
    } else {
        match &found.symlink {
            Err(e) => Err(GuardError::Io(e.clone())),
            Ok(true) => {
                let mut m = owned("binary '");
                append(&mut m, binary);
                append(&mut m, "' is a symlink and implicit_symlinks is disabled");
                assert(m@ =~= "binary "@ + quoted(binary@)
                    + " is a symlink and implicit_symlinks is disabled"@);
                Err(GuardError::Action(m))
            },
            Ok(false) => Ok(owned(binary)),
        }
    }
}

// ---------------------------------------------------------------------------
// Running a command
// ---------------------------------------------------------------------------

/// What was seen of a running command when it was last polled.
#[derive(Debug)]
pub enum RunEvent {
    /// It exited, with its exit code (none when a signal ended it).
    Exited { code: Option<i32> },
    /// It is still running, this many nanoseconds after it started.
    Running { elapsed_ns: u128 },
    /// Waiting for it failed, with the error's message.
    WaitFailed { error: String },
}

/// What to do next with a running command.
#[derive(Debug)]
pub enum RunStep {
    /// It is over: exit with this code.
    Finish { code: i32 },
    /// It took too long: kill its process group, wait for it, and fail with this error.
    KillAndFail { error: GuardError },
    /// It failed: report this error.
    Fail { error: GuardError },
    /// Poll again after this many milliseconds.
    Sleep { millis: u64 },
}

/// The step after the event `ev` of the command `binary` that may run `timeout_ms`
/// milliseconds: a command that exited gives its code (1 when a signal ended it); one
/// still running past its time is killed; otherwise it is polled again after 50 ms.
pub fn run_step(binary: &str, timeout_ms: u64, ev: &RunEvent) -> (r: RunStep)
    ensures
        match *ev {
            RunEvent::Exited { code } => r == RunStep::Finish {
                code: match code {
                    Some(c) => c,
                    None => 1,
                },
            },
            RunEvent::Running { elapsed_ns } => if elapsed_ns > timeout_ms as int * 1_000_000 {
                r matches RunStep::KillAndFail { error: GuardError::Action(m) } && m@
                    == "command "@ + quoted(binary@) + " timed out after "@ + dec_nat(
                    timeout_ms as nat,
                ) + "ms"@
            } else {
                r == RunStep::Sleep { millis: 50 }
            },
            RunEvent::WaitFailed { error } => r matches RunStep::Fail {
                error: GuardError::Action(m),
            } && m@ == "error waiting for "@ + quoted(binary@) + ": "@ + error@,
        },
{
    proof {
        reveal_strlit("command '");
        reveal_strlit("command ");
        reveal_strlit("'");
        reveal_strlit("' timed out after ");
        reveal_strlit(" timed out after ");
        reveal_strlit("error waiting for '");
        reveal_strlit("error waiting for ");
        reveal_strlit("': ");
        reveal_strlit(": ");
    }
    match ev {
        RunEvent::Exited { code } => RunStep::Finish {
            code: match code {
                Some(c) => *c,
                None => 1,
            },
        },
        RunEvent::Running { elapsed_ns } => {
            let limit: u128 = timeout_ms as u128 * 1_000_000;
            if *elapsed_ns > limit {
                let mut m = owned("command '");
                append(&mut m, binary);
                append(&mut m, "' timed out after ");
                push_decimal(&mut m, timeout_ms);
                append(&mut m, "ms");
                assert(m@ =~= "command "@ + quoted(binary@) + " timed out after "@ + dec_nat(
                    timeout_ms as nat,
                ) + "ms"@);
                RunStep::KillAndFail { error: GuardError::Action(m) }
            } else {
                RunStep::Sleep { millis: 50 }
            }
        },
        RunEvent::WaitFailed { error } => {
            let mut m = owned("error waiting for '");
            append(&mut m, binary);
            append(&mut m, "': ");
            append(&mut m, error.as_str());
            assert(m@ =~= "error waiting for "@ + quoted(binary@) + ": "@ + error@);
            RunStep::Fail { error: GuardError::Action(m) }
        },
    }
}

// ---------------------------------------------------------------------------
// What actions print
// ---------------------------------------------------------------------------

/// Refuses a file of `size` bytes that is larger than `max_bytes`.
pub fn check_read_size(path: &str, size: u64, max_bytes: usize) -> (r: Result<(), GuardError>)
    ensures
        size <= max_bytes ==> r is Ok,
        size > max_bytes ==> (r matches Err(GuardError::Action(m)) && m@ == "file "@ + quoted(
            path@,
        ) + " is "@ + dec_nat(size as nat) + " bytes, exceeds limit of "@ + dec_nat(
            max_bytes as nat,
        )),
{
    if size as u128 <= max_bytes as u128 {
        return Ok(());
    }
    let mut m = owned("file '");
    append(&mut m, path);
    append(&mut m, "' is ");
    push_decimal(&mut m, size);
    append(&mut m, " bytes, exceeds limit of ");
    push_decimal(&mut m, max_bytes as u64);
    assert(m@ =~= "file "@ + quoted(path@) + " is "@ + dec_nat(size as nat)
        + " bytes, exceeds limit of "@ + dec_nat(max_bytes as nat)) by {
        reveal_strlit("file '");
        reveal_strlit("file ");
        reveal_strlit("'");
        reveal_strlit("' is ");
        reveal_strlit(" is ");
    }
    Err(GuardError::Action(m))
}

/// The name of a kind of file: `directory`, `file` or `symlink` (in that order of
/// precedence), else `other`.
pub open spec fn kind_name(is_dir: bool, is_file: bool, is_symlink: bool) -> Seq<char> {
    if is_dir {
        "directory"@
    } else if is_file {
        "file"@
    } else if is_symlink {
        "symlink"@
    } else {
        "other"@
    }
}

/// What describing a path prints: its path, type and size, one per line.
pub fn describe_path(path: &str, is_dir: bool, is_file: bool, is_symlink: bool, size: u64) -> (r:
    String)
    ensures
        r@ == "path: "@ + path@ + "\n"@ + "type: "@ + kind_name(is_dir, is_file, is_symlink)
            + "\n"@ + "size: "@ + dec_nat(size as nat) + "\n"@,
{
    let kind = if is_dir {
        "directory"
    } else if is_file {
        "file"
    } else if is_symlink {
        "symlink"
    } else {
        "other"
    };
    let mut r = owned("path: ");
    append(&mut r, path);
    append(&mut r, "\n");
    append(&mut r, "type: ");
    append(&mut r, kind);
    append(&mut r, "\n");
    append(&mut r, "size: ");
    push_decimal(&mut r, size);
    append(&mut r, "\n");
    r
}

/// `s` holds no pair out of order.
pub open spec fn sorted_le(s: Seq<Seq<char>>) -> bool {
    forall|i: int, j: int| 0 <= i < j < s.len() ==> !lex_lt(s[j], s[i])
}

/// Each string of `s` followed by a line break.
pub open spec fn lines_of(s: Seq<Seq<char>>) -> Seq<char>
    decreases s.len(),
{
    if s.len() == 0 {
        Seq::empty()
    } else {
        lines_of(s.drop_last()) + s.last() + seq!['\n']
    }
}

/// The names `v` in the order of `String`, equal names kept.
fn sort_names(v: &Vec<String>) -> (r: Vec<String>)
    ensures
        sorted_le(views(r@)),
        views(r@).to_multiset() == views(v@).to_multiset(),
{
    broadcast use vstd::seq_lib::group_to_multiset_ensures;

    let mut r: Vec<String> = Vec::new();
    let mut i: usize = 0;
    assert(views(r@) =~= views(v@).take(0));
    while i < v.len()
        invariant
            i <= v@.len(),
            sorted_le(views(r@)),
            views(r@).to_multiset() == views(v@).take(i as int).to_multiset(),
        decreases v.len() - i,
    {
        let ghost x = v@[i as int]@;
        let ghost rv = views(r@);
        let mut pos: usize = 0;
        while pos < r.len()
            invariant
                pos <= r@.len(),
                rv == views(r@),
                i < v@.len(),
                x == v@[i as int]@,
                forall|j: int| 0 <= j < pos ==> !lex_lt(x, rv[j]),
            ensures
                pos <= r@.len(),
                forall|j: int| 0 <= j < pos ==> !lex_lt(x, rv[j]),
                pos < r@.len() ==> lex_lt(x, rv[pos as int]),
            decreases r.len() - pos,
        {
            if crate::merge::str_lt(v[i].as_str(), r[pos].as_str()) {
                break;
            }
            pos = pos + 1;
        }
        r.insert(pos, v[i].clone());
        proof {
            let nv = views(r@);
            assert(nv.len() == rv.len() + 1);
            assert(forall|j: int| 0 <= j < pos ==> nv[j] == rv[j]);
            assert(nv[pos as int] == x);
            assert(forall|j: int| pos < j < nv.len() ==> nv[j] == rv[j - 1]);
            assert forall|a: int, b: int| 0 <= a < b < nv.len() implies !lex_lt(nv[b], nv[a]) by {
                if b < pos {
                } else if b == pos {
                    if lex_lt(x, nv[a]) {
                        assert(nv[a] == rv[a]);
                    }
                } else if a < pos {
                    if lex_lt(nv[b], nv[a]) {
                        assert(nv[b] == rv[b - 1]);
                        assert(nv[a] == rv[a]);
                    }
                } else if a == pos {
                    if lex_lt(nv[b], x) {
                        lemma_lex_transitive(rv[b - 1], x, rv[pos as int]);
                        if b - 1 == pos {
                            lemma_lex_irreflexive(rv[pos as int]);
                        }
                    }
                } else {
                    assert(nv[a] == rv[a - 1]);
                    assert(nv[b] == rv[b - 1]);
                }
            }
            assert(nv.remove(pos as int) =~= rv);
            assert(views(v@).take(i + 1) =~= views(v@).take(i as int).push(x));
            views(v@).take(i as int).to_multiset_ensures();
            assert(views(v@).take(i as int).push(x).to_multiset() =~= views(v@).take(
                i as int,
            ).to_multiset().insert(x));
            assert(nv.to_multiset() =~= rv.to_multiset().insert(x)) by {
                nv.to_multiset_ensures();
                assert(nv.remove(pos as int).to_multiset() == nv.to_multiset().remove(nv[pos as int]));
                assert(nv.contains(x));
                assert(nv.to_multiset().count(x) > 0);
            }
        }
        i = i + 1;
    }
    assert(views(v@).take(v@.len() as int) =~= views(v@));
    r
}

/// What listing a directory prints: the names of its entries in sorted order, one per
/// line.
pub fn listing(names: &Vec<String>) -> (r: String)
    ensures
        exists|s: Seq<Seq<char>>|
            sorted_le(s) && s.to_multiset() == views(names@).to_multiset() && r@ == lines_of(s),
{
    let sorted = sort_names(names);
    let mut r = String::new();
    let mut i: usize = 0;
    while i < sorted.len()
        invariant
            i <= sorted@.len(),
            r@ == lines_of(views(sorted@).take(i as int)),
        decreases sorted.len() - i,
    {
        assert(views(sorted@).take(i + 1).drop_last() =~= views(sorted@).take(i as int));
        append(&mut r, sorted[i].as_str());
        append(&mut r, "\n");
        proof {
            reveal_strlit("\n");
            assert("\n"@ =~= seq!['\n']);
        }
        i = i + 1;
    }
    assert(views(sorted@).take(sorted@.len() as int) =~= views(sorted@));
    r
}

/// A sorted arrangement of a collection of names is unique: two sorted sequences with
/// the same names, counted with repeats, are the same sequence. So a listing depends on
/// the names alone, not on the order in which the directory gave them.
pub proof fn law_sorted_listing_is_unique(a: Seq<Seq<char>>, b: Seq<Seq<char>>)
    requires
        sorted_le(a),
        sorted_le(b),
        a.to_multiset() == b.to_multiset(),
    ensures
        a == b,
    decreases a.len(),
{
    broadcast use vstd::seq_lib::group_to_multiset_ensures;

    assert(a.to_multiset().len() == a.len());
    assert(b.to_multiset().len() == b.len());
    if a.len() == 0 {
        assert(a =~= b);
    } else {
        let x = a[0];
        let y = b[0];
        assert(a.contains(x));
        assert(b.to_multiset().count(x) > 0);
        assert(b.contains(x));
        let j = choose|j: int| 0 <= j < b.len() && b[j] == x;
        assert(a.to_multiset().count(y) > 0);
        assert(a.contains(y));
        let i = choose|i: int| 0 <= i < a.len() && a[i] == y;
        if x != y {
            lemma_lex_total(x, y);
            if lex_lt(x, y) {
                assert(j > 0);
                assert(!lex_lt(b[j], b[0]));
            } else {
                assert(i > 0);
                assert(!lex_lt(a[i], a[0]));
            }
        }
        assert(a.remove(0) =~= a.drop_first());
        assert(b.remove(0) =~= b.drop_first());
        assert(a.drop_first().to_multiset() == b.drop_first().to_multiset());
        assert(sorted_le(a.drop_first()));
        assert(sorted_le(b.drop_first()));
        law_sorted_listing_is_unique(a.drop_first(), b.drop_first());
        assert(a =~= b) by {
            assert forall|k: int| 0 <= k < a.len() implies a[k] == b[k] by {
                if k > 0 {
                    assert(a[k] == a.drop_first()[k - 1]);
                    assert(b[k] == b.drop_first()[k - 1]);
                }
            }
        }
    }
}

} // verus!
