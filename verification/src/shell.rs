//! Splitting a command line into words as a POSIX shell would.
use vstd::prelude::*;

use crate::text::views;

verus! {

/// What `shlex::split` gives for the text `s`: its words, or none when the text is not
/// well formed (such as an unclosed quote).
pub uninterp spec fn shell_words(s: Seq<char>) -> Option<Seq<Seq<char>>>;

/// Splits `s` into words with `shlex::split`. The contract claims only that the result
/// is the one that `shell_words` names for the text (the same text always splits the
/// same way); the quoting rules themselves are not stated.
#[verifier::external_body]
pub(crate) fn split_words(s: &str) -> (r: Option<Vec<String>>)
    ensures
        match r {
            Some(v) => shell_words(s@) == Some(views(v@)),
            None => shell_words(s@) is None,
        },
{
    shlex::split(s)
}

} // verus!
