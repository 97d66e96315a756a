use vstd::prelude::*;

verus! {

/// How flags are written on a command line.
#[derive(Debug, Clone, Copy, PartialEq, Eq, Structural)]
pub enum ArgStyle {
    /// `--long` flags.
    GnuLong,
    /// `-s` short flags.
    PosixShort,
    /// `/flag` switches.
    Dos,
}

impl Default for ArgStyle {
    fn default() -> (r: Self)
        ensures
            r == ArgStyle::GnuLong,
    {
        ArgStyle::GnuLong
    }
}

} // verus!
