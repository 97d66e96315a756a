use vstd::prelude::*;

use crate::config::arg::ArgStyle;

verus! {

/// A node of a rule's command tree.
#[derive(Debug)]
pub struct Subcommand {
    pub name: String,
    /// The arg style at this level; when `None`, the one of the parent level (the
    /// enclosing subcommand, or the rule) is inherited.
    pub arg_style: Option<ArgStyle>,
    /// Names of flag groups whose flags are allowed at this level.
    pub flag_groups: Vec<String>,
    /// Flags allowed at this level.
    pub flags: Vec<String>,
    /// Allowed arguments: literals, templates (`{string}`, `{int}`, `{any}`, a contract
    /// name, or a `|`-separated union), templates with a literal prefix or suffix, and
    /// inline flags such as `--depth={int}`.
    pub args: Vec<String>,
    /// Static arguments injected after this subcommand's name when running.
    pub pre_args: Vec<String>,
    /// Nested subcommands.
    pub subcommands: Vec<Subcommand>,
}

} // verus!
