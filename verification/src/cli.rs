//! The command line of the guard: its subcommands and their options.
use vstd::prelude::*;

verus! {

/// The parsed command line.
#[derive(Debug)]
pub struct Cli {
    pub command: Command,
}

/// What the guard is asked to do.
#[derive(Debug)]
pub enum Command {
    /// Guard an SSH session (the command comes from `SSH_ORIGINAL_COMMAND`).
    Run { config: String },
    /// Add an example command to the rules of the configuration, or of one profile.
    AddRule { config: String, cmd: String, profile: Option<String> },
    /// Validate the configuration's binaries.
    Validate { config: String },
}

} // verus!
