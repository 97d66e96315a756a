use vstd::prelude::*;

use crate::config::duration::Duration;

verus! {

/// The default number of lines a `TailFile` action shows.
pub fn default_tail_lines() -> (r: usize)
    ensures
        r == 200,
{
    200
}

/// What a matched rule does.
#[derive(Debug, Clone)]
pub enum Action {
    /// Run `binary` with `args` before the user's arguments, within `timeout`.
    Run { binary: String, args: Vec<String>, timeout: Duration },
    /// Print a file named by a capture, within the allowed roots.
    ReadFile { path_capture: String, root_set: String },
    /// Print the last lines of a file named by a capture.
    TailFile {
        path_capture: String,
        lines_capture: Option<String>,
        default_lines: usize,
        root_set: String,
    },
    /// Describe a path named by a capture.
    StatPath { path_capture: String, root_set: String },
    /// List a directory named by a capture.
    ListDir { path_capture: String, root_set: String },
    /// Print the help text.
    ShowHelp,
}

} // verus!
