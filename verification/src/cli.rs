//! The command line, as the rest of the program reads it.

use vstd::prelude::*;

verus! {

/// What the command line asked for.
#[derive(Debug, Clone, PartialEq)]
pub struct Args {
    /// Project path (skips selection). Absolute, relative, or `.`.
    pub path: Option<String>,
    /// Create a worktree: `Some("")` for a random name, `Some(name)` to name it.
    pub worktree: Option<String>,
    /// Config group id from the config file (`default` unless given).
    pub config: String,
}

} // verus!
