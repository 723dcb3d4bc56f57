//! The command line as the program reads it: an optional subcommand and the flags that
//! every subcommand shares.
use vstd::prelude::*;

verus! {

/// The parsed command line.
#[derive(Clone, Debug)]
pub struct Cli {
    /// The subcommand; none runs the interactive wizard.
    pub command: Option<Commands>,
    /// Project directory to operate on (defaults to the current directory).
    pub root: Option<String>,
    /// Accept every applicable suggestion without prompting.
    pub yes: bool,
    /// Show what would change but write nothing and run nothing.
    pub dry_run: bool,
}

/// The subcommands.
#[derive(Clone, Copy, Debug, PartialEq, Eq, Structural)]
pub enum Commands {
    /// Print the system and project report, then exit.
    Report,
    /// Audit which optimizations are applied, change nothing, and exit non-zero if any
    /// are pending.
    Doctor,
}

} // verus!
