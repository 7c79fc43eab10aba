//! The process invocation surface: which mode to run and where the
//! configuration lives. Parsing the actual command line is the binary's
//! business; it hands the parsed values over in these types.

use vstd::prelude::*;

verus! {

/// What the process is asked to do.
#[derive(Debug, Clone, Copy, PartialEq, Eq, Structural)]
pub enum Command {
    /// Bring the store's schema up to date.
    Migrate,
    /// Serve callers.
    Start,
}

/// The parsed invocation: the command to run and the configuration path.
#[derive(Debug, Clone, PartialEq, Eq)]
pub struct Arguments {
    pub command: Command,
    pub config: String,
}

} // verus!
