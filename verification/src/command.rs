//! How a program that was run ended, and what becomes of a failure.

use vstd::prelude::*;

use crate::text::opt_text;

verus! {

/// How a command ended.
pub enum CommandOutcome {
    Success,
    /// It ran, and failed with this status or report.
    Exited(String),
    /// It could not be run, for this reason.
    NotRun(String),
}

/// Why something that a command was run for was not done.
#[derive(Debug, PartialEq, Eq)]
pub struct CommandFailure {
    pub message: String,
    /// What lies behind it, where that is more than the message says.
    pub cause: Option<String>,
}

/// The message and the cause of what failed; nothing where all went well.
pub open spec fn failure(r: Result<(), CommandFailure>) -> Option<(Seq<char>, Option<Seq<char>>)> {
    match r {
        Ok(_) => None,
        Err(f) => Some((f.message@, opt_text(f.cause))),
    }
}

} // verus!
