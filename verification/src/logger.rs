use vstd::prelude::*;
use vstd::string::*;
use crate::text::{concat2, concat3};

verus! {

/// Writes the lines that the program shows to its user.
#[derive(Debug, Clone, Copy)]
pub struct Logger {}

impl Logger {
    pub fn new() -> Logger {
        Logger {  }
    }

    /// The line for a piece of information.
    pub fn info(&self, message: &str) -> (line: String)
        ensures
            line@ == "- "@ + message@,
    {
        concat2("- ", message)
    }

    /// The line for an activity that begins, after an empty line.
    pub fn activity(&self, message: &str) -> (line: String)
        ensures
            line@ == "\n- "@ + message@ + "..."@,
    {
        concat3("\n- ", message, "...")
    }

    /// The line for a success.
    pub fn success(&self, message: &str) -> (line: String)
        ensures
            line@ == "\u{2714} "@ + message@,
    {
        concat2("\u{2714} ", message)
    }

    /// The line for an error.
    pub fn error(&self, message: &str) -> (line: String)
        ensures
            line@ == "- Error: "@ + message@,
    {
        concat2("- Error: ", message)
    }
}

} // verus!
