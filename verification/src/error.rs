//! The ways in which a run can stop before its end.

use vstd::prelude::*;
use vstd::string::StringExecFns;

verus! {

/// Why a run was given up. Every failure ends the run at once: no later step
/// is tried and no partial output is handed on.
#[derive(Clone, Copy, Debug, PartialEq, Eq, Structural)]
pub enum PipelineError {
    /// The Morse table could not be had: its resource is missing or
    /// unreadable, or its text is not a flat mapping from strings to strings.
    TableLoad,
    /// A file that was to be read does not exist or cannot be read.
    FileRead,
    /// The target file cannot be written.
    FileWrite,
    /// The host answered with something that the run did not wait for.
    OutOfTurn,
}

impl PipelineError {
    /// A short description of the failure, for the user.
    pub fn message(&self) -> (text: String)
        ensures
            text@ == match *self {
                PipelineError::TableLoad => "the Morse table could not be loaded"@,
                PipelineError::FileRead => "the file could not be read"@,
                PipelineError::FileWrite => "the file could not be written"@,
                PipelineError::OutOfTurn => "the host answered out of turn"@,
            },
    {
        match self {
            PipelineError::TableLoad => String::from_str("the Morse table could not be loaded"),
            PipelineError::FileRead => String::from_str("the file could not be read"),
            PipelineError::FileWrite => String::from_str("the file could not be written"),
            PipelineError::OutOfTurn => String::from_str("the host answered out of turn"),
        }
    }
}

} // verus!
