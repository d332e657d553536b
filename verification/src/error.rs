//! The two ways in which a run is refused before any pair is compared.

use vstd::prelude::*;
use vstd::string::StringExecFns;

verus! {

/// Why a run was refused.
#[derive(Clone, Copy, Debug, PartialEq, Eq, Structural)]
pub enum RunError {
    /// The similarity threshold is no number from zero to one.
    Configuration,
    /// The corpus holds fewer than two texts.
    InsufficientInput,
}

impl RunError {
    /// What the user is told of the error.
    pub open spec fn message_text(self) -> Seq<char> {
        match self {
            RunError::Configuration => "The similarity threshold must be between 0.0 and 100.0."@,
            RunError::InsufficientInput => "Too few files that match the settings to compare in this directory."@,
        }
    }

    /// What the user is told of the error.
    pub fn message(&self) -> (text: String)
        ensures
            text@ == self.message_text(),
    {
        match self {
            RunError::Configuration => String::from_str(
                "The similarity threshold must be between 0.0 and 100.0.",
            ),
            RunError::InsufficientInput => String::from_str(
                "Too few files that match the settings to compare in this directory.",
            ),
        }
    }
}

} // verus!
