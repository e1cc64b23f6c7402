//! The errors that stop a run.

use vstd::prelude::*;

verus! {

/// A document that cannot be read as what it should be.
#[derive(Debug, Clone, PartialEq, Eq)]
pub enum ParseError {
    /// The recipe at `path` has no ingredients section.
    MissingIngredientsSection { path: String },
    /// The recipe at `path` does not say for how many it is written.
    MissingParticipants { path: String },
    /// The recipe at `path` is written for nobody, or for more than can be
    /// counted in 64 bits.
    InvalidParticipantCount { path: String },
    /// The plan is malformed at this line and column, both counted from one.
    PlanSyntaxError { line: usize, column: usize },
}

/// The mathematical content of a [`ParseError`].
pub enum ParseFault {
    MissingIngredientsSection { path: Seq<char> },
    MissingParticipants { path: Seq<char> },
    InvalidParticipantCount { path: Seq<char> },
    PlanSyntaxError { line: nat, column: nat },
}

impl View for ParseError {
    type V = ParseFault;

    open spec fn view(&self) -> ParseFault {
        match *self {
            ParseError::MissingIngredientsSection { path } => ParseFault::MissingIngredientsSection {
                path: path@,
            },
            ParseError::MissingParticipants { path } => ParseFault::MissingParticipants {
                path: path@,
            },
            ParseError::InvalidParticipantCount { path } => ParseFault::InvalidParticipantCount {
                path: path@,
            },
            ParseError::PlanSyntaxError { line, column } => ParseFault::PlanSyntaxError {
                line: line as nat,
                column: column as nat,
            },
        }
    }
}

} // verus!
