//! What can go wrong with a command.

use crate::task_id::TaskId;
use crate::task_priority::PriorityError;
use vstd::prelude::*;

verus! {

/// Why a command was refused.
#[derive(Debug, PartialEq)]
pub enum Error {
    /// The command needs arguments and got none.
    InsufficientArguments,
    /// An argument makes no sense; the text says why.
    InvalidArgument(String),
    /// No task has this number.
    IdNotFound(TaskId),
    /// A task number was given as zero.
    ZeroId,
    /// A task number was no number.
    NonnumericId,
    /// A priority was no capital letter.
    InvalidPriority,
}

impl Error {
    /// The message shown to the user.
    pub open spec fn message(self) -> Seq<char> {
        match self {
            Error::InsufficientArguments => "Not enough arguments provided."@,
            Error::InvalidArgument(explanation) => "Invalid argument: "@ + explanation@,
            Error::IdNotFound(id) => "ID '"@ + id.text() + "' does not exist."@,
            Error::ZeroId => "IDs must be non-zero."@,
            Error::NonnumericId => "IDs must be numeric."@,
            Error::InvalidPriority => "Task priority must be an uppercase letter (A-Z)."@,
        }
    }

    /// The message shown to the user.
    pub fn to_string(&self) -> (s: String)
        ensures
            s@ == self.message(),
    {
        match self {
            Error::InsufficientArguments => "Not enough arguments provided.".to_owned(),
            Error::InvalidArgument(explanation) => {
                let mut s = "Invalid argument: ".to_owned();
                s.append(explanation.as_str());
                s
            },
            Error::IdNotFound(id) => {
                let mut s = "ID '".to_owned();
                let number = id.to_string();
                s.append(number.as_str());
                s.append("' does not exist.");
                s
            },
            Error::ZeroId => "IDs must be non-zero.".to_owned(),
            Error::NonnumericId => "IDs must be numeric.".to_owned(),
            Error::InvalidPriority => "Task priority must be an uppercase letter (A-Z).".to_owned(),
        }
    }
}

impl From<PriorityError> for Error {
    fn from(_e: PriorityError) -> (r: Error) {
        Error::InvalidPriority
    }
}

impl vstd::std_specs::convert::FromSpecImpl<PriorityError> for Error {
    open spec fn obeys_from_spec() -> bool {
        true
    }

    open spec fn from_spec(_e: PriorityError) -> Error {
        Error::InvalidPriority
    }
}

} // verus!
