//! Operation errors. Each error is captured as a normal reply; none is
//! fatal to a command loop.

use vstd::prelude::*;

verus! {

/// The error of a failed operation.
#[derive(Clone, Copy, Debug, PartialEq, Eq, Structural)]
pub enum Error {
    /// The addressed file does not exist.
    NotFound,
    /// The addressed file already exists.
    AlreadyExists,
    /// A replacement was requested without its end line.
    MissingParameter,
}

impl Error {
    /// The message that a reply carries for this error.
    pub open spec fn message_spec(&self) -> Seq<char> {
        match self {
            Error::NotFound => "File does not exist"@,
            Error::AlreadyExists => "File already exists"@,
            Error::MissingParameter => "Missing end_line parameter"@,
        }
    }

    /// Writes the error's message.
    pub fn message(&self) -> (r: String)
        ensures
            r@ == self.message_spec(),
    {
        match self {
            Error::NotFound => "File does not exist".to_owned(),
            Error::AlreadyExists => "File already exists".to_owned(),
            Error::MissingParameter => "Missing end_line parameter".to_owned(),
        }
    }
}

} // verus!
