//! The library's error type.

use vstd::prelude::*;

verus! {

/// What went wrong: a message of this library, or the text of a failure that
/// the program around it met.
#[derive(Debug)]
pub enum Error {
    Message(String),
    Io(String),
    Serde(String),
}

impl Error {
    /// An error that carries a message.
    pub fn msg(value: String) -> (error: Self)
        ensures
            error == Error::Message(value),
    {
        Error::Message(value)
    }

    /// The text shown to the user.
    pub open spec fn text(self) -> Seq<char> {
        match self {
            Error::Message(text) => text@,
            Error::Io(text) => text@,
            Error::Serde(text) => text@,
        }
    }

    /// The text shown to the user.
    pub fn message(&self) -> (text: &str)
        ensures
            text@ == self.text(),
    {
        match self {
            Error::Message(text) => text.as_str(),
            Error::Io(text) => text.as_str(),
            Error::Serde(text) => text.as_str(),
        }
    }

    /// Whether the error is a message of this library with the given text.
    pub open spec fn says(self, text: Seq<char>) -> bool {
        self matches Error::Message(message) && message@ == text
    }
}

} // verus!
