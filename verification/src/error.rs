//! The error that a malformed token gives.
use vstd::prelude::*;

verus! {

/// What an [`Error`] says, as plain text.
pub struct ErrorView {
    pub unexpected: Seq<char>,
    pub expected: Seq<char>,
}

#[derive(Debug)]
pub enum Error<'a> {
    /// The text that was found, and a description of what should have stood there.
    UnexpectedToken { unexpected: &'a str, expected: &'a str },
}

impl<'a> View for Error<'a> {
    type V = ErrorView;

    open spec fn view(&self) -> ErrorView {
        match self {
            Error::UnexpectedToken { unexpected, expected } => ErrorView {
                unexpected: unexpected@,
                expected: expected@,
            },
        }
    }
}

impl<'a> Error<'a> {
    /// The text that was found.
    pub fn unexpected(&self) -> (r: &'a str)
        ensures
            r@ == self@.unexpected,
    {
        match self {
            Error::UnexpectedToken { unexpected, expected: _ } => *unexpected,
        }
    }

    /// The description of what should have stood there.
    pub fn expected(&self) -> (r: &'a str)
        ensures
            r@ == self@.expected,
    {
        match self {
            Error::UnexpectedToken { unexpected: _, expected } => *expected,
        }
    }
}

pub type Result<'a, T> = core::result::Result<T, Error<'a>>;

} // verus!
