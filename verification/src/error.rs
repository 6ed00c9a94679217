//! The error reported by named-table lookups.

use vstd::prelude::*;

verus! {

/// A lookup failure. A name that was never registered and a name registered
/// only under other shapes are reported identically: without introspecting
/// the table a caller could not tell the two apart.
#[derive(Debug)]
pub enum Error {
    Message(String),
}

impl Error {
    /// Wraps a message as an error.
    pub fn message(message: String) -> (e: Error)
        ensures
            e == Error::Message(message),
    {
        Error::Message(message)
    }

    /// The message carried by the error.
    pub fn text(&self) -> (m: &String)
        ensures
            *self == Error::Message(*m),
    {
        match self {
            Error::Message(m) => m,
        }
    }
}

} // verus!
