//! Errors of the request path.

use crate::storage::StorageError;
use vstd::prelude::*;

verus! {

/// Why a request could not be served.
#[derive(Clone, Copy, Debug, PartialEq, Eq, Structural)]
pub enum Error {
    /// The storage refused the request.
    IO(StorageError),
    /// The request's first byte names no method.
    InvalidMethod,
    /// The peer closed the connection.
    Disconnected,
}

/// The message of an error, as `to_string` gives it.
pub open spec fn error_message(e: Error) -> Seq<char> {
    match e {
        Error::IO(StorageError::NotFound) => "entity not found"@,
        Error::IO(StorageError::OutOfMemory) => "out of memory"@,
        Error::InvalidMethod => "invalid method"@,
        Error::Disconnected => "disconnected"@,
    }
}

impl Error {
    /// The error's message.
    pub fn to_string(&self) -> (s: String)
        ensures
            s@ == error_message(*self),
    {
        match self {
            Error::IO(StorageError::NotFound) => "entity not found".to_owned(),
            Error::IO(StorageError::OutOfMemory) => "out of memory".to_owned(),
            Error::InvalidMethod => "invalid method".to_owned(),
            Error::Disconnected => "disconnected".to_owned(),
        }
    }
}

} // verus!
