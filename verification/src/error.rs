//! Errors reported by the library.

use vstd::prelude::*;
use crate::json::{str_of, append_str};

verus! {

/// What went wrong, with a human-readable message.
#[derive(Debug)]
pub enum Error {
    InvalidQuery(String),
    InvalidUpdate(String),
    InvalidIdentifier(String),
    InvalidIndex(String),
    ValidationFailed(String),
}

/// The variant of an [`Error`], without its message.
#[derive(Debug, PartialEq, Eq, Clone, Copy, Structural)]
pub enum ErrorKind {
    InvalidQuery,
    InvalidUpdate,
    InvalidIdentifier,
    InvalidIndex,
    ValidationFailed,
}

impl Error {
    pub open spec fn kind(&self) -> ErrorKind {
        match self {
            Error::InvalidQuery(_) => ErrorKind::InvalidQuery,
            Error::InvalidUpdate(_) => ErrorKind::InvalidUpdate,
            Error::InvalidIdentifier(_) => ErrorKind::InvalidIdentifier,
            Error::InvalidIndex(_) => ErrorKind::InvalidIndex,
            Error::ValidationFailed(_) => ErrorKind::ValidationFailed,
        }
    }

    /// The error's message, without the prefix of its kind.
    pub open spec fn message(&self) -> Seq<char> {
        match self {
            Error::InvalidQuery(m) => m@,
            Error::InvalidUpdate(m) => m@,
            Error::InvalidIdentifier(m) => m@,
            Error::InvalidIndex(m) => m@,
            Error::ValidationFailed(m) => m@,
        }
    }

    /// How a message of this kind is introduced.
    pub open spec fn prefix(&self) -> Seq<char> {
        match self {
            Error::InvalidQuery(_) => "invalid query: "@,
            Error::InvalidUpdate(_) => "invalid update: "@,
            Error::InvalidIdentifier(_) => "invalid identifier: "@,
            Error::InvalidIndex(_) => "invalid index spec: "@,
            Error::ValidationFailed(_) => "schema validation failed: "@,
        }
    }

    /// The kind of this error.
    pub fn error_kind(&self) -> (k: ErrorKind)
        ensures
            k == self.kind(),
    {
        match self {
            Error::InvalidQuery(_) => ErrorKind::InvalidQuery,
            Error::InvalidUpdate(_) => ErrorKind::InvalidUpdate,
            Error::InvalidIdentifier(_) => ErrorKind::InvalidIdentifier,
            Error::InvalidIndex(_) => ErrorKind::InvalidIndex,
            Error::ValidationFailed(_) => ErrorKind::ValidationFailed,
        }
    }

    /// The error's message as it is shown to users (`"invalid query: ..."`).
    pub fn to_text(&self) -> (r: String)
        ensures
            r@ == self.prefix() + self.message(),
    {
        let (prefix, msg) = match self {
            Error::InvalidQuery(m) => ("invalid query: ", m),
            Error::InvalidUpdate(m) => ("invalid update: ", m),
            Error::InvalidIdentifier(m) => ("invalid identifier: ", m),
            Error::InvalidIndex(m) => ("invalid index spec: ", m),
            Error::ValidationFailed(m) => ("schema validation failed: ", m),
        };
        let mut s = str_of(prefix);
        append_str(&mut s, msg.as_str());
        s
    }
}

/// Builds an `InvalidQuery` error from a message and a detail.
pub fn query_error(msg: &str, detail: &str) -> (e: Error)
    ensures
        e.kind() == ErrorKind::InvalidQuery,
        e.message() == msg@ + detail@,
{
    let mut s = str_of(msg);
    append_str(&mut s, detail);
    Error::InvalidQuery(s)
}

/// Builds an `InvalidUpdate` error from a message and a detail.
pub fn update_error(msg: &str, detail: &str) -> (e: Error)
    ensures
        e.kind() == ErrorKind::InvalidUpdate,
        e.message() == msg@ + detail@,
{
    let mut s = str_of(msg);
    append_str(&mut s, detail);
    Error::InvalidUpdate(s)
}

/// Builds an `InvalidIndex` error from a message and a detail.
pub fn index_error(msg: &str, detail: &str) -> (e: Error)
    ensures
        e.kind() == ErrorKind::InvalidIndex,
        e.message() == msg@ + detail@,
{
    let mut s = str_of(msg);
    append_str(&mut s, detail);
    Error::InvalidIndex(s)
}

/// Builds an `InvalidIdentifier` error from a message and a detail.
pub fn identifier_error(msg: &str, detail: &str) -> (e: Error)
    ensures
        e.kind() == ErrorKind::InvalidIdentifier,
        e.message() == msg@ + detail@,
{
    let mut s = str_of(msg);
    append_str(&mut s, detail);
    Error::InvalidIdentifier(s)
}

} // verus!

verus! {

/// The view of a result that carries a JSON value.
pub open spec fn res_json(r: Result<crate::json::Json, Error>) -> Result<crate::json::JsonV, ErrorKind> {
    match r {
        Ok(v) => Ok(v@),
        Err(e) => Err(e.kind()),
    }
}

/// The view of a result that carries a plain value.
pub open spec fn res_kind<T>(r: Result<T, Error>) -> Result<T, ErrorKind> {
    match r {
        Ok(v) => Ok(v),
        Err(e) => Err(e.kind()),
    }
}

} // verus!
