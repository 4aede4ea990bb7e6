//! The values that cross the dispatch boundary: request payloads and the
//! mapping from error kinds to transport status codes.

use vstd::prelude::*;

use crate::models::ErrorKind;

verus! {

/// The limit a listing request falls back to when it names none.
pub const DEFAULT_LIMIT: i64 = 100;

/// An id taken from a path or a query string.
#[derive(Clone, Copy, Debug, PartialEq, Eq, Structural)]
pub struct IdPayload {
    pub id: i32,
}

/// An optional listing limit taken from a query string.
#[derive(Clone, Copy, Debug, PartialEq, Eq)]
pub struct LimitPayload {
    pub limit: Option<i64>,
}

impl LimitPayload {
    /// The limit to use: the one given, or [`DEFAULT_LIMIT`].
    pub fn limit(&self) -> (r: i64)
        ensures
            r == match self.limit {
                Some(l) => l,
                None => DEFAULT_LIMIT,
            },
    {
        match self.limit {
            Some(l) => l,
            None => DEFAULT_LIMIT,
        }
    }
}

/// The HTTP status code that reports each error kind.
pub fn status_code(kind: ErrorKind) -> (r: u16)
    ensures
        r == match kind {
            ErrorKind::NotFound => 404int,
            ErrorKind::Conflict => 400int,
            ErrorKind::Inconsistency => 500int,
            ErrorKind::StoreUnavailable => 500int,
            ErrorKind::NotImplemented => 501int,
            ErrorKind::SerializationFailure => 500int,
        },
{
    match kind {
        ErrorKind::NotFound => 404,
        ErrorKind::Conflict => 400,
        ErrorKind::Inconsistency => 500,
        ErrorKind::StoreUnavailable => 500,
        ErrorKind::NotImplemented => 501,
        ErrorKind::SerializationFailure => 500,
    }
}

} // verus!
