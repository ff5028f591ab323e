//! The caller-visible error taxonomy. Each variant maps one-to-one to
//! an HTTP status code; the embedded string is the diagnostic message.

use vstd::prelude::*;

verus! {

/// An error surfaced to an HTTP caller.
#[derive(Clone, Debug)]
pub enum Error {
    /// An unspecified internal error.
    InternalError(String),
    /// Malformed input.
    BadRequest(String),
    /// The referenced room, code or resource does not exist.
    NotFound(String),
    /// The caller is not signed in.
    Unauthorized(String),
    /// The caller is signed in but not allowed to do this.
    Forbidden(String),
    /// The upstream service is not configured or unreachable.
    ServiceUnavailable(String),
    /// The upstream service answered with an error status.
    UpstreamError(String),
}

/// The HTTP status code of each error variant.
pub open spec fn status_of(e: Error) -> u16 {
    match e {
        Error::InternalError(_) => 500,
        Error::BadRequest(_) => 400,
        Error::NotFound(_) => 404,
        Error::Unauthorized(_) => 401,
        Error::Forbidden(_) => 403,
        Error::ServiceUnavailable(_) => 503,
        Error::UpstreamError(_) => 502,
    }
}

impl Error {
    /// The HTTP status code this error maps to.
    pub fn status_code(&self) -> (c: u16)
        ensures
            c == status_of(*self),
    {
        match self {
            Error::InternalError(_) => 500,
            Error::BadRequest(_) => 400,
            Error::NotFound(_) => 404,
            Error::Unauthorized(_) => 401,
            Error::Forbidden(_) => 403,
            Error::ServiceUnavailable(_) => 503,
            Error::UpstreamError(_) => 502,
        }
    }

    /// The diagnostic message carried by the error.
    pub fn message(&self) -> (m: &String)
        ensures
            m@ == message_of(*self),
    {
        match self {
            Error::InternalError(m) => m,
            Error::BadRequest(m) => m,
            Error::NotFound(m) => m,
            Error::Unauthorized(m) => m,
            Error::Forbidden(m) => m,
            Error::ServiceUnavailable(m) => m,
            Error::UpstreamError(m) => m,
        }
    }
}

/// The message carried by each error variant.
pub open spec fn message_of(e: Error) -> Seq<char> {
    match e {
        Error::InternalError(m) => m@,
        Error::BadRequest(m) => m@,
        Error::NotFound(m) => m@,
        Error::Unauthorized(m) => m@,
        Error::Forbidden(m) => m@,
        Error::ServiceUnavailable(m) => m@,
        Error::UpstreamError(m) => m@,
    }
}

} // verus!
