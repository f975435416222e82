//! The error taxonomy of the proxy and its mapping to HTTP statuses.

use vstd::prelude::*;

verus! {

/// The observable error kinds of the proxy. `Auth` maps to 401, `Proxy` and
/// `Upstream` to 502, `Internal` to 500; the payload is the message shown to
/// the client as `{ "error": "<message>" }`.
#[derive(Debug, Clone)]
pub enum AppError {
    Auth(String),
    Proxy(String),
    Internal(String),
    Upstream(String),
}

impl AppError {
    /// The HTTP status code under which this error is reported.
    pub fn http_status(&self) -> (s: u16)
        ensures
            s == self.spec_http_status(),
    {
        match self {
            AppError::Auth(_) => 401,
            AppError::Proxy(_) => 502,
            AppError::Internal(_) => 500,
            AppError::Upstream(_) => 502,
        }
    }

    pub open spec fn spec_http_status(&self) -> u16 {
        match self {
            AppError::Auth(_) => 401u16,
            AppError::Proxy(_) => 502u16,
            AppError::Internal(_) => 500u16,
            AppError::Upstream(_) => 502u16,
        }
    }

    /// The message carried by the error.
    pub fn message(&self) -> (m: &String)
        ensures
            m@ == self.spec_message(),
    {
        match self {
            AppError::Auth(m) => m,
            AppError::Proxy(m) => m,
            AppError::Internal(m) => m,
            AppError::Upstream(m) => m,
        }
    }

    pub open spec fn spec_message(&self) -> Seq<char> {
        match self {
            AppError::Auth(m) => m@,
            AppError::Proxy(m) => m@,
            AppError::Internal(m) => m@,
            AppError::Upstream(m) => m@,
        }
    }
}

pub type AppResult<T> = Result<T, AppError>;

} // verus!
