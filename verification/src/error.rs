//! The error type of the library and its stable exit-code contract:
//! 1 generic, 2 usage, 4 not found, 5 upstream (county server down, or its
//! page markup changed).

use vstd::prelude::*;

verus! {

/// A failure, classified by whose fault it is.
#[derive(Debug, Clone)]
pub enum AppError {
    /// Bad input from the caller: a malformed PCN, an unknown config key, an
    /// empty query, or a query the server rejected.
    Usage(String),
    /// No such parcel or layer.
    NotFound(String),
    /// The county's server failed, or its data no longer has the expected shape.
    Upstream(String),
    /// Anything else.
    Other(String),
}

impl AppError {
    /// The process exit code this error maps to.
    pub open spec fn code(&self) -> i32 {
        match self {
            AppError::Usage(_) => 2,
            AppError::NotFound(_) => 4,
            AppError::Upstream(_) => 5,
            AppError::Other(_) => 1,
        }
    }

    /// The human-readable message carried by the error.
    pub open spec fn text(&self) -> Seq<char> {
        match self {
            AppError::Usage(m) => m@,
            AppError::NotFound(m) => m@,
            AppError::Upstream(m) => m@,
            AppError::Other(m) => m@,
        }
    }

    pub fn exit_code(&self) -> (r: i32)
        ensures
            r == self.code(),
    {
        match self {
            AppError::Usage(_) => 2,
            AppError::NotFound(_) => 4,
            AppError::Upstream(_) => 5,
            AppError::Other(_) => 1,
        }
    }

    /// The message, as shown to the user.
    pub fn message(&self) -> (r: String)
        ensures
            r@ == self.text(),
    {
        match self {
            AppError::Usage(m) => m.clone(),
            AppError::NotFound(m) => m.clone(),
            AppError::Upstream(m) => m.clone(),
            AppError::Other(m) => m.clone(),
        }
    }
}

/// Every error maps onto one of the documented exit codes, and never onto
/// 3 ("auth required"): this tool has no credentials to ask for.
pub proof fn lemma_exit_codes(e: AppError)
    ensures
        e.code() == 1 || e.code() == 2 || e.code() == 4 || e.code() == 5,
        e.code() != 3,
{
}

} // verus!
