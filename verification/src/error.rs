//! The error taxonomy of the service.

use vstd::prelude::*;

verus! {

/// Everything a request handler can fail with.
///
/// `Db` carries the storage layer's own description of a failed read or
/// write, `OAuth` a failure while talking to the identity provider,
/// `Validation` a request that was rejected before any state changed,
/// and `Internal` any other fault of the service itself.
#[derive(Clone, Debug, PartialEq, Eq)]
pub enum AppError {
    Db(String),
    OAuth(String),
    Unauthorized,
    Validation(String),
    Internal(String),
}

impl AppError {
    /// The HTTP status code a response for this error carries:
    /// `401` for a missing identity, `400` for a rejected request,
    /// `500` for everything else.
    pub fn status_code(&self) -> (code: u16)
        ensures
            code == match self {
                AppError::Unauthorized => 401u16,
                AppError::Validation(_) => 400u16,
                _ => 500u16,
            },
    {
        match self {
            AppError::Unauthorized => 401,
            AppError::Validation(_) => 400,
            AppError::Db(_) | AppError::OAuth(_) | AppError::Internal(_) => 500,
        }
    }
}

} // verus!
