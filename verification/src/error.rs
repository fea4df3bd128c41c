//! The library's error type: what a refused request is answered.

use vstd::prelude::*;

verus! {

/// Why a request or a configuration was refused.
#[derive(Debug)]
pub enum AppError {
    /// The input is malformed; the message says which part.
    BadRequest(String),
    /// The configuration is unusable; the message says which setting.
    Config(String),
    /// The request collides with existing data.
    Conflict(String),
    /// No valid session.
    Unauthorized,
    /// The session may not do this.
    Forbidden,
    /// Nothing to show.
    NotFound,
    /// The upload exceeds the configured limit.
    PayloadTooLarge,
    /// A step that should not fail did.
    Internal,
}

/// `e` is a bad-request error carrying `msg`.
pub open spec fn is_bad_request(e: AppError, msg: Seq<char>) -> bool {
    e matches AppError::BadRequest(m) && m@ == msg
}

/// `e` is a configuration error carrying `msg`.
pub open spec fn is_config_error(e: AppError, msg: Seq<char>) -> bool {
    e matches AppError::Config(m) && m@ == msg
}

/// `e` is a conflict error carrying `msg`.
pub open spec fn is_conflict(e: AppError, msg: Seq<char>) -> bool {
    e matches AppError::Conflict(m) && m@ == msg
}

impl AppError {
    /// A bad-request error with the given message.
    pub fn bad_request(msg: &str) -> (e: AppError)
        ensures
            is_bad_request(e, msg@),
    {
        AppError::BadRequest(msg.to_owned())
    }

    /// A configuration error with the given message.
    pub fn config(msg: &str) -> (e: AppError)
        ensures
            is_config_error(e, msg@),
    {
        AppError::Config(msg.to_owned())
    }

    /// A conflict error with the given message.
    pub fn conflict(msg: &str) -> (e: AppError)
        ensures
            is_conflict(e, msg@),
    {
        AppError::Conflict(msg.to_owned())
    }
}

} // verus!
