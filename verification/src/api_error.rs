//! Errors of the service, as its clients see them.

use vstd::prelude::*;
use crate::error::{error_text, Error};
use crate::store::model::{StoreError, StoreErrorView};

verus! {

/// Why a request is refused or fails.
#[derive(Debug)]
pub enum ApiError {
    Unauthorized,
    Forbidden,
    TooManyRequests,
    NotFound,
    BadRequest(String),
    Conflict(String),
    Internal(String),
}

pub enum ApiErrorView {
    Unauthorized,
    Forbidden,
    TooManyRequests,
    NotFound,
    BadRequest(Seq<char>),
    Conflict(Seq<char>),
    Internal(Seq<char>),
}

impl View for ApiError {
    type V = ApiErrorView;

    open spec fn view(&self) -> ApiErrorView {
        match self {
            ApiError::Unauthorized => ApiErrorView::Unauthorized,
            ApiError::Forbidden => ApiErrorView::Forbidden,
            ApiError::TooManyRequests => ApiErrorView::TooManyRequests,
            ApiError::NotFound => ApiErrorView::NotFound,
            ApiError::BadRequest(message) => ApiErrorView::BadRequest(message@),
            ApiError::Conflict(message) => ApiErrorView::Conflict(message@),
            ApiError::Internal(message) => ApiErrorView::Internal(message@),
        }
    }
}

pub type ApiResult<T> = std::result::Result<T, ApiError>;

/// The HTTP status and the message that a client gets. What went wrong inside is not told.
pub open spec fn reply_of(error: ApiErrorView) -> (u16, Seq<char>) {
    match error {
        ApiErrorView::Unauthorized => (401, "unauthorized"@),
        ApiErrorView::Forbidden => (403, "forbidden"@),
        ApiErrorView::TooManyRequests => (429, "too many failed attempts; locked out"@),
        ApiErrorView::NotFound => (404, "not found"@),
        ApiErrorView::BadRequest(message) => (400, message),
        ApiErrorView::Conflict(message) => (409, message),
        ApiErrorView::Internal(_) => (500, "internal error"@),
    }
}

/// What the service makes of an error of the store.
pub open spec fn of_store(error: StoreErrorView) -> ApiErrorView {
    match error {
        StoreErrorView::NotFound => ApiErrorView::NotFound,
        StoreErrorView::Conflict(message) => ApiErrorView::Conflict(message),
        StoreErrorView::VersionConflict => ApiErrorView::Conflict(
            "write conflict; retry the request"@,
        ),
        StoreErrorView::Internal(message) => ApiErrorView::Internal(message),
    }
}

impl ApiError {
    pub fn parts(&self) -> (r: (u16, String))
        ensures
            (r.0, r.1@) == reply_of(self@),
    {
        match self {
            ApiError::Unauthorized => (401, "unauthorized".to_owned()),
            ApiError::Forbidden => (403, "forbidden".to_owned()),
            ApiError::TooManyRequests => (429, "too many failed attempts; locked out".to_owned()),
            ApiError::NotFound => (404, "not found".to_owned()),
            ApiError::BadRequest(message) => (400, message.clone()),
            ApiError::Conflict(message) => (409, message.clone()),
            ApiError::Internal(_) => (500, "internal error".to_owned()),
        }
    }

    /// An error of the store, as the service reports it.
    pub fn from_store(error: StoreError) -> (r: ApiError)
        ensures
            r@ == of_store(error@),
    {
        match error {
            StoreError::NotFound => ApiError::NotFound,
            StoreError::Conflict(message) => ApiError::Conflict(message),
            StoreError::VersionConflict => ApiError::Conflict(
                "write conflict; retry the request".to_owned(),
            ),
            StoreError::Internal(message) => ApiError::Internal(message),
        }
    }

    /// An error of the security core: never the client's fault.
    pub fn from_core(error: &Error) -> (r: ApiError)
        ensures
            r@ == ApiErrorView::Internal(error_text(*error)),
    {
        ApiError::Internal(error.message())
    }
}

/// A bad request with the given message.
pub fn bad_request(message: &str) -> (r: ApiError)
    ensures
        r@ == ApiErrorView::BadRequest(message@),
{
    ApiError::BadRequest(message.to_owned())
}

/// An internal error with the given message.
pub fn internal(message: &str) -> (r: ApiError)
    ensures
        r@ == ApiErrorView::Internal(message@),
{
    ApiError::Internal(message.to_owned())
}

} // verus!
