//! The response and error taxonomy every handler maps into. Validation and
//! resolution failures are caught where they occur and turned into one of
//! these variants at once; nothing crosses a component boundary untyped.

use vstd::prelude::*;

verus! {

/// A plain human-readable message body.
#[derive(Debug)]
pub struct BasicMessage {
    pub msg: String,
}

/// A successful outcome: empty, created, or a JSON-serializable payload.
pub enum ApiResponse<T> {
    OK,
    Created,
    JsonData(T),
}

/// The error taxonomy. Each variant carries the human-readable message shown
/// to the client; internals (hashes, secrets, raw store errors) never appear
/// in it beyond a generic message.
#[derive(Debug)]
pub enum ApiError {
    BadRequest(String),
    NotFound(String),
    Forbidden(String),
    Unauthorized(String),
    InternalServerError(String),
}

impl<T> ApiResponse<T> {
    /// The HTTP status class of each variant.
    pub open spec fn spec_status_code(&self) -> u16 {
        match self {
            ApiResponse::OK => 200,
            ApiResponse::Created => 201,
            ApiResponse::JsonData(_) => 200,
        }
    }

    /// The HTTP status code this outcome maps to.
    pub fn status_code(&self) -> (code: u16)
        ensures
            code == self.spec_status_code(),
    {
        match self {
            ApiResponse::OK => 200,
            ApiResponse::Created => 201,
            ApiResponse::JsonData(_) => 200,
        }
    }
}

impl ApiError {
    /// The HTTP status class of each variant.
    pub open spec fn spec_status_code(&self) -> u16 {
        match self {
            ApiError::BadRequest(_) => 400,
            ApiError::NotFound(_) => 404,
            ApiError::Forbidden(_) => 403,
            ApiError::Unauthorized(_) => 401,
            ApiError::InternalServerError(_) => 500,
        }
    }

    /// The HTTP status code this error maps to.
    pub fn status_code(&self) -> (code: u16)
        ensures
            code == self.spec_status_code(),
    {
        match self {
            ApiError::BadRequest(_) => 400,
            ApiError::NotFound(_) => 404,
            ApiError::Forbidden(_) => 403,
            ApiError::Unauthorized(_) => 401,
            ApiError::InternalServerError(_) => 500,
        }
    }

    /// The message carried by the error.
    pub fn message(&self) -> (msg: &String)
        ensures
            msg@ == self.spec_message(),
    {
        match self {
            ApiError::BadRequest(m) => m,
            ApiError::NotFound(m) => m,
            ApiError::Forbidden(m) => m,
            ApiError::Unauthorized(m) => m,
            ApiError::InternalServerError(m) => m,
        }
    }

    pub open spec fn spec_message(&self) -> Seq<char> {
        match self {
            ApiError::BadRequest(m) => m@,
            ApiError::NotFound(m) => m@,
            ApiError::Forbidden(m) => m@,
            ApiError::Unauthorized(m) => m@,
            ApiError::InternalServerError(m) => m@,
        }
    }
}

} // verus!
