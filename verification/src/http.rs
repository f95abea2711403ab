//! The error model of the plugin API.
//!
//! `handle_http_request` must never return `Err` for domain failures (the host
//! turns that into a plain-text 500), so every error becomes a JSON response.
//! Error shape follows the GameAP plugin convention:
//! `{"code": "UPPER_SNAKE", "message": "..."}`.

use vstd::prelude::*;

use crate::host_api::HostApiError;

verus! {

#[derive(Debug, Clone, PartialEq, Eq)]
pub struct ApiError {
    pub status: i32,
    pub code: &'static str,
    pub message: String,
}

impl ApiError {
    pub fn new(status: i32, code: &'static str, message: &str) -> (r: ApiError)
        ensures
            r.status == status,
            r.code == code,
            r.message@ == message@,
    {
        ApiError { status, code, message: message.to_owned() }
    }

    pub fn bad_request(message: &str) -> (r: ApiError)
        ensures
            r.status == 400,
            r.code == "INVALID_INPUT",
            r.message@ == message@,
    {
        Self::new(400, "INVALID_INPUT", message)
    }

    pub fn not_found(code: &'static str, message: &str) -> (r: ApiError)
        ensures
            r.status == 404,
            r.code == code,
            r.message@ == message@,
    {
        Self::new(404, code, message)
    }

    pub fn conflict(code: &'static str, message: &str) -> (r: ApiError)
        ensures
            r.status == 409,
            r.code == code,
            r.message@ == message@,
    {
        Self::new(409, code, message)
    }

    pub fn unprocessable(code: &'static str, message: &str) -> (r: ApiError)
        ensures
            r.status == 422,
            r.code == code,
            r.message@ == message@,
    {
        Self::new(422, code, message)
    }

    pub fn internal(message: &str) -> (r: ApiError)
        ensures
            r.status == 500,
            r.code == "INTERNAL_ERROR",
            r.message@ == message@,
    {
        Self::new(500, "INTERNAL_ERROR", message)
    }
}

/// A failed host call answers 502, with a code naming which side failed.
pub open spec fn host_error_spec(err: HostApiError) -> ApiError {
    match err {
        HostApiError::Call(message) => ApiError { status: 502, code: "HOST_CALL_FAILED", message },
        HostApiError::Op(message) => ApiError { status: 502, code: "NODE_OPERATION_FAILED", message },
    }
}

impl From<HostApiError> for ApiError {
    fn from(err: HostApiError) -> (r: ApiError) {
        match err {
            HostApiError::Call(message) => ApiError { status: 502, code: "HOST_CALL_FAILED", message },
            HostApiError::Op(message) => ApiError { status: 502, code: "NODE_OPERATION_FAILED", message },
        }
    }
}

impl vstd::std_specs::convert::FromSpecImpl<HostApiError> for ApiError {
    open spec fn obeys_from_spec() -> bool {
        true
    }

    open spec fn from_spec(err: HostApiError) -> ApiError {
        host_error_spec(err)
    }
}

} // verus!
