//! Uniform failure responses.
//!
//! Every handler in this crate reports a failure the same way: a non-2xx
//! status code together with a human-readable message. This module holds
//! that response type and its single constructor.

use vstd::prelude::*;

verus! {

/// The status code used for every failure response.
pub const ERROR_STATUS: u16 = 500;

/// A failure response: a status code and a human-readable message.
pub struct ErrorResponse {
    pub status: u16,
    pub message: String,
}

/// Build the uniform failure response carrying `message`.
pub fn get_error(message: String) -> (r: ErrorResponse)
    ensures
        r.status == ERROR_STATUS,
        r.message@ == message@,
{
    ErrorResponse { status: ERROR_STATUS, message }
}

} // verus!
