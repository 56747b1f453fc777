//! The error that an HTTP endpoint answers with: a status code and a message.
use vstd::prelude::*;

verus! {

pub const BAD_REQUEST: u16 = 400;
pub const UNAUTHORIZED: u16 = 401;
pub const FORBIDDEN: u16 = 403;
pub const NOT_FOUND: u16 = 404;
pub const INTERNAL_SERVER_ERROR: u16 = 500;

/// An HTTP status code and the message sent with it.
pub type ApiError = (u16, String);

/// An error as contracts see it.
pub open spec fn error_view(e: ApiError) -> (u16, Seq<char>) {
    (e.0, e.1@)
}

/// The error with status `status` and message `message`.
pub fn api_error(status: u16, message: &str) -> (res: ApiError)
    ensures
        error_view(res) == (status, message@),
{
    (status, String::from_str(message))
}

} // verus!
