//! The envelope in which the administrative surface answers a request.

use vstd::prelude::*;

verus! {

/// Status text of an answer that carries data.
pub const OK_STATUS: &'static str = "ok";

/// Status text of an answer that carries an error message.
pub const ERROR_STATUS: &'static str = "error";

/// An answer: either data or an error message, with the time of the answer
/// in seconds since the epoch.
#[derive(Debug, Clone, PartialEq, Eq)]
pub struct ApiResponse<T> {
    pub status: String,
    pub data: Option<T>,
    pub message: Option<String>,
    pub timestamp: u64,
}

impl<T> ApiResponse<T> {
    /// An answer that carries `data`.
    pub fn ok(data: T, timestamp: u64) -> (r: Self)
        ensures
            r.status@ == OK_STATUS@,
            r.data == Some(data),
            r.message.is_none(),
            r.timestamp == timestamp,
    {
        ApiResponse { status: OK_STATUS.to_owned(), data: Some(data), message: None, timestamp }
    }

    /// An answer that carries an error message and no data.
    pub fn error(msg: &str, timestamp: u64) -> (r: Self)
        ensures
            r.status@ == ERROR_STATUS@,
            r.data.is_none(),
            r.message.is_some(),
            r.message.unwrap()@ == msg@,
            r.timestamp == timestamp,
    {
        ApiResponse {
            status: ERROR_STATUS.to_owned(),
            data: None,
            message: Some(msg.to_owned()),
            timestamp,
        }
    }
}

} // verus!
