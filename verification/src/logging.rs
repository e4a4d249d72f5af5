//! What the request log reports.

use vstd::prelude::*;

verus! {

/// The status code of a response that found nothing.
pub const NOT_FOUND: u16 = 404;

/// The status code of a response that succeeded.
pub const OK: u16 = 200;

/// The status that is logged for a response: its status code if it has
/// one; else "not found" if it has no body, and "ok" if it has one.
pub open spec fn logged_status(status_code: Option<u16>, has_body: bool) -> u16 {
    match status_code {
        Some(code) => code,
        None => if has_body {
            OK
        } else {
            NOT_FOUND
        },
    }
}

/// A handler that logs every request with the status and the duration of
/// its response.
#[derive(Default, Debug)]
pub struct LogHandler;

impl LogHandler {
    /// The status to log for a response with the status code
    /// `status_code`, with or without a body.
    pub fn status(&self, status_code: Option<u16>, has_body: bool) -> (status: u16)
        ensures
            status == logged_status(status_code, has_body),
    {
        match status_code {
            Some(code) => code,
            None => {
                if has_body {
                    OK
                } else {
                    NOT_FOUND
                }
            },
        }
    }
}

} // verus!
