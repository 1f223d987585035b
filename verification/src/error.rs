//! The error surfaced to callers: a status code plus a readable message.

use vstd::prelude::*;

verus! {

/// A user-correctable failure report: a numeric code (HTTP-style) and a
/// message explaining what to change.
#[derive(Debug)]
pub struct ErrorResponse {
    code: u16,
    message: String,
}

impl ErrorResponse {
    pub closed spec fn spec_code(&self) -> u16 {
        self.code
    }

    pub closed spec fn spec_message(&self) -> Seq<char> {
        self.message@
    }

    pub fn new(code: u16, message: &str) -> (e: Self)
        ensures
            e.spec_code() == code,
            e.spec_message() == message@,
    {
        ErrorResponse { code, message: message.to_owned() }
    }

    pub fn code(&self) -> (c: u16)
        ensures
            c == self.spec_code(),
    {
        self.code
    }

    pub fn message(&self) -> (m: &str)
        ensures
            m@ == self.spec_message(),
    {
        self.message.as_str()
    }
}

} // verus!
