//! The error that every command reports: an exit code and a message.
use vstd::prelude::*;

verus! {

/// An error with the process exit code it maps to and a message for stderr.
#[derive(Debug)]
pub struct Error {
    pub code: i32,
    pub message: String,
}

impl Error {
    pub fn new(code: i32, message: &str) -> (e: Error)
        ensures
            e.code == code,
            e.message@ == message@,
    {
        Error { code, message: message.to_string() }
    }

    /// The error is `code` with exactly `message`.
    pub open spec fn is(self, code: i32, message: Seq<char>) -> bool {
        self.code == code && self.message@ == message
    }

    /// The text shown to the user.
    pub fn text(&self) -> (s: String)
        ensures
            s@ == self.message@,
    {
        self.message.clone()
    }
}

/// The outcome is exactly the error `code` with `message`.
pub open spec fn fails_with<T>(r: Result<T, Error>, code: i32, message: Seq<char>) -> bool {
    match r {
        Err(e) => e.is(code, message),
        Ok(_) => false,
    }
}

} // verus!
