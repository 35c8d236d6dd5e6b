//! The error type used across the library.
//!
//! Every failure the library reports carries a message string; two errors are
//! equal exactly when their messages are equal.

use vstd::prelude::*;
use crate::text::str_eq;

verus! {

/// Typed error for the library, wrapping the failure message.
#[derive(Clone, Debug, Hash)]
pub struct Error {
    /// The error message.
    pub message: String,
}

impl Error {
    /// Create a new Error with the provided message.
    pub fn new(message: &str) -> (r: Self)
        ensures
            r.message@ == message@,
    {
        Error { message: message.to_owned() }
    }

    /// Render the error for display, as `Error: ` followed by the message.
    pub fn to_string(&self) -> (r: String)
        ensures
            r@ == "Error: "@ + self.message@,
    {
        let mut s = String::new();
        s.append("Error: ");
        s.append(self.message.as_str());
        s
    }
}

impl PartialEq for Error {
    fn eq(&self, other: &Self) -> bool {
        str_eq(self.message.as_str(), other.message.as_str())
    }
}

impl vstd::std_specs::cmp::PartialEqSpecImpl for Error {
    open spec fn obeys_eq_spec() -> bool {
        true
    }

    open spec fn eq_spec(&self, other: &Self) -> bool {
        self.message@ == other.message@
    }
}

} // verus!
