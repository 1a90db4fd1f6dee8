//! The errors of requests.
use crate::json::{Json, Tree};
use crate::text;
use vstd::prelude::*;

verus! {

/// Why a request failed.
#[derive(Debug, Clone, PartialEq)]
pub struct FastContextError {
    pub message: String,
    pub code: String,
    pub details: Json,
}

/// What the error of a request says.
#[verifier::ext_equal]
pub struct Fault {
    pub message: Seq<char>,
    pub code: Seq<char>,
    pub details: Tree,
}

impl View for FastContextError {
    type V = Fault;

    open spec fn view(&self) -> Fault {
        Fault { message: self.message@, code: self.code@, details: self.details@ }
    }
}

impl FastContextError {
    /// An error with the given message, code and details.
    pub fn new(message: &str, code: &str, details: Json) -> (r: FastContextError)
        ensures
            r@ == (Fault { message: message@, code: code@, details: details@ }),
    {
        FastContextError { message: text::copied(message), code: text::copied(code), details }
    }
}

} // verus!
