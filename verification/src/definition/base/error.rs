//! The error of reading a YAML tree into nodes.
use vstd::prelude::*;

verus! {

#[derive(Debug, PartialEq)]
pub struct Error {
    pub message: String,
}

impl Error {
    pub fn new(message: String) -> (r: Self)
        ensures
            r.message@ == message@,
    {
        Self { message }
    }
}

} // verus!
