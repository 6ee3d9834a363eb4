//! A plain error carrying its message.
use vstd::prelude::*;

verus! {

#[derive(Debug, PartialEq)]
pub struct Error {
    msg: String,
}

impl Error {
    pub fn new(msg: String) -> (r: Self)
        ensures
            r.message()@ == msg@,
    {
        Self { msg }
    }

    pub closed spec fn message(&self) -> String {
        self.msg
    }

    /// The message the error carries.
    pub fn msg(&self) -> (r: &String)
        ensures
            r@ == self.message()@,
    {
        &self.msg
    }
}

} // verus!
