//! The error type of quality-score parsing. The score itself carries a
//! floating-point value, so the type that holds it lives outside the
//! verified library; only the error is shared.

use vstd::prelude::*;

verus! {

/// An error returned when a raw quality score fails to parse: it holds the
/// rejected input.
#[derive(Debug)]
pub struct ParseError(String);

impl ParseError {
    /// The rejected input.
    pub closed spec fn input(self) -> Seq<char> {
        self.0@
    }

    /// Wraps the rejected input.
    pub fn new(input: String) -> (r: ParseError)
        ensures
            r.input() == input@,
    {
        ParseError(input)
    }

    /// The rejected input.
    pub fn invalid_input(&self) -> (r: &str)
        ensures
            r@ == self.input(),
    {
        self.0.as_str()
    }
}

} // verus!
