//! The errors of number theory operations.
use vstd::prelude::*;

verus! {

/// Errors that can occur in number theory operations.
#[derive(Debug, Clone, Copy, PartialEq, Eq, Structural)]
pub enum Error {
    /// Division by zero attempted
    DivisionByZero,
    /// Overflow occurred during computation
    Overflow,
    /// Invalid argument provided
    InvalidArgument,
    /// Computation was interrupted (e.g., by user request)
    Interrupted,
}

impl Error {
    /// The description of the error, as it is displayed.
    pub fn message(&self) -> (r: &'static str)
        ensures
            *self == Error::DivisionByZero ==> r@ == "division by zero"@,
            *self == Error::Overflow ==> r@ == "arithmetic overflow"@,
            *self == Error::InvalidArgument ==> r@ == "invalid argument"@,
            *self == Error::Interrupted ==> r@ == "computation interrupted"@,
    {
        match self {
            Error::DivisionByZero => "division by zero",
            Error::Overflow => "arithmetic overflow",
            Error::InvalidArgument => "invalid argument",
            Error::Interrupted => "computation interrupted",
        }
    }
}

} // verus!
