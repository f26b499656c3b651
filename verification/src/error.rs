use vstd::prelude::*;

verus! {

/// Errors that the pool's instructions reject a request with.
#[derive(Debug, Clone, Copy, PartialEq, Eq, Structural)]
pub enum AMMError {
    /// The request's arguments are not acceptable.
    InvalidArguments,
    /// A computed amount is not acceptable.
    InvalidAmount,
    /// A division by zero was requested.
    DivideByZero,
    /// A result does not fit its integer type.
    Overflow,
    /// A subtraction would go below zero.
    Underflow,
    /// The pool's reserves or supply cannot serve the request.
    InsufficientSupply,
}

} // verus!
