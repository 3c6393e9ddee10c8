//! The failures that the crate reports to its caller.

use vstd::prelude::*;

verus! {

/// Why an invocation could not be carried out. Every error is terminal for
/// the invocation: nothing is retried.
#[derive(Clone, Copy, Debug, PartialEq, Eq, Structural)]
pub enum CoreError {
    /// The text is not a non-negative decimal number.
    InvalidAmountFormat,
    /// The text is not an account or contract address.
    InvalidAddressFormat,
    /// A removal or rebalance was asked for while no position is active.
    NoActivePositions,
    /// The submission or call layer failed, whatever the cause.
    TransportError,
}

impl CoreError {
    /// A short description for the user.
    pub fn message(&self) -> (text: &'static str)
        ensures
            text@ == Self::message_of(*self),
    {
        match self {
            CoreError::InvalidAmountFormat => "invalid amount format",
            CoreError::InvalidAddressFormat => "invalid address format",
            CoreError::NoActivePositions => "no active positions",
            CoreError::TransportError => "transport error",
        }
    }

    /// The description that `message` returns for each error.
    pub open spec fn message_of(e: CoreError) -> Seq<char> {
        match e {
            CoreError::InvalidAmountFormat => "invalid amount format"@,
            CoreError::InvalidAddressFormat => "invalid address format"@,
            CoreError::NoActivePositions => "no active positions"@,
            CoreError::TransportError => "transport error"@,
        }
    }
}

} // verus!
