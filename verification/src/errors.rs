//! Error taxonomy of the game's core operations.
//!
//! A validation failure is rejected before any mutation; a concurrency
//! conflict means a conditional write lost its race and the caller may
//! re-issue the operation.

use vstd::prelude::*;

verus! {

/// The error the chat front-end receives when a command loses a
/// conditional write.
#[derive(Clone, Copy, Debug, PartialEq, Eq, Structural)]
pub enum PotatoGameError {
    ConcurrencyError,
}

impl PotatoGameError {
    /// A short description for rendering to the user.
    pub fn message(&self) -> String {
        "ConcurrencyError".to_owned()
    }
}

/// A request refused before any mutation.
#[derive(Clone, Copy, Debug, PartialEq, Eq, Structural)]
pub enum ValidationError {
    /// The bet directive could not be resolved to an allowed stake.
    BadBetDirective,
    /// The amount is below the operation's minimum.
    AmountBelowMinimum,
    /// A player may not transfer to themselves.
    SelfTransfer,
    /// The sender's balance does not cover the amount.
    InsufficientBalance,
    /// The receiver is excluded from the game by policy.
    IneligibleReceiver,
}

/// Why an economy operation did not complete.
#[derive(Clone, Copy, Debug, PartialEq, Eq, Structural)]
pub enum EconomyError {
    /// Rejected before any mutation.
    Validation(ValidationError),
    /// A conditional write lost its race; storage is unchanged and the
    /// caller may re-issue the operation.
    ConcurrencyConflict,
}

} // verus!
