use vstd::prelude::*;

verus! {

/// Every failure an operation can surface, as a typed kind: a caller can
/// tell "not authorized" from "wrong input" from "wrong phase". All checks
/// are local and immediate; a failed operation leaves no partial state.
#[derive(Clone, Copy, Debug, PartialEq, Eq, Structural)]
pub enum MarketError {
    /// The caller is not the identity the operation demands.
    AuthorizationError,
    /// The operation is not valid in the market's current phase.
    StateError,
    /// A zero or duplicate id, mismatched input lengths, an empty title,
    /// or a non-positive amount.
    ValidationError,
    /// The named outcome or market is unknown.
    NotFoundError,
    /// The named outcome exists but has been retired.
    InactiveError,
    /// The outcome named as winner has no stake backing it.
    NoStakeError,
    /// The claiming bettor holds no stake on the winning outcome.
    NoWinningStakeError,
    /// The value-transfer collaborator declined to move the stake.
    TransferFailure,
    /// Accepting the wager would overflow the pool accumulator.
    ArithmeticOverflowError,
}

} // verus!
