//! Error kinds reported by the library.

use vstd::prelude::*;

verus! {

/// The reasons for which an operation of this library is refused.
#[derive(Clone, Copy, Debug, PartialEq, Eq, Structural)]
pub enum ErrorCode {
    /// A square-root price is zero or outside the supported range.
    SqrtPriceX64,
    /// Liquidity is zero where a positive value is needed.
    InvalidLiquidity,
    /// A fixed-point result does not fit its container.
    CalculateOverflow,
    /// A token amount exceeds `u64::MAX`.
    MaxTokenOverflow,
    /// An arithmetic failure met while looking for the reachable price.
    SqrtPriceLimitOverflow,
    /// A tick index is outside the array or otherwise unusable.
    InvalidTickIndex,
    /// A tick array holds no initialized tick, or is not the expected one.
    InvalidTickArray,
    /// A tick index is not a multiple of the tick spacing.
    TickAndSpacingNotMatch,
    /// A signed liquidity change would leave the total negative or too large.
    LiquidityAddValueErr,
    /// The pool's status bits forbid the operation.
    NotApproved,
    /// An account is owned by another program than expected.
    IllegalAccountOwner,
    /// An account is not the one expected.
    InvalidAccount,
}

/// The reasons for which the data of an account is not taken as a tick
/// array.
#[derive(Clone, Copy, Debug, PartialEq, Eq, Structural)]
pub enum AccountError {
    /// The account is owned by another program.
    AccountOwnedByWrongProgram,
    /// The account is to be written but is not writable.
    AccountNotMutable,
    /// The account's data is too short for a tag.
    AccountDiscriminatorNotFound,
    /// The account's data opens with another tag than expected.
    AccountDiscriminatorMismatch,
    /// The account is to be initialized but has a tag already.
    AccountDiscriminatorAlreadySet,
    /// The account's data does not hold what its tag promises.
    AccountDidNotDeserialize,
    /// The account's address is not the address expected.
    RequireKeysEqViolated,
    /// A failure of the pool's own rules.
    Program(ErrorCode),
}

} // verus!
