use vstd::prelude::*;

verus! {

/// Errors returned by the liquidity pool; the contract surfaces each with a
/// stable numeric code (its position in this list, from 1).
#[derive(Clone, Copy, Debug, PartialEq, Eq, PartialOrd, Ord)]
pub enum Error {
    /// Token count not in `2..=MAX_TOKENS`.
    InvalidTokenCount,
    /// Tokens not strictly ascending (this also catches duplicates).
    TokensNotSorted,
    /// `max_caps` length differs from the token count.
    CapsLengthMismatch,
    /// Amplification factor outside `[MIN_AMP, MAX_AMP]`.
    InvalidAmpFactor,
    /// Swap fee outside `[MIN_SWAP_FEE, MAX_SWAP_FEE]`.
    InvalidSwapFee,
    /// Protocol fee above 100%.
    InvalidProtocolFee,
    /// Token decimals too large to scale.
    InvalidDecimals,
    /// A cap is negative or exceeds `MAX_SAFE_BALANCE`.
    InvalidCap,
    /// An amounts vector's length differs from the token count.
    AmountsLengthMismatch,
    /// A negative amount, or one too large to scale into `u64`.
    InvalidAmount,
    /// No positive amount supplied.
    ZeroDeposit,
    /// The first deposit must fund every token.
    FirstDepositNotFull,
    /// A math routine returned `None` (no convergence, or bad input).
    MathError,
    /// Output below, or input above, the caller's limit.
    SlippageExceeded,
    /// A reserve would exceed its cap.
    CapExceeded,
    /// An `i128` value did not fit in the `u64` math domain.
    BalanceTooLarge,
    /// An address is not one of the pool's tokens.
    UnknownToken,
    /// `token_in == token_out`.
    SameToken,
    /// A token balance moved by a different amount than requested.
    TransferAmountMismatch,
    /// LP exits must use `withdraw`, so that reserves are updated.
    DirectLpBurnDisabled,
}

} // verus!
