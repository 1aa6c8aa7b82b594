use vstd::prelude::*;

verus! {

/// Failure kinds surfaced by the exchange operations.
///
/// Every precondition failure of an operation surfaces its distinct kind;
/// the operation then commits no state change and emits no event.
#[derive(Clone, Copy, Debug, PartialEq, Eq, Structural)]
pub enum Error {
    /// The base token equals the quote token.
    BaseEqualQuote,
    /// A token named at pair creation has no recorded owner.
    TokenOwnerNotFound,
    /// A token named in a ledger operation does not exist.
    TokenNotFound,
    /// The sender owns neither the base nor the quote token.
    SenderNotEqualToBaseOrQuoteOwner,
    /// A pair with the given base and quote (in either order) already exists.
    TradePairExisted,
    /// No pair is registered under the given hash.
    NoMatchingTradePair,
    /// The quote amount was not supplied on a bootstrap deposit.
    QuoteAmountIsNone,
    /// The base amount is zero.
    BaseAmountIsZero,
    /// The quote amount is zero.
    QuoteAmountIsZero,
    /// The computed amount of LP shares to mint is zero.
    LiquidityMintedIsZero,
    /// More LP shares were tendered than are currently issued.
    LiquidityTokenAmountOverflow,
    /// The LP share amount is zero.
    LiquidityTokenAmountIsZero,
    /// No LP shares are currently issued.
    LiquidityTokenIssuedAmountIsZero,
    /// The pool holds no base tokens.
    PoolBaseAmountIsZero,
    /// The pool holds no quote tokens.
    PoolQuoteAmountIsZero,
    /// An account's free balance is smaller than the amount required.
    InsufficientBalance,
    /// An intermediate product exceeds the balance range.
    Overflow,
    /// A freshly derived pair identity collides with existing state.
    IdentityCollision,
}

} // verus!
