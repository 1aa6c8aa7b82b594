//! Trade pairs and the events the exchange emits.

use vstd::prelude::*;

verus! {

/// A registered market between two tokens with a shared liquidity pool.
#[derive(Clone, Copy, Debug, PartialEq, Eq, Structural)]
pub struct TradePair {
    /// The unique identity the pair is registered under.
    pub hash: u128,
    /// The base token.
    pub base: u128,
    /// The quote token; always different from the base token.
    pub quote: u128,
    /// The LP token minted when the pair was created.
    pub liquidity_token_hash: u128,
    /// The LP shares currently held by providers: the LP token's total
    /// supply minus what the pool account still holds of it.
    pub liquidity_token_issued_amount: u128,
    /// The derived account custodying the pool's reserves.
    pub account: u64,
}

/// An append-only record of a completed operation, attached in order of
/// occurrence.
#[derive(Clone, Copy, Debug, PartialEq, Eq, Structural)]
pub enum Event {
    /// `(sender, pair hash, the created pair)`.
    TradePairCreated(u64, u128, TradePair),
    /// `(sender, pair hash)`.
    LiquidityAdded(u64, u128),
    /// `(sender, pair hash)`.
    LiquidityRemoved(u64, u128),
    /// `(sender, pair hash)`.
    SwapBuy(u64, u128),
    /// `(sender, pair hash)`.
    SwapSell(u64, u128),
}

} // verus!
