//! A constant-product automated market maker.
//!
//! Users create trade pairs between two fungible tokens, deposit paired
//! liquidity into a shared pool in exchange for liquidity-provider (LP)
//! shares, withdraw their pro-rata share of the pool by burning LP shares,
//! and swap one token for the other at a price determined by the
//! constant-product rule `x * y = k`.

pub mod bytes;
pub mod errors;
pub mod exchange;
pub mod hashing;
pub mod ledger;
pub mod math;
pub mod pair;

pub use errors::Error;
