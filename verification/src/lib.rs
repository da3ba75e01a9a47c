//! A constant-product automated market maker ledger.
//!
//! The crate tracks two fungible token balances per account, a shared
//! liquidity pool of the two token types, and pool-ownership shares.  It
//! offers operations to deposit tokens, provide and withdraw liquidity, and
//! swap one token for the other at an algorithmically derived price with fee
//! deduction and slippage protection.  All arithmetic is integer-only; the
//! truncation direction of every division is part of the specification.

pub mod math;
pub mod pool;

pub use pool::Amm;
pub use pool::Error;
