//! A fungible-token ledger: per-account balances and per-(owner, spender)
//! allowances, kept in a key-value store as fixed-width big-endian values,
//! with transfer, delegated transfer, approve, mint and burn on top.

pub mod addr;
pub mod codec;
pub mod error;
pub mod keys;
pub mod laws;
pub mod store;
pub mod token;
