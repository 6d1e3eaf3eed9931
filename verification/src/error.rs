//! The failures a ledger operation can report. Every variant carries the
//! context a caller needs to act on it; no operation that returns an error
//! has written anything to storage.

use vstd::prelude::*;

verus! {

/// Why a ledger operation was refused. Each failure aborts the whole
/// operation before any storage write.
#[derive(Debug)]
pub enum TokenError {
    /// The debited account holds less than the requested amount.
    InsufficientFunds { account: Vec<u8>, balance: u128, required: u128 },
    /// The (owner, spender) allowance is below the requested amount.
    InsufficientAllowance { allowance: u128, required: u128 },
    /// Crediting `amount` on top of `balance` would leave the 128-bit range.
    ArithmeticOverflow { balance: u128, amount: u128 },
    /// Debiting `amount` from `balance` would drop below zero.
    ArithmeticUnderflow { balance: u128, amount: u128 },
    /// A stored value is not exactly the fixed width; `found` is its length.
    Decode { found: usize },
    /// A canonical account identifier of `length` bytes cannot be framed
    /// as a storage key.
    AddressResolution { length: usize },
}

impl TokenError {
    /// This error reports insufficient funds on `account`, which held
    /// `balance` when `required` was asked for.
    pub open spec fn is_insufficient_funds(self, account: Seq<u8>, balance: int, required: int) -> bool {
        match self {
            TokenError::InsufficientFunds { account: a, balance: b, required: r } => {
                a@ == account && b == balance && r == required
            },
            _ => false,
        }
    }

    /// This error reports an allowance of `allowance` against a request of
    /// `required`.
    pub open spec fn is_insufficient_allowance(self, allowance: int, required: int) -> bool {
        match self {
            TokenError::InsufficientAllowance { allowance: a, required: r } => {
                a == allowance && r == required
            },
            _ => false,
        }
    }

    /// This error reports a credit of `amount` onto `balance` that would
    /// overflow.
    pub open spec fn is_overflow(self, balance: int, amount: int) -> bool {
        match self {
            TokenError::ArithmeticOverflow { balance: b, amount: a } => {
                b == balance && a == amount
            },
            _ => false,
        }
    }

    /// This error reports a debit of `amount` from `balance` that would
    /// underflow.
    pub open spec fn is_underflow(self, balance: int, amount: int) -> bool {
        match self {
            TokenError::ArithmeticUnderflow { balance: b, amount: a } => {
                b == balance && a == amount
            },
            _ => false,
        }
    }

    /// This error reports a stored value of width `found` where the fixed
    /// width was expected.
    pub open spec fn is_decode(self, found: int) -> bool {
        match self {
            TokenError::Decode { found: f } => f == found,
            _ => false,
        }
    }
}

} // verus!
