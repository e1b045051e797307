//! The ledger's error taxonomy.
//!
//! Every failure aborts the current operation before anything is persisted;
//! the variants say why.

use vstd::prelude::*;

verus! {

/// Why an operation was refused. No variant is ever paired with a partial
/// state change: a handler that returns an error leaves the ledger as it was.
#[derive(Debug, PartialEq, Eq)]
pub enum ContractError {
    /// A malformed request: an unrecognized embedded message on a token
    /// notification, or a call funding zero or several asset units at once.
    InvalidInput,
    /// A withdrawal asked for more than the ledger holds for the pair, or
    /// for a native pair that has no row at all.
    InsufficientFunds,
    /// An external-token withdrawal attempted before the row's maturity
    /// height; the operation may be retried once the lock expires.
    LockNotExpired,
    /// A checked addition would wrap: a balance past the largest
    /// representable amount, an operation count past its maximum, or a
    /// maturity height past the largest block height.
    Overflow,
    /// A checked subtraction on the operation count would wrap below its
    /// minimum.
    Underflow,
    /// An external-token withdrawal for an (account, contract) pair that
    /// has no row.
    NoCw20ToWithdraw,
}

impl ContractError {
    /// A short machine-readable name for the error, for transports that
    /// carry text.
    pub fn as_text(&self) -> (r: &'static str)
        ensures
            r@ == self.text_of(),
    {
        match self {
            ContractError::InvalidInput => "invalid input",
            ContractError::InsufficientFunds => "insufficient funds",
            ContractError::LockNotExpired => "lock not expired",
            ContractError::Overflow => "overflow",
            ContractError::Underflow => "underflow",
            ContractError::NoCw20ToWithdraw => "no cw20 deposit to withdraw",
        }
    }

    /// What `as_text` returns for each variant.
    pub open spec fn text_of(self) -> Seq<char> {
        match self {
            ContractError::InvalidInput => "invalid input"@,
            ContractError::InsufficientFunds => "insufficient funds"@,
            ContractError::LockNotExpired => "lock not expired"@,
            ContractError::Overflow => "overflow"@,
            ContractError::Underflow => "underflow"@,
            ContractError::NoCw20ToWithdraw => "no cw20 deposit to withdraw"@,
        }
    }
}

} // verus!
