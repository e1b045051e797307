//! The typed operations the transport hands to the core, and the typed
//! results the query layer hands back. Decoding a wire format into these
//! types (and encoding the answers) is the transport's concern.

use crate::contract::Cw20HookMsg;
use crate::state::{Cw20Deposits, Deposits};
use vstd::prelude::*;

verus! {

/// An inbound state-changing operation, fully typed.
pub enum ExecuteMsg {
    /// Deposit the one funded asset unit attached to the call.
    Deposit,
    /// Withdraw `amount` of `denom` from the caller's native row.
    Withdraw { amount: u128, denom: String },
    /// A token contract's notification that `sender` routed `amount` of its
    /// tokens here; `msg` is the embedded request it carried, already
    /// decoded, with `None` standing for anything unrecognized.
    Receive { sender: String, amount: u128, msg: Option<Cw20HookMsg> },
    /// Withdraw `amount` of the tokens issued by the contract at `address`.
    WithdrawCw20 { address: String, amount: u128 },
}

/// An inbound read-only operation.
pub enum QueryMsg {
    /// List the account's native rows, ascending by denomination.
    Deposits { address: String },
    /// List the account's external-token rows, ascending by issuing
    /// contract.
    Cw20Deposits { address: String },
}

/// An account's native rows, each paired with its denomination key.
pub struct DepositResponse {
    pub deposits: Vec<(String, Deposits)>,
}

/// An account's external-token rows, each paired with its issuing-contract
/// key.
pub struct Cw20DepositResponse {
    pub deposits: Vec<(String, Cw20Deposits)>,
}

/// The answer to a `QueryMsg`.
pub enum QueryResponse {
    Deposits(DepositResponse),
    Cw20Deposits(Cw20DepositResponse),
}

} // verus!
