//! A custodial deposit ledger.
//!
//! Two parallel ledgers track per-account escrow balances: one for native
//! tokens, keyed by (account, denomination), and one for tokens issued by
//! external token contracts, keyed by (account, issuing contract). Deposits
//! into the external ledger are time-locked: every deposit or top-up re-arms
//! a maturity height, before which withdrawal is refused.

pub mod contract;
pub mod error;
pub mod laws;
pub mod msg;
pub mod order;
pub mod response;
pub mod state;

