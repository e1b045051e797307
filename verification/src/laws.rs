//! Laws of the ledger: properties that hold across whole runs of the
//! handlers, proved from the handlers' contracts alone.
//!
//! Each handler's `ensures` describes one step as a function on the
//! ledger's map abstraction (`native_deposit_step` and its kin); the
//! lemmas here chain or specialize those steps.

use crate::contract::{
    cw20_deposit_allowed, cw20_deposit_outcome, cw20_deposit_step, cw20_withdraw_outcome,
    native_deposit_step, withdraw_outcome, Ledger,
};
use crate::error::ContractError;
use crate::response::Response;
use crate::state::{LedgerKey, NativeEntry};
use vstd::prelude::*;

verus! {

/// The sum of a sequence of integers.
pub open spec fn seq_sum(s: Seq<int>) -> int
    decreases s.len(),
{
    if s.len() == 0 {
        0
    } else {
        seq_sum(s.drop_last()) + s.last()
    }
}

/// The native ledger after depositing each amount of `amts` in turn at key
/// `k` — the map a run of `execute_deposit` calls leaves behind, since each
/// call's contract says the map becomes `native_deposit_step` of the old.
pub open spec fn native_deposit_fold(
    m: Map<LedgerKey, NativeEntry>,
    k: LedgerKey,
    amts: Seq<int>,
) -> Map<LedgerKey, NativeEntry>
    decreases amts.len(),
{
    if amts.len() == 0 {
        m
    } else {
        native_deposit_step(native_deposit_fold(m, k, amts.drop_last()), k, amts.last())
    }
}

/// Depositing amounts `a1..an` into a fresh (account, denomination) pair
/// leaves a row holding exactly their sum, with an operation count of `n`.
pub proof fn lemma_deposit_sequence(m: Map<LedgerKey, NativeEntry>, k: LedgerKey, amts: Seq<int>)
    requires
        !m.contains_key(k),
        amts.len() >= 1,
        forall|i: int| 0 <= i < amts.len() ==> 0 <= #[trigger] amts[i],
    ensures
        native_deposit_fold(m, k, amts).contains_key(k),
        native_deposit_fold(m, k, amts)[k].amount == seq_sum(amts),
        native_deposit_fold(m, k, amts)[k].count == amts.len(),
    decreases amts.len(),
{
    if amts.len() == 1 {
        assert(amts.drop_last().len() == 0);
        assert(seq_sum(amts.drop_last()) == 0);
        assert(native_deposit_fold(m, k, amts.drop_last()) == m);
        assert(seq_sum(amts) == amts.last());
    } else {
        assert(forall|i: int|
            0 <= i < amts.drop_last().len() ==> 0 <= #[trigger] amts.drop_last()[i]);
        lemma_deposit_sequence(m, k, amts.drop_last());
    }
}

/// A native withdrawal of no more than the row's balance succeeds and
/// reduces the balance by exactly the requested amount; one of more than
/// the balance is refused as `InsufficientFunds` and changes nothing.
pub proof fn lemma_withdraw_exact_or_refused(
    pre: Ledger,
    post: Ledger,
    sender: Seq<char>,
    amount: int,
    denom: Seq<char>,
    r: Result<Response, ContractError>,
)
    requires
        withdraw_outcome(pre, post, sender, amount, denom, r),
        pre.native_map().contains_key((sender, denom)),
        0 <= amount,
        i32::MIN < pre.native_map()[(sender, denom)].count,
    ensures
        ({
            let k = (sender, denom);
            let before = pre.native_map()[k];
            &&& amount <= before.amount ==> {
                &&& r is Ok
                &&& post.native_map().contains_key(k)
                &&& post.native_map()[k].amount == before.amount - amount
                &&& post.native_map()[k].count == before.count - 1
            }
            &&& amount > before.amount ==> {
                &&& (r matches Err(e) && e is InsufficientFunds)
                &&& post.native_map() == pre.native_map()
            }
        }),
{
}

/// An external-token withdrawal attempted before the row's maturity height
/// is refused as `LockNotExpired` and leaves the row — amount, count and
/// maturity — unchanged.
pub proof fn lemma_locked_withdraw_refused(
    pre: Ledger,
    post: Ledger,
    height: int,
    sender: Seq<char>,
    contract: Seq<char>,
    amount: int,
    r: Result<Response, ContractError>,
)
    requires
        cw20_withdraw_outcome(pre, post, height, sender, contract, amount, r),
        pre.cw20_map().contains_key((sender, contract)),
        height < pre.cw20_map()[(sender, contract)].maturity,
    ensures
        (r matches Err(e) && e is LockNotExpired),
        post.cw20_map() == pre.cw20_map(),
        post.native_map() == pre.native_map(),
{
}

/// Once the maturity height is reached, an external-token withdrawal of no
/// more than the row's holding succeeds and reduces the holding by exactly
/// the requested amount.
pub proof fn lemma_matured_withdraw_succeeds(
    pre: Ledger,
    post: Ledger,
    height: int,
    sender: Seq<char>,
    contract: Seq<char>,
    amount: int,
    r: Result<Response, ContractError>,
)
    requires
        cw20_withdraw_outcome(pre, post, height, sender, contract, amount, r),
        pre.cw20_map().contains_key((sender, contract)),
        pre.cw20_map()[(sender, contract)].maturity <= height,
        0 <= amount <= pre.cw20_map()[(sender, contract)].amount,
        i32::MIN < pre.cw20_map()[(sender, contract)].count,
    ensures
        r is Ok,
        post.cw20_map().contains_key((sender, contract)),
        post.cw20_map()[(sender, contract)].amount == pre.cw20_map()[(sender, contract)].amount
            - amount,
        post.cw20_map()[(sender, contract)].count == pre.cw20_map()[(sender, contract)].count - 1,
{
}

/// Every external-token deposit that succeeds re-arms the row's lock to the
/// current height plus the lock window — whatever maturity the row had
/// before, elapsed in part or in whole.
pub proof fn lemma_topup_rearms_lock(
    pre: Ledger,
    post: Ledger,
    height: int,
    contract: Seq<char>,
    owner: Seq<char>,
    amount: int,
    r: Result<Response, ContractError>,
)
    requires
        cw20_deposit_outcome(pre, post, height, contract, owner, amount, r),
        height + pre.window() <= u64::MAX,
        cw20_deposit_allowed(pre.cw20_map(), (owner, contract), amount),
    ensures
        r is Ok,
        post.cw20_map().contains_key((owner, contract)),
        post.cw20_map()[(owner, contract)].maturity == height + pre.window(),
{
    assert(post.cw20_map() == cw20_deposit_step(
        pre.cw20_map(),
        (owner, contract),
        amount,
        height + pre.window(),
    ));
}

} // verus!
