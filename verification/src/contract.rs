//! The ledger core: deposit and withdraw handlers for both ledgers, the
//! typed dispatchers, and the query layer.
//!
//! Every handler is a read-modify-write on one row: it validates its input,
//! applies checked arithmetic and the lock-state rule, and persists the new
//! row only when every check has passed — an error never leaves a partial
//! change behind. The contracts speak of each ledger as a finite map from
//! composite keys to abstract entries.

use crate::error::ContractError;
use crate::order::{lemma_lex_lt_irrefl, lex_lt, str_cmp, str_eq, Cmp};
use crate::msg::{Cw20DepositResponse, DepositResponse, ExecuteMsg, QueryMsg, QueryResponse};
use crate::response::{
    attr, attr_is, attr_owned, dec_digits, u128_to_decimal, Attribute, Instruction, Response,
};
use crate::state::{
    cw20_entry, cw20_key, cw20_map_of, cw20_sorted, key_lt, lemma_cw20_contains, lemma_cw20_index,
    lemma_cw20_adjacent_sorted, lemma_cw20_insert, lemma_cw20_sorted_insert, lemma_cw20_sorted_update, lemma_cw20_update,
    lemma_key_lt_irrefl, lemma_key_lt_trans, lemma_native_adjacent_sorted,
    lemma_native_contains, lemma_native_index,
    lemma_native_insert, lemma_native_sorted_insert, lemma_native_sorted_update,
    lemma_native_update, native_entry, native_key, native_map_of, native_sorted, Coin, Cw20Deposits,
    Cw20Entry, Deposits, LedgerKey, NativeEntry,
};
use vstd::prelude::*;

verus! {

/// The ledger service: the configured lock window and the two row stores,
/// each kept strictly sorted by its composite key.
pub struct Ledger {
    lock_window: u64,
    deposits: Vec<Deposits>,
    cw20_deposits: Vec<Cw20Deposits>,
}

impl Ledger {
    /// The native rows, in storage (key) order.
    pub closed spec fn native_rows(self) -> Seq<Deposits> {
        self.deposits@
    }

    /// The external-token rows, in storage (key) order.
    pub closed spec fn cw20_rows(self) -> Seq<Cw20Deposits> {
        self.cw20_deposits@
    }

    /// The configured lock window, in blocks.
    pub closed spec fn window(self) -> int {
        self.lock_window as int
    }

    /// Both row stores are strictly sorted by key.
    pub closed spec fn wf(self) -> bool {
        native_sorted(self.deposits@) && cw20_sorted(self.cw20_deposits@)
    }

    /// The native ledger as a map from (account, denomination) to entry.
    pub open spec fn native_map(self) -> Map<LedgerKey, NativeEntry> {
        native_map_of(self.native_rows())
    }

    /// The external-token ledger as a map from (account, contract) to entry.
    pub open spec fn cw20_map(self) -> Map<LedgerKey, Cw20Entry> {
        cw20_map_of(self.cw20_rows())
    }

    /// A fresh, empty ledger with the given lock window.
    pub fn new(lock_window: u64) -> (l: Ledger)
        ensures
            l.wf(),
            l.window() == lock_window as int,
            l.native_map() == Map::<LedgerKey, NativeEntry>::empty(),
            l.cw20_map() == Map::<LedgerKey, Cw20Entry>::empty(),
    {
        Ledger { lock_window, deposits: Vec::new(), cw20_deposits: Vec::new() }
    }

    /// The configured lock window.
    pub fn lock_window_blocks(&self) -> (w: u64)
        ensures
            w as int == self.window(),
    {
        self.lock_window
    }

    /// Rebuilds a ledger from persisted rows. The rows must arrive strictly
    /// ascending by key — the order the queries and the row dumps produce;
    /// anything else is refused and no ledger is built.
    pub fn from_rows(
        lock_window: u64,
        deposits: Vec<Deposits>,
        cw20_deposits: Vec<Cw20Deposits>,
    ) -> (r: Result<Ledger, ContractError>)
        ensures
            match r {
                Ok(l) => {
                    &&& l.wf()
                    &&& l.window() == lock_window as int
                    &&& l.native_rows() == deposits@
                    &&& l.cw20_rows() == cw20_deposits@
                },
                Err(e) => {
                    &&& e is InvalidInput
                    &&& !(native_sorted(deposits@) && cw20_sorted(cw20_deposits@))
                },
            },
    {
        let n = deposits.len();
        let mut i: usize = 1;
        while i < n
            invariant
                1 <= i,
                n == deposits@.len(),
                forall|t: int|
                    0 <= t < i - 1 ==> key_lt(
                        native_key(#[trigger] deposits@[t]),
                        native_key(deposits@[t + 1]),
                    ),
            decreases n - i,
        {
            let prev = &deposits[i - 1];
            let cur = &deposits[i];
            match key_cmp(
                prev.owner.as_str(),
                prev.coins.denom.as_str(),
                cur.owner.as_str(),
                cur.coins.denom.as_str(),
            ) {
                Cmp::Lt => {
                    i = i + 1;
                },
                Cmp::Eq => {
                    proof {
                        if native_sorted(deposits@) {
                            assert(key_lt(
                                native_key(deposits@[i - 1]),
                                native_key(deposits@[i as int]),
                            ));
                            lemma_key_lt_irrefl(native_key(deposits@[i as int]));
                        }
                    }
                    return Err(ContractError::InvalidInput);
                },
                Cmp::Gt => {
                    proof {
                        if native_sorted(deposits@) {
                            assert(key_lt(
                                native_key(deposits@[i - 1]),
                                native_key(deposits@[i as int]),
                            ));
                            lemma_key_lt_trans(
                                native_key(deposits@[i - 1]),
                                native_key(deposits@[i as int]),
                                native_key(deposits@[i - 1]),
                            );
                            lemma_key_lt_irrefl(native_key(deposits@[i - 1]));
                        }
                    }
                    return Err(ContractError::InvalidInput);
                },
            }
        }
        proof {
            lemma_native_adjacent_sorted(deposits@);
        }
        let m = cw20_deposits.len();
        let mut j: usize = 1;
        while j < m
            invariant
                1 <= j,
                m == cw20_deposits@.len(),
                forall|t: int|
                    0 <= t < j - 1 ==> key_lt(
                        cw20_key(#[trigger] cw20_deposits@[t]),
                        cw20_key(cw20_deposits@[t + 1]),
                    ),
            decreases m - j,
        {
            let prev = &cw20_deposits[j - 1];
            let cur = &cw20_deposits[j];
            match key_cmp(
                prev.owner.as_str(),
                prev.contract.as_str(),
                cur.owner.as_str(),
                cur.contract.as_str(),
            ) {
                Cmp::Lt => {
                    j = j + 1;
                },
                Cmp::Eq => {
                    proof {
                        if cw20_sorted(cw20_deposits@) {
                            assert(key_lt(
                                cw20_key(cw20_deposits@[j - 1]),
                                cw20_key(cw20_deposits@[j as int]),
                            ));
                            lemma_key_lt_irrefl(cw20_key(cw20_deposits@[j as int]));
                        }
                    }
                    return Err(ContractError::InvalidInput);
                },
                Cmp::Gt => {
                    proof {
                        if cw20_sorted(cw20_deposits@) {
                            assert(key_lt(
                                cw20_key(cw20_deposits@[j - 1]),
                                cw20_key(cw20_deposits@[j as int]),
                            ));
                            lemma_key_lt_trans(
                                cw20_key(cw20_deposits@[j - 1]),
                                cw20_key(cw20_deposits@[j as int]),
                                cw20_key(cw20_deposits@[j - 1]),
                            );
                            lemma_key_lt_irrefl(cw20_key(cw20_deposits@[j - 1]));
                        }
                    }
                    return Err(ContractError::InvalidInput);
                },
            }
        }
        proof {
            lemma_cw20_adjacent_sorted(cw20_deposits@);
        }
        Ok(Ledger { lock_window, deposits, cw20_deposits })
    }

    /// All native rows, copied out in ascending key order, for persistence.
    pub fn native_rows_vec(&self) -> (r: Vec<Deposits>)
        ensures
            r@.len() == self.native_rows().len(),
            forall|i: int|
                0 <= i < r@.len() ==> (native_key(#[trigger] r@[i]) == native_key(
                    self.native_rows()[i],
                ) && native_entry(r@[i]) == native_entry(self.native_rows()[i])),
    {
        let mut out: Vec<Deposits> = Vec::new();
        let n = self.deposits.len();
        let mut i: usize = 0;
        while i < n
            invariant
                i <= n,
                n == self.deposits@.len(),
                out@.len() == i,
                forall|t: int|
                    0 <= t < i ==> (native_key(#[trigger] out@[t]) == native_key(self.deposits@[t])
                        && native_entry(out@[t]) == native_entry(self.deposits@[t])),
            decreases n - i,
        {
            out.push(clone_native_row(&self.deposits[i]));
            i = i + 1;
        }
        out
    }

    /// All external-token rows, copied out in ascending key order, for
    /// persistence.
    pub fn cw20_rows_vec(&self) -> (r: Vec<Cw20Deposits>)
        ensures
            r@.len() == self.cw20_rows().len(),
            forall|i: int|
                0 <= i < r@.len() ==> (cw20_key(#[trigger] r@[i]) == cw20_key(self.cw20_rows()[i])
                    && cw20_entry(r@[i]) == cw20_entry(self.cw20_rows()[i])),
    {
        let mut out: Vec<Cw20Deposits> = Vec::new();
        let n = self.cw20_deposits.len();
        let mut i: usize = 0;
        while i < n
            invariant
                i <= n,
                n == self.cw20_deposits@.len(),
                out@.len() == i,
                forall|t: int|
                    0 <= t < i ==> (cw20_key(#[trigger] out@[t]) == cw20_key(
                        self.cw20_deposits@[t],
                    ) && cw20_entry(out@[t]) == cw20_entry(self.cw20_deposits@[t])),
            decreases n - i,
        {
            out.push(clone_cw20_row(&self.cw20_deposits[i]));
            i = i + 1;
        }
        out
    }
}

/// Whether a native deposit's checked arithmetic succeeds on ledger `m`.
pub open spec fn native_deposit_allowed(
    m: Map<LedgerKey, NativeEntry>,
    k: LedgerKey,
    a: int,
) -> bool {
    m.contains_key(k) ==> (m[k].amount + a <= u128::MAX && m[k].count + 1 <= i32::MAX)
}

/// The native ledger after a deposit of `a` at key `k`: a fresh row starts
/// at one operation, an existing row accumulates.
pub open spec fn native_deposit_step(
    m: Map<LedgerKey, NativeEntry>,
    k: LedgerKey,
    a: int,
) -> Map<LedgerKey, NativeEntry> {
    if m.contains_key(k) {
        m.insert(k, NativeEntry { count: m[k].count + 1, amount: m[k].amount + a })
    } else {
        m.insert(k, NativeEntry { count: 1, amount: a })
    }
}

/// Whether a native withdrawal of `a` at key `k` is allowed: the row exists,
/// holds at least `a`, and the operation count can still be decremented.
pub open spec fn native_withdraw_allowed(
    m: Map<LedgerKey, NativeEntry>,
    k: LedgerKey,
    a: int,
) -> bool {
    m.contains_key(k) && a <= m[k].amount && i32::MIN <= m[k].count - 1
}

/// The native ledger after a withdrawal of `a` at key `k`.
pub open spec fn native_withdraw_step(
    m: Map<LedgerKey, NativeEntry>,
    k: LedgerKey,
    a: int,
) -> Map<LedgerKey, NativeEntry> {
    m.insert(k, NativeEntry { count: m[k].count - 1, amount: m[k].amount - a })
}

/// Whether an external-token deposit's checked arithmetic succeeds.
pub open spec fn cw20_deposit_allowed(m: Map<LedgerKey, Cw20Entry>, k: LedgerKey, a: int) -> bool {
    m.contains_key(k) ==> (m[k].amount + a <= u128::MAX && m[k].count + 1 <= i32::MAX)
}

/// The external-token ledger after a deposit of `a` at key `k` with the
/// lock re-armed to `expiry`: the maturity is overwritten unconditionally,
/// whether the row is fresh or topped up.
pub open spec fn cw20_deposit_step(
    m: Map<LedgerKey, Cw20Entry>,
    k: LedgerKey,
    a: int,
    expiry: int,
) -> Map<LedgerKey, Cw20Entry> {
    if m.contains_key(k) {
        m.insert(
            k,
            Cw20Entry { count: m[k].count + 1, amount: m[k].amount + a, maturity: expiry },
        )
    } else {
        m.insert(k, Cw20Entry { count: 1, amount: a, maturity: expiry })
    }
}

/// Whether an external-token withdrawal of `a` at key `k` is allowed at
/// block `height`: the row exists, its lock has matured, it holds at least
/// `a`, and the operation count can still be decremented.
pub open spec fn cw20_withdraw_allowed(
    m: Map<LedgerKey, Cw20Entry>,
    k: LedgerKey,
    a: int,
    height: int,
) -> bool {
    m.contains_key(k) && m[k].maturity <= height && a <= m[k].amount && i32::MIN <= m[k].count - 1
}

/// The external-token ledger after a withdrawal of `a` at key `k`; the
/// maturity is left as it was.
pub open spec fn cw20_withdraw_step(
    m: Map<LedgerKey, Cw20Entry>,
    k: LedgerKey,
    a: int,
) -> Map<LedgerKey, Cw20Entry> {
    m.insert(
        k,
        Cw20Entry { count: m[k].count - 1, amount: m[k].amount - a, maturity: m[k].maturity },
    )
}

/// Three-way comparison of composite keys: by account, then by the
/// secondary identifier.
fn key_cmp(a0: &str, a1: &str, b0: &str, b1: &str) -> (r: Cmp)
    ensures
        match r {
            Cmp::Lt => key_lt((a0@, a1@), (b0@, b1@)),
            Cmp::Eq => (a0@, a1@) == (b0@, b1@),
            Cmp::Gt => key_lt((b0@, b1@), (a0@, a1@)),
        },
{
    match str_cmp(a0, b0) {
        Cmp::Lt => Cmp::Lt,
        Cmp::Gt => Cmp::Gt,
        Cmp::Eq => str_cmp(a1, b1),
    }
}

/// Where the key `(owner, second)` stands in the sorted native rows: the
/// index of its row when `r.1` is true, else its insertion point.
fn locate_native(v: &Vec<Deposits>, owner: &str, second: &str) -> (r: (usize, bool))
    requires
        native_sorted(v@),
    ensures
        r.0 <= v@.len(),
        forall|t: int| 0 <= t < r.0 ==> key_lt(native_key(#[trigger] v@[t]), (owner@, second@)),
        r.1 ==> r.0 < v@.len() && native_key(v@[r.0 as int]) == (owner@, second@),
        r.1 ==> forall|t: int|
            0 <= t < v@.len() && t != r.0 ==> native_key(#[trigger] v@[t]) != (owner@, second@),
        !r.1 ==> forall|t: int|
            r.0 <= t < v@.len() ==> key_lt((owner@, second@), native_key(#[trigger] v@[t])),
        !r.1 ==> forall|t: int|
            0 <= t < v@.len() ==> native_key(#[trigger] v@[t]) != (owner@, second@),
{
    let ghost target: LedgerKey = (owner@, second@);
    let n = v.len();
    let mut i: usize = 0;
    while i < n
        invariant
            i <= n,
            n == v@.len(),
            native_sorted(v@),
            target == (owner@, second@),
            forall|t: int| 0 <= t < i ==> key_lt(native_key(#[trigger] v@[t]), target),
        decreases n - i,
    {
        let row = &v[i];
        let ro = row.owner.as_str();
        let rd = row.coins.denom.as_str();
        proof {
            assert(native_key(v@[i as int]) == (ro@, rd@));
        }
        match key_cmp(ro, rd, owner, second) {
            Cmp::Lt => {
                i = i + 1;
            },
            Cmp::Eq => {
                proof {
                    assert(native_key(v@[i as int]) == target);
                    assert forall|t: int|
                        0 <= t < v@.len() && t != i implies native_key(#[trigger] v@[t])
                        != target by {
                        if t < i {
                            lemma_key_lt_irrefl(target);
                        } else {
                            lemma_key_lt_irrefl(native_key(v@[t]));
                        }
                    }
                }
                return (i, true);
            },
            Cmp::Gt => {
                proof {
                    assert forall|t: int| i <= t < v@.len() implies key_lt(
                        target,
                        native_key(#[trigger] v@[t]),
                    ) by {
                        if t > i {
                            lemma_key_lt_trans(target, native_key(v@[i as int]), native_key(v@[t]));
                        }
                    }
                    assert forall|t: int| 0 <= t < v@.len() implies native_key(#[trigger] v@[t])
                        != target by {
                        if t < i {
                            lemma_key_lt_irrefl(target);
                        } else {
                            lemma_key_lt_irrefl(target);
                        }
                    }
                }
                return (i, false);
            },
        }
    }
    proof {
        assert forall|t: int| 0 <= t < v@.len() implies native_key(#[trigger] v@[t]) != target by {
            lemma_key_lt_irrefl(target);
        }
    }
    (n, false)
}

/// Where the key `(owner, second)` stands in the sorted external-token
/// rows: the index of its row when `r.1` is true, else its insertion point.
fn locate_cw20(v: &Vec<Cw20Deposits>, owner: &str, second: &str) -> (r: (usize, bool))
    requires
        cw20_sorted(v@),
    ensures
        r.0 <= v@.len(),
        forall|t: int| 0 <= t < r.0 ==> key_lt(cw20_key(#[trigger] v@[t]), (owner@, second@)),
        r.1 ==> r.0 < v@.len() && cw20_key(v@[r.0 as int]) == (owner@, second@),
        r.1 ==> forall|t: int|
            0 <= t < v@.len() && t != r.0 ==> cw20_key(#[trigger] v@[t]) != (owner@, second@),
        !r.1 ==> forall|t: int|
            r.0 <= t < v@.len() ==> key_lt((owner@, second@), cw20_key(#[trigger] v@[t])),
        !r.1 ==> forall|t: int|
            0 <= t < v@.len() ==> cw20_key(#[trigger] v@[t]) != (owner@, second@),
{
    let ghost target: LedgerKey = (owner@, second@);
    let n = v.len();
    let mut i: usize = 0;
    while i < n
        invariant
            i <= n,
            n == v@.len(),
            cw20_sorted(v@),
            target == (owner@, second@),
            forall|t: int| 0 <= t < i ==> key_lt(cw20_key(#[trigger] v@[t]), target),
        decreases n - i,
    {
        let row = &v[i];
        let ro = row.owner.as_str();
        let rc = row.contract.as_str();
        proof {
            assert(cw20_key(v@[i as int]) == (ro@, rc@));
        }
        match key_cmp(ro, rc, owner, second) {
            Cmp::Lt => {
                i = i + 1;
            },
            Cmp::Eq => {
                proof {
                    assert(cw20_key(v@[i as int]) == target);
                    assert forall|t: int| 0 <= t < v@.len() && t != i implies cw20_key(
                        #[trigger] v@[t],
                    ) != target by {
                        if t < i {
                            lemma_key_lt_irrefl(target);
                        } else {
                            lemma_key_lt_irrefl(cw20_key(v@[t]));
                        }
                    }
                }
                return (i, true);
            },
            Cmp::Gt => {
                proof {
                    assert forall|t: int| i <= t < v@.len() implies key_lt(
                        target,
                        cw20_key(#[trigger] v@[t]),
                    ) by {
                        if t > i {
                            lemma_key_lt_trans(target, cw20_key(v@[i as int]), cw20_key(v@[t]));
                        }
                    }
                    assert forall|t: int| 0 <= t < v@.len() implies cw20_key(#[trigger] v@[t])
                        != target by {
                        lemma_key_lt_irrefl(target);
                    }
                }
                return (i, false);
            },
        }
    }
    proof {
        assert forall|t: int| 0 <= t < v@.len() implies cw20_key(#[trigger] v@[t]) != target by {
            lemma_key_lt_irrefl(target);
        }
    }
    (n, false)
}

/// Everything `execute_deposit` promises, as a relation between the ledger
/// before and after the call, the inputs, and the result.
pub open spec fn deposit_outcome(
    pre: Ledger,
    post: Ledger,
    sender: Seq<char>,
    funds: Seq<Coin>,
    r: Result<Response, ContractError>,
) -> bool {
    &&& post.wf()
    &&& post.window() == pre.window()
    &&& post.cw20_map() == pre.cw20_map()
    &&& match r {
        Ok(resp) => {
            let k = (sender, funds[0].denom@);
            let a = funds[0].amount as int;
            &&& funds.len() == 1
            &&& native_deposit_allowed(pre.native_map(), k, a)
            &&& post.native_map() == native_deposit_step(pre.native_map(), k, a)
            &&& resp.messages@.len() == 0
            &&& resp.attributes@.len() == 3
            &&& attr_is(resp.attributes@[0], "execute"@, "deposit"@)
            &&& attr_is(resp.attributes@[1], "denom"@, funds[0].denom@)
            &&& attr_is(resp.attributes@[2], "amount"@, dec_digits(a))
        },
        Err(e) => {
            &&& post == pre
            &&& funds.len() != 1 ==> e is InvalidInput
            &&& funds.len() == 1 ==> {
                &&& e is Overflow
                &&& !native_deposit_allowed(
                    pre.native_map(),
                    (sender, funds[0].denom@),
                    funds[0].amount as int,
                )
            }
        },
    }
}

/// Deposits the one funded asset unit attached to the call into the
/// caller's native ledger row, creating the row on first use.
pub fn execute_deposit(ledger: &mut Ledger, sender: &str, funds: &Vec<Coin>) -> (r: Result<
    Response,
    ContractError,
>)
    requires
        old(ledger).wf(),
    ensures
        deposit_outcome(*old(ledger), *final(ledger), sender@, funds@, r),
{
    if funds.len() != 1 {
        return Err(ContractError::InvalidInput);
    }
    let d_coins = &funds[0];
    let ghost k: LedgerKey = (sender@, d_coins.denom@);
    let (pos, found) = locate_native(&ledger.deposits, sender, d_coins.denom.as_str());
    proof {
        lemma_native_contains(ledger.deposits@, k);
    }
    if found {
        let row = &ledger.deposits[pos];
        proof {
            lemma_native_index(ledger.deposits@, pos as int);
        }
        let new_amount = match row.coins.amount.checked_add(d_coins.amount) {
            Some(a) => a,
            None => {
                return Err(ContractError::Overflow);
            },
        };
        let new_count = match row.count.checked_add(1) {
            Some(c) => c,
            None => {
                return Err(ContractError::Overflow);
            },
        };
        let updated = Deposits {
            count: new_count,
            owner: row.owner.clone(),
            coins: Coin { denom: row.coins.denom.clone(), amount: new_amount },
        };
        proof {
            assert(native_key(updated) == k);
            lemma_native_update(ledger.deposits@, pos as int, updated);
            lemma_native_sorted_update(ledger.deposits@, pos as int, updated);
        }
        ledger.deposits[pos] = updated;
    } else {
        let new_row = Deposits {
            count: 1,
            owner: sender.to_owned(),
            coins: Coin { denom: d_coins.denom.clone(), amount: d_coins.amount },
        };
        proof {
            assert(native_key(new_row) == k);
            lemma_native_insert(ledger.deposits@, pos as int, new_row);
            lemma_native_sorted_insert(ledger.deposits@, pos as int, new_row);
        }
        ledger.deposits.insert(pos, new_row);
    }
    let mut attributes: Vec<Attribute> = Vec::new();
    attributes.push(attr("execute", "deposit"));
    attributes.push(attr_owned("denom", d_coins.denom.clone()));
    attributes.push(attr_owned("amount", u128_to_decimal(d_coins.amount)));
    Ok(Response { attributes, messages: Vec::new() })
}

/// Everything `execute_withdraw` promises.
pub open spec fn withdraw_outcome(
    pre: Ledger,
    post: Ledger,
    sender: Seq<char>,
    amount: int,
    denom: Seq<char>,
    r: Result<Response, ContractError>,
) -> bool {
    let k = (sender, denom);
    let m0 = pre.native_map();
    &&& post.wf()
    &&& post.window() == pre.window()
    &&& post.cw20_map() == pre.cw20_map()
    &&& match r {
        Ok(resp) => {
            &&& native_withdraw_allowed(m0, k, amount)
            &&& post.native_map() == native_withdraw_step(m0, k, amount)
            &&& resp.messages@.len() == 1
            &&& (resp.messages@[0] matches Instruction::NativeSend { to_address, denom: d, amount: a }
                && to_address@ == sender && d@ == denom && a as int == amount)
            &&& resp.attributes@.len() == 3
            &&& attr_is(resp.attributes@[0], "execute"@, "withdraw"@)
            &&& attr_is(resp.attributes@[1], "denom"@, denom)
            &&& attr_is(resp.attributes@[2], "amount"@, dec_digits(amount))
        },
        Err(e) => {
            &&& post == pre
            &&& !native_withdraw_allowed(m0, k, amount)
            &&& (e is InsufficientFunds <==> (!m0.contains_key(k) || m0[k].amount < amount))
            &&& (e is Underflow <==> (m0.contains_key(k) && amount <= m0[k].amount && m0[k].count
                - 1 < i32::MIN))
            &&& (e is InsufficientFunds || e is Underflow)
        },
    }
}

/// Withdraws `amount` of `denom` from the caller's native row and produces
/// the instruction to pay it out. A missing row and a balance below the
/// requested amount both refuse the withdrawal, and nothing is persisted.
pub fn execute_withdraw(ledger: &mut Ledger, sender: &str, amount: u128, denom: &str) -> (r: Result<
    Response,
    ContractError,
>)
    requires
        old(ledger).wf(),
    ensures
        withdraw_outcome(*old(ledger), *final(ledger), sender@, amount as int, denom@, r),
{
    let ghost k: LedgerKey = (sender@, denom@);
    let (pos, found) = locate_native(&ledger.deposits, sender, denom);
    proof {
        lemma_native_contains(ledger.deposits@, k);
    }
    if !found {
        return Err(ContractError::InsufficientFunds);
    }
    let row = &ledger.deposits[pos];
    proof {
        lemma_native_index(ledger.deposits@, pos as int);
    }
    let new_amount = match row.coins.amount.checked_sub(amount) {
        Some(a) => a,
        None => {
            return Err(ContractError::InsufficientFunds);
        },
    };
    let new_count = match row.count.checked_sub(1) {
        Some(c) => c,
        None => {
            return Err(ContractError::Underflow);
        },
    };
    let updated = Deposits {
        count: new_count,
        owner: row.owner.clone(),
        coins: Coin { denom: row.coins.denom.clone(), amount: new_amount },
    };
    proof {
        assert(native_key(updated) == k);
        lemma_native_update(ledger.deposits@, pos as int, updated);
        lemma_native_sorted_update(ledger.deposits@, pos as int, updated);
    }
    ledger.deposits[pos] = updated;
    let mut messages: Vec<Instruction> = Vec::new();
    messages.push(
        Instruction::NativeSend { to_address: sender.to_owned(), denom: denom.to_owned(), amount },
    );
    let mut attributes: Vec<Attribute> = Vec::new();
    attributes.push(attr("execute", "withdraw"));
    attributes.push(attr("denom", denom));
    attributes.push(attr_owned("amount", u128_to_decimal(amount)));
    Ok(Response { attributes, messages })
}

/// Everything `execute_cw20_deposit` promises.
pub open spec fn cw20_deposit_outcome(
    pre: Ledger,
    post: Ledger,
    height: int,
    contract: Seq<char>,
    owner: Seq<char>,
    amount: int,
    r: Result<Response, ContractError>,
) -> bool {
    let k = (owner, contract);
    let m0 = pre.cw20_map();
    let expiry = height + pre.window();
    &&& post.wf()
    &&& post.window() == pre.window()
    &&& post.native_map() == pre.native_map()
    &&& match r {
        Ok(resp) => {
            &&& expiry <= u64::MAX
            &&& cw20_deposit_allowed(m0, k, amount)
            &&& post.cw20_map() == cw20_deposit_step(m0, k, amount, expiry)
            &&& resp.messages@.len() == 0
            &&& resp.attributes@.len() == 4
            &&& attr_is(resp.attributes@[0], "execute"@, "cw20_deposit"@)
            &&& attr_is(resp.attributes@[1], "owner"@, owner)
            &&& attr_is(resp.attributes@[2], "contract"@, contract)
            &&& attr_is(resp.attributes@[3], "amount"@, dec_digits(amount))
        },
        Err(e) => {
            &&& post == pre
            &&& e is Overflow
            &&& !(expiry <= u64::MAX && cw20_deposit_allowed(m0, k, amount))
        },
    }
}

/// Records an external-token deposit reported by the issuing contract:
/// `owner` has routed `amount` of the caller's tokens into escrow. The
/// row's maturity is re-armed to `height` plus the lock window whether the
/// row is fresh or topped up.
pub fn execute_cw20_deposit(
    ledger: &mut Ledger,
    height: u64,
    cw20_contract: &str,
    owner: &str,
    amount: u128,
) -> (r: Result<Response, ContractError>)
    requires
        old(ledger).wf(),
    ensures
        cw20_deposit_outcome(
            *old(ledger),
            *final(ledger),
            height as int,
            cw20_contract@,
            owner@,
            amount as int,
            r,
        ),
{
    let expiry = match height.checked_add(ledger.lock_window) {
        Some(e) => e,
        None => {
            return Err(ContractError::Overflow);
        },
    };
    let ghost k: LedgerKey = (owner@, cw20_contract@);
    let (pos, found) = locate_cw20(&ledger.cw20_deposits, owner, cw20_contract);
    proof {
        lemma_cw20_contains(ledger.cw20_deposits@, k);
    }
    if found {
        let row = &ledger.cw20_deposits[pos];
        proof {
            lemma_cw20_index(ledger.cw20_deposits@, pos as int);
        }
        let new_amount = match row.amount.checked_add(amount) {
            Some(a) => a,
            None => {
                return Err(ContractError::Overflow);
            },
        };
        let new_count = match row.count.checked_add(1) {
            Some(c) => c,
            None => {
                return Err(ContractError::Overflow);
            },
        };
        let updated = Cw20Deposits {
            count: new_count,
            owner: row.owner.clone(),
            contract: row.contract.clone(),
            amount: new_amount,
            maturity: expiry,
        };
        proof {
            assert(cw20_key(updated) == k);
            lemma_cw20_update(ledger.cw20_deposits@, pos as int, updated);
            lemma_cw20_sorted_update(ledger.cw20_deposits@, pos as int, updated);
        }
        ledger.cw20_deposits[pos] = updated;
    } else {
        let new_row = Cw20Deposits {
            count: 1,
            owner: owner.to_owned(),
            contract: cw20_contract.to_owned(),
            amount,
            maturity: expiry,
        };
        proof {
            assert(cw20_key(new_row) == k);
            lemma_cw20_insert(ledger.cw20_deposits@, pos as int, new_row);
            lemma_cw20_sorted_insert(ledger.cw20_deposits@, pos as int, new_row);
        }
        ledger.cw20_deposits.insert(pos, new_row);
    }
    let mut attributes: Vec<Attribute> = Vec::new();
    attributes.push(attr("execute", "cw20_deposit"));
    attributes.push(attr("owner", owner));
    attributes.push(attr("contract", cw20_contract));
    attributes.push(attr_owned("amount", u128_to_decimal(amount)));
    Ok(Response { attributes, messages: Vec::new() })
}

/// Everything `execute_cw20_withdraw` promises.
pub open spec fn cw20_withdraw_outcome(
    pre: Ledger,
    post: Ledger,
    height: int,
    sender: Seq<char>,
    contract: Seq<char>,
    amount: int,
    r: Result<Response, ContractError>,
) -> bool {
    let k = (sender, contract);
    let m0 = pre.cw20_map();
    &&& post.wf()
    &&& post.window() == pre.window()
    &&& post.native_map() == pre.native_map()
    &&& match r {
        Ok(resp) => {
            &&& cw20_withdraw_allowed(m0, k, amount, height)
            &&& post.cw20_map() == cw20_withdraw_step(m0, k, amount)
            &&& resp.messages@.len() == 1
            &&& (resp.messages@[0] matches Instruction::IssuerTransfer { contract: c, recipient, amount: a }
                && c@ == contract && recipient@ == sender && a as int == amount)
            &&& resp.attributes@.len() == 1
            &&& attr_is(resp.attributes@[0], "execute"@, "withdraw"@)
        },
        Err(e) => {
            &&& post == pre
            &&& !cw20_withdraw_allowed(m0, k, amount, height)
            &&& (e is NoCw20ToWithdraw <==> !m0.contains_key(k))
            &&& (e is LockNotExpired <==> (m0.contains_key(k) && height < m0[k].maturity))
            &&& (e is InsufficientFunds <==> (m0.contains_key(k) && m0[k].maturity <= height
                && m0[k].amount < amount))
            &&& (e is Underflow <==> (m0.contains_key(k) && m0[k].maturity <= height && amount
                <= m0[k].amount && m0[k].count - 1 < i32::MIN))
        },
    }
}

/// Withdraws `amount` of the tokens issued by `contract` from the caller's
/// escrow row, once the row's lock has matured, and produces the
/// instruction asking the issuer to transfer the tokens out. Before
/// maturity the withdrawal is refused and the row is untouched.
pub fn execute_cw20_withdraw(
    ledger: &mut Ledger,
    height: u64,
    sender: &str,
    contract: &str,
    amount: u128,
) -> (r: Result<Response, ContractError>)
    requires
        old(ledger).wf(),
    ensures
        cw20_withdraw_outcome(
            *old(ledger),
            *final(ledger),
            height as int,
            sender@,
            contract@,
            amount as int,
            r,
        ),
{
    let ghost k: LedgerKey = (sender@, contract@);
    let (pos, found) = locate_cw20(&ledger.cw20_deposits, sender, contract);
    proof {
        lemma_cw20_contains(ledger.cw20_deposits@, k);
    }
    if !found {
        return Err(ContractError::NoCw20ToWithdraw);
    }
    let row = &ledger.cw20_deposits[pos];
    proof {
        lemma_cw20_index(ledger.cw20_deposits@, pos as int);
    }
    if height < row.maturity {
        return Err(ContractError::LockNotExpired);
    }
    let new_amount = match row.amount.checked_sub(amount) {
        Some(a) => a,
        None => {
            return Err(ContractError::InsufficientFunds);
        },
    };
    let new_count = match row.count.checked_sub(1) {
        Some(c) => c,
        None => {
            return Err(ContractError::Underflow);
        },
    };
    let updated = Cw20Deposits {
        count: new_count,
        owner: row.owner.clone(),
        contract: row.contract.clone(),
        amount: new_amount,
        maturity: row.maturity,
    };
    proof {
        assert(cw20_key(updated) == k);
        lemma_cw20_update(ledger.cw20_deposits@, pos as int, updated);
        lemma_cw20_sorted_update(ledger.cw20_deposits@, pos as int, updated);
    }
    ledger.cw20_deposits[pos] = updated;
    let mut messages: Vec<Instruction> = Vec::new();
    messages.push(
        Instruction::IssuerTransfer {
            contract: contract.to_owned(),
            recipient: sender.to_owned(),
            amount,
        },
    );
    let mut attributes: Vec<Attribute> = Vec::new();
    attributes.push(attr("execute", "withdraw"));
    Ok(Response { attributes, messages })
}

/// The request a token contract may embed in a deposit notification.
pub enum Cw20HookMsg {
    Deposit,
}

/// Everything `receive_cw20` promises: a recognized embedded deposit
/// request behaves exactly like `execute_cw20_deposit`; anything else is
/// refused as invalid input with the ledger untouched.
pub open spec fn receive_outcome(
    pre: Ledger,
    post: Ledger,
    height: int,
    contract: Seq<char>,
    sender: Seq<char>,
    amount: int,
    hook: Option<Cw20HookMsg>,
    r: Result<Response, ContractError>,
) -> bool {
    match hook {
        Some(h) => cw20_deposit_outcome(pre, post, height, contract, sender, amount, r),
        None => {
            &&& post == pre
            &&& (r matches Err(e) && e is InvalidInput)
        },
    }
}

/// Handles a deposit notification from a token contract. The caller is the
/// issuing contract itself; `sender` is the account whose tokens arrived;
/// `hook` is the embedded request, already decoded by the transport, with
/// `None` standing for anything unrecognized.
pub fn receive_cw20(
    ledger: &mut Ledger,
    height: u64,
    cw20_contract: &str,
    sender: &str,
    amount: u128,
    hook: Option<Cw20HookMsg>,
) -> (r: Result<Response, ContractError>)
    requires
        old(ledger).wf(),
    ensures
        receive_outcome(
            *old(ledger),
            *final(ledger),
            height as int,
            cw20_contract@,
            sender@,
            amount as int,
            hook,
            r,
        ),
{
    match hook {
        Some(Cw20HookMsg::Deposit) => execute_cw20_deposit(
            ledger,
            height,
            cw20_contract,
            sender,
            amount,
        ),
        None => Err(ContractError::InvalidInput),
    }
}

/// Copies a native row field by field.
fn clone_native_row(d: &Deposits) -> (r: Deposits)
    ensures
        r.owner@ == d.owner@,
        r.coins.denom@ == d.coins.denom@,
        r.count == d.count,
        r.coins.amount == d.coins.amount,
        native_entry(r) == native_entry(*d),
{
    Deposits {
        count: d.count,
        owner: d.owner.clone(),
        coins: Coin { denom: d.coins.denom.clone(), amount: d.coins.amount },
    }
}

/// Copies an external-token row field by field.
fn clone_cw20_row(d: &Cw20Deposits) -> (r: Cw20Deposits)
    ensures
        r.owner@ == d.owner@,
        r.contract@ == d.contract@,
        r.count == d.count,
        r.amount == d.amount,
        r.maturity == d.maturity,
        cw20_entry(r) == cw20_entry(*d),
{
    Cw20Deposits {
        count: d.count,
        owner: d.owner.clone(),
        contract: d.contract.clone(),
        amount: d.amount,
        maturity: d.maturity,
    }
}

/// Some row among the first `bound` has the given owner and denomination.
pub open spec fn native_feeds(
    rows: Seq<Deposits>,
    bound: int,
    address: Seq<char>,
    denom: Seq<char>,
) -> bool {
    exists|t: int|
        0 <= t < bound && (#[trigger] rows[t]).owner@ == address && rows[t].coins.denom@ == denom
}

/// Some listed pair carries the given secondary key.
pub open spec fn native_listed(out: Seq<(String, Deposits)>, denom: Seq<char>) -> bool {
    exists|oi: int| 0 <= oi < out.len() && (#[trigger] out[oi]).0@ == denom
}

/// What `query_deposits` returns: exactly the account's native rows, each
/// under its denomination, ascending by denomination.
pub open spec fn native_query_ok(
    l: Ledger,
    address: Seq<char>,
    out: Seq<(String, Deposits)>,
) -> bool {
    &&& forall|oi: int|
        0 <= oi < out.len() ==> {
            let p = #[trigger] out[oi];
            &&& p.1.owner@ == address
            &&& p.0@ == p.1.coins.denom@
            &&& l.native_map().contains_key((address, p.1.coins.denom@))
            &&& native_entry(p.1) == l.native_map()[(address, p.1.coins.denom@)]
        }
    &&& forall|kk: Seq<char>|
        #[trigger] l.native_map().contains_key((address, kk)) ==> native_listed(out, kk)
    &&& forall|oi: int, oj: int|
        0 <= oi < oj < out.len() ==> lex_lt((#[trigger] out[oi]).0@, (#[trigger] out[oj]).0@)
}

/// Lists the caller-named account's native rows, ascending by denomination.
pub fn query_deposits(ledger: &Ledger, address: &str) -> (r: DepositResponse)
    requires
        ledger.wf(),
    ensures
        native_query_ok(*ledger, address@, r.deposits@),
{
    let n = ledger.deposits.len();
    let mut out: Vec<(String, Deposits)> = Vec::new();
    let mut i: usize = 0;
    while i < n
        invariant
            i <= n,
            n == ledger.deposits@.len(),
            ledger.wf(),
            forall|oi: int|
                0 <= oi < out@.len() ==> {
                    let p = #[trigger] out@[oi];
                    &&& p.1.owner@ == address@
                    &&& p.0@ == p.1.coins.denom@
                    &&& ledger.native_map().contains_key((address@, p.1.coins.denom@))
                    &&& native_entry(p.1) == ledger.native_map()[(address@, p.1.coins.denom@)]
                },
            forall|oi: int|
                0 <= oi < out@.len() ==> native_feeds(
                    ledger.deposits@,
                    i as int,
                    address@,
                    (#[trigger] out@[oi]).0@,
                ),
            forall|t: int|
                0 <= t < i ==> ((#[trigger] ledger.deposits@[t]).owner@ == address@
                    ==> native_listed(out@, ledger.deposits@[t].coins.denom@)),
            forall|oi: int, oj: int|
                0 <= oi < oj < out@.len() ==> lex_lt(
                    (#[trigger] out@[oi]).0@,
                    (#[trigger] out@[oj]).0@,
                ),
        decreases n - i,
    {
        let ghost out0 = out@;
        let row = &ledger.deposits[i];
        if str_eq(row.owner.as_str(), address) {
            proof {
                lemma_native_index(ledger.deposits@, i as int);
                assert(native_key(ledger.deposits@[i as int]) == (address@, row.coins.denom@));
                assert forall|oi: int| 0 <= oi < out@.len() implies lex_lt(
                    (#[trigger] out@[oi]).0@,
                    row.coins.denom@,
                ) by {
                    assert(native_feeds(ledger.deposits@, i as int, address@, out@[oi].0@));
                    let t = choose|t: int|
                        0 <= t < i && (#[trigger] ledger.deposits@[t]).owner@ == address@
                            && ledger.deposits@[t].coins.denom@ == out@[oi].0@;
                    assert(key_lt(
                        native_key(ledger.deposits@[t]),
                        native_key(ledger.deposits@[i as int]),
                    ));
                    lemma_lex_lt_irrefl(address@);
                }
            }
            let copied = clone_native_row(row);
            out.push((row.coins.denom.clone(), copied));
            proof {
                assert(out@ == out0.push(out@[out@.len() - 1]));
                assert(out@[out@.len() - 1].0@ == ledger.deposits@[i as int].coins.denom@);
            }
        }
        i = i + 1;
        proof {
            assert forall|oi: int| 0 <= oi < out@.len() implies native_feeds(
                ledger.deposits@,
                i as int,
                address@,
                (#[trigger] out@[oi]).0@,
            ) by {
                if oi < out0.len() {
                    assert(out@[oi] == out0[oi]);
                    assert(native_feeds(ledger.deposits@, i - 1, address@, out0[oi].0@));
                    let t = choose|t: int|
                        0 <= t < i - 1 && (#[trigger] ledger.deposits@[t]).owner@ == address@
                            && ledger.deposits@[t].coins.denom@ == out0[oi].0@;
                    assert(0 <= t < i && ledger.deposits@[t].owner@ == address@
                        && ledger.deposits@[t].coins.denom@ == out@[oi].0@);
                } else {
                    let t = i - 1;
                    assert(0 <= t < i && ledger.deposits@[t].owner@ == address@
                        && ledger.deposits@[t].coins.denom@ == out@[oi].0@);
                }
            }
            assert forall|t: int|
                0 <= t < i && (#[trigger] ledger.deposits@[t]).owner@
                    == address@ implies native_listed(out@, ledger.deposits@[t].coins.denom@) by {
                if t < i - 1 {
                    assert(native_listed(out0, ledger.deposits@[t].coins.denom@));
                    let oi = choose|oi: int|
                        0 <= oi < out0.len() && (#[trigger] out0[oi]).0@
                            == ledger.deposits@[t].coins.denom@;
                    assert(out@[oi] == out0[oi]);
                    assert(0 <= oi < out@.len() && out@[oi].0@ == ledger.deposits@[t].coins.denom@);
                } else {
                    let oi = out@.len() - 1;
                    assert(0 <= oi < out@.len() && out@[oi].0@ == ledger.deposits@[t].coins.denom@);
                }
            }
        }
    }
    proof {
        assert forall|kk: Seq<char>|
            #[trigger] ledger.native_map().contains_key(
                (address@, kk),
            ) implies native_listed(out@, kk) by {
            lemma_native_contains(ledger.deposits@, (address@, kk));
            let t = choose|t: int|
                0 <= t < ledger.deposits@.len() && native_key(#[trigger] ledger.deposits@[t]) == (
                address@,
                kk,
            );
            assert(ledger.deposits@[t].owner@ == address@);
            assert(native_listed(out@, ledger.deposits@[t].coins.denom@));
        }
    }
    DepositResponse { deposits: out }
}

/// Some row among the first `bound` has the given owner and contract.
pub open spec fn cw20_feeds(
    rows: Seq<Cw20Deposits>,
    bound: int,
    address: Seq<char>,
    contract: Seq<char>,
) -> bool {
    exists|t: int|
        0 <= t < bound && (#[trigger] rows[t]).owner@ == address && rows[t].contract@ == contract
}

/// Some listed pair carries the given secondary key.
pub open spec fn cw20_listed(out: Seq<(String, Cw20Deposits)>, contract: Seq<char>) -> bool {
    exists|oi: int| 0 <= oi < out.len() && (#[trigger] out[oi]).0@ == contract
}

/// What `query_cw20_deposits` returns: exactly the account's external-token
/// rows, each under its issuing contract, ascending by contract.
pub open spec fn cw20_query_ok(
    l: Ledger,
    address: Seq<char>,
    out: Seq<(String, Cw20Deposits)>,
) -> bool {
    &&& forall|oi: int|
        0 <= oi < out.len() ==> {
            let p = #[trigger] out[oi];
            &&& p.1.owner@ == address
            &&& p.0@ == p.1.contract@
            &&& l.cw20_map().contains_key((address, p.1.contract@))
            &&& cw20_entry(p.1) == l.cw20_map()[(address, p.1.contract@)]
        }
    &&& forall|kk: Seq<char>|
        #[trigger] l.cw20_map().contains_key((address, kk)) ==> cw20_listed(out, kk)
    &&& forall|oi: int, oj: int|
        0 <= oi < oj < out.len() ==> lex_lt((#[trigger] out[oi]).0@, (#[trigger] out[oj]).0@)
}

/// Lists the caller-named account's external-token rows, ascending by
/// issuing contract.
pub fn query_cw20_deposits(ledger: &Ledger, address: &str) -> (r: Cw20DepositResponse)
    requires
        ledger.wf(),
    ensures
        cw20_query_ok(*ledger, address@, r.deposits@),
{
    let n = ledger.cw20_deposits.len();
    let mut out: Vec<(String, Cw20Deposits)> = Vec::new();
    let mut i: usize = 0;
    while i < n
        invariant
            i <= n,
            n == ledger.cw20_deposits@.len(),
            ledger.wf(),
            forall|oi: int|
                0 <= oi < out@.len() ==> {
                    let p = #[trigger] out@[oi];
                    &&& p.1.owner@ == address@
                    &&& p.0@ == p.1.contract@
                    &&& ledger.cw20_map().contains_key((address@, p.1.contract@))
                    &&& cw20_entry(p.1) == ledger.cw20_map()[(address@, p.1.contract@)]
                },
            forall|oi: int|
                0 <= oi < out@.len() ==> cw20_feeds(
                    ledger.cw20_deposits@,
                    i as int,
                    address@,
                    (#[trigger] out@[oi]).0@,
                ),
            forall|t: int|
                0 <= t < i ==> ((#[trigger] ledger.cw20_deposits@[t]).owner@ == address@
                    ==> cw20_listed(out@, ledger.cw20_deposits@[t].contract@)),
            forall|oi: int, oj: int|
                0 <= oi < oj < out@.len() ==> lex_lt(
                    (#[trigger] out@[oi]).0@,
                    (#[trigger] out@[oj]).0@,
                ),
        decreases n - i,
    {
        let ghost out0 = out@;
        let row = &ledger.cw20_deposits[i];
        if str_eq(row.owner.as_str(), address) {
            proof {
                lemma_cw20_index(ledger.cw20_deposits@, i as int);
                assert(cw20_key(ledger.cw20_deposits@[i as int]) == (address@, row.contract@));
                assert forall|oi: int| 0 <= oi < out@.len() implies lex_lt(
                    (#[trigger] out@[oi]).0@,
                    row.contract@,
                ) by {
                    assert(cw20_feeds(ledger.cw20_deposits@, i as int, address@, out@[oi].0@));
                    let t = choose|t: int|
                        0 <= t < i && (#[trigger] ledger.cw20_deposits@[t]).owner@ == address@
                            && ledger.cw20_deposits@[t].contract@ == out@[oi].0@;
                    assert(key_lt(
                        cw20_key(ledger.cw20_deposits@[t]),
                        cw20_key(ledger.cw20_deposits@[i as int]),
                    ));
                    lemma_lex_lt_irrefl(address@);
                }
            }
            let copied = clone_cw20_row(row);
            out.push((row.contract.clone(), copied));
            proof {
                assert(out@ == out0.push(out@[out@.len() - 1]));
                assert(out@[out@.len() - 1].0@ == ledger.cw20_deposits@[i as int].contract@);
            }
        }
        i = i + 1;
        proof {
            assert forall|oi: int| 0 <= oi < out@.len() implies cw20_feeds(
                ledger.cw20_deposits@,
                i as int,
                address@,
                (#[trigger] out@[oi]).0@,
            ) by {
                if oi < out0.len() {
                    assert(out@[oi] == out0[oi]);
                    assert(cw20_feeds(ledger.cw20_deposits@, i - 1, address@, out0[oi].0@));
                    let t = choose|t: int|
                        0 <= t < i - 1 && (#[trigger] ledger.cw20_deposits@[t]).owner@ == address@
                            && ledger.cw20_deposits@[t].contract@ == out0[oi].0@;
                    assert(0 <= t < i && ledger.cw20_deposits@[t].owner@ == address@
                        && ledger.cw20_deposits@[t].contract@ == out@[oi].0@);
                } else {
                    let t = i - 1;
                    assert(0 <= t < i && ledger.cw20_deposits@[t].owner@ == address@
                        && ledger.cw20_deposits@[t].contract@ == out@[oi].0@);
                }
            }
            assert forall|t: int|
                0 <= t < i && (#[trigger] ledger.cw20_deposits@[t]).owner@
                    == address@ implies cw20_listed(out@, ledger.cw20_deposits@[t].contract@) by {
                if t < i - 1 {
                    assert(cw20_listed(out0, ledger.cw20_deposits@[t].contract@));
                    let oi = choose|oi: int|
                        0 <= oi < out0.len() && (#[trigger] out0[oi]).0@
                            == ledger.cw20_deposits@[t].contract@;
                    assert(out@[oi] == out0[oi]);
                    assert(0 <= oi < out@.len() && out@[oi].0@
                        == ledger.cw20_deposits@[t].contract@);
                } else {
                    let oi = out@.len() - 1;
                    assert(0 <= oi < out@.len() && out@[oi].0@
                        == ledger.cw20_deposits@[t].contract@);
                }
            }
        }
    }
    proof {
        assert forall|kk: Seq<char>|
            #[trigger] ledger.cw20_map().contains_key((address@, kk)) implies cw20_listed(
            out@,
            kk,
        ) by {
            lemma_cw20_contains(ledger.cw20_deposits@, (address@, kk));
            let t = choose|t: int|
                0 <= t < ledger.cw20_deposits@.len() && cw20_key(
                    #[trigger] ledger.cw20_deposits@[t],
                ) == (address@, kk);
            assert(ledger.cw20_deposits@[t].owner@ == address@);
            assert(cw20_listed(out@, ledger.cw20_deposits@[t].contract@));
        }
    }
    Cw20DepositResponse { deposits: out }
}

/// Dispatches one typed state-changing operation to its handler. `sender`
/// is the authenticated caller; `height` the current block height; `funds`
/// the asset units attached to the call.
pub fn execute(
    ledger: &mut Ledger,
    height: u64,
    sender: &str,
    funds: &Vec<Coin>,
    msg: ExecuteMsg,
) -> (r: Result<Response, ContractError>)
    requires
        old(ledger).wf(),
    ensures
        (match msg {
            ExecuteMsg::Deposit => deposit_outcome(
                *old(ledger),
                *final(ledger),
                sender@,
                funds@,
                r,
            ),
            ExecuteMsg::Withdraw { amount, denom } => withdraw_outcome(
                *old(ledger),
                *final(ledger),
                sender@,
                amount as int,
                denom@,
                r,
            ),
            ExecuteMsg::Receive { sender: depositor, amount, msg: hook } => receive_outcome(
                *old(ledger),
                *final(ledger),
                height as int,
                sender@,
                depositor@,
                amount as int,
                hook,
                r,
            ),
            ExecuteMsg::WithdrawCw20 { address, amount } => cw20_withdraw_outcome(
                *old(ledger),
                *final(ledger),
                height as int,
                sender@,
                address@,
                amount as int,
                r,
            ),
        }),
{
    match msg {
        ExecuteMsg::Deposit => execute_deposit(ledger, sender, funds),
        ExecuteMsg::Withdraw { amount, denom } => execute_withdraw(
            ledger,
            sender,
            amount,
            denom.as_str(),
        ),
        ExecuteMsg::Receive { sender: depositor, amount, msg: hook } => receive_cw20(
            ledger,
            height,
            sender,
            depositor.as_str(),
            amount,
            hook,
        ),
        ExecuteMsg::WithdrawCw20 { address, amount } => execute_cw20_withdraw(
            ledger,
            height,
            sender,
            address.as_str(),
            amount,
        ),
    }
}

/// Dispatches one typed read-only operation to its query.
pub fn query(ledger: &Ledger, msg: QueryMsg) -> (r: QueryResponse)
    requires
        ledger.wf(),
    ensures
        (match msg {
            QueryMsg::Deposits { address } => (r matches QueryResponse::Deposits(resp)
                && native_query_ok(*ledger, address@, resp.deposits@)),
            QueryMsg::Cw20Deposits { address } => (r matches QueryResponse::Cw20Deposits(resp)
                && cw20_query_ok(*ledger, address@, resp.deposits@)),
        }),
{
    match msg {
        QueryMsg::Deposits { address } => QueryResponse::Deposits(
            query_deposits(ledger, address.as_str()),
        ),
        QueryMsg::Cw20Deposits { address } => QueryResponse::Cw20Deposits(
            query_cw20_deposits(ledger, address.as_str()),
        ),
    }
}

} // verus!
