//! Ledger rows and their mathematical model.
//!
//! Each ledger is a vector of rows kept strictly sorted by a composite
//! string key; its abstract model is the finite map from keys to entries.
//! This module defines the row types, the key order, and the lemmas that
//! connect sorted row sequences to their map abstraction.

use crate::order::{lemma_lex_lt_irrefl, lemma_lex_lt_trans, lex_lt};
use vstd::prelude::*;

verus! {

/// A quantity of one native asset kind.
pub struct Coin {
    pub denom: String,
    pub amount: u128,
}

/// One native-ledger row, keyed by (account, denomination): the net number
/// of operations applied and the balance held in escrow.
pub struct Deposits {
    pub count: i32,
    pub owner: String,
    pub coins: Coin,
}

/// One external-token-ledger row, keyed by (account, issuing contract).
/// `maturity` is the earliest block height at which withdrawal is allowed;
/// every deposit into the row re-arms it.
pub struct Cw20Deposits {
    pub count: i32,
    pub owner: String,
    pub contract: String,
    pub amount: u128,
    pub maturity: u64,
}

/// Composite row key: account identifier, then the secondary identifier
/// (denomination or issuing contract).
pub type LedgerKey = (Seq<char>, Seq<char>);

/// Abstract content of a native-ledger row.
pub ghost struct NativeEntry {
    pub count: int,
    pub amount: int,
}

/// Abstract content of an external-token-ledger row.
pub ghost struct Cw20Entry {
    pub count: int,
    pub amount: int,
    pub maturity: int,
}

pub open spec fn native_key(d: Deposits) -> LedgerKey {
    (d.owner@, d.coins.denom@)
}

pub open spec fn native_entry(d: Deposits) -> NativeEntry {
    NativeEntry { count: d.count as int, amount: d.coins.amount as int }
}

pub open spec fn cw20_key(d: Cw20Deposits) -> LedgerKey {
    (d.owner@, d.contract@)
}

pub open spec fn cw20_entry(d: Cw20Deposits) -> Cw20Entry {
    Cw20Entry { count: d.count as int, amount: d.amount as int, maturity: d.maturity as int }
}

/// The spec-level key extractor of native rows, as a single closure value.
pub open spec fn native_key_f() -> spec_fn(Deposits) -> LedgerKey {
    |d: Deposits| native_key(d)
}

pub open spec fn native_entry_f() -> spec_fn(Deposits) -> NativeEntry {
    |d: Deposits| native_entry(d)
}

pub open spec fn cw20_key_f() -> spec_fn(Cw20Deposits) -> LedgerKey {
    |d: Cw20Deposits| cw20_key(d)
}

pub open spec fn cw20_entry_f() -> spec_fn(Cw20Deposits) -> Cw20Entry {
    |d: Cw20Deposits| cw20_entry(d)
}

/// Order on composite keys: by account, then by the secondary identifier.
pub open spec fn key_lt(a: LedgerKey, b: LedgerKey) -> bool {
    lex_lt(a.0, b.0) || (a.0 == b.0 && lex_lt(a.1, b.1))
}

pub proof fn lemma_key_lt_irrefl(a: LedgerKey)
    ensures
        !key_lt(a, a),
{
    lemma_lex_lt_irrefl(a.0);
    lemma_lex_lt_irrefl(a.1);
}

pub proof fn lemma_key_lt_trans(a: LedgerKey, b: LedgerKey, c: LedgerKey)
    requires
        key_lt(a, b),
        key_lt(b, c),
    ensures
        key_lt(a, c),
{
    lemma_lex_lt_irrefl(a.0);
    lemma_lex_lt_irrefl(b.0);
    lemma_lex_lt_irrefl(c.0);
    if lex_lt(a.0, b.0) && lex_lt(b.0, c.0) {
        lemma_lex_lt_trans(a.0, b.0, c.0);
    } else if a.0 == b.0 && b.0 == c.0 {
        lemma_lex_lt_trans(a.1, b.1, c.1);
    }
}

/// The native rows' keys are strictly ascending (hence unique).
pub open spec fn native_sorted(s: Seq<Deposits>) -> bool {
    forall|i: int, j: int|
        0 <= i < j < s.len() ==> key_lt(#[trigger] native_key(s[i]), #[trigger] native_key(s[j]))
}

/// The external-token rows' keys are strictly ascending (hence unique).
pub open spec fn cw20_sorted(s: Seq<Cw20Deposits>) -> bool {
    forall|i: int, j: int|
        0 <= i < j < s.len() ==> key_lt(#[trigger] cw20_key(s[i]), #[trigger] cw20_key(s[j]))
}

/// The map abstraction of a native row sequence.
pub open spec fn native_map_of(s: Seq<Deposits>) -> Map<LedgerKey, NativeEntry> {
    seq_to_map(s, native_key_f(), native_entry_f())
}

/// The map abstraction of an external-token row sequence.
pub open spec fn cw20_map_of(s: Seq<Cw20Deposits>) -> Map<LedgerKey, Cw20Entry> {
    seq_to_map(s, cw20_key_f(), cw20_entry_f())
}

/// No two rows share a key.
pub open spec fn distinct_keys<T>(s: Seq<T>, kf: spec_fn(T) -> LedgerKey) -> bool {
    forall|i: int, j: int| 0 <= i < j < s.len() ==> (#[trigger] kf(s[i])) != (#[trigger] kf(s[j]))
}

/// The finite map abstraction of a row sequence.
pub open spec fn seq_to_map<T, V>(
    s: Seq<T>,
    kf: spec_fn(T) -> LedgerKey,
    vf: spec_fn(T) -> V,
) -> Map<LedgerKey, V>
    decreases s.len(),
{
    if s.len() == 0 {
        Map::empty()
    } else {
        seq_to_map(s.drop_last(), kf, vf).insert(kf(s.last()), vf(s.last()))
    }
}

pub proof fn lemma_distinct_drop_last<T>(s: Seq<T>, kf: spec_fn(T) -> LedgerKey)
    requires
        distinct_keys(s, kf),
        s.len() > 0,
    ensures
        distinct_keys(s.drop_last(), kf),
{
    assert forall|i: int, j: int| 0 <= i < j < s.drop_last().len() implies (#[trigger] kf(
        s.drop_last()[i],
    )) != (#[trigger] kf(s.drop_last()[j])) by {
        assert(s.drop_last()[i] == s[i]);
        assert(s.drop_last()[j] == s[j]);
    }
}

/// A key is in the map abstraction exactly when some row carries it.
pub proof fn lemma_seq_to_map_contains<T, V>(
    s: Seq<T>,
    kf: spec_fn(T) -> LedgerKey,
    vf: spec_fn(T) -> V,
    k: LedgerKey,
)
    ensures
        seq_to_map(s, kf, vf).contains_key(k) <==> exists|i: int|
            0 <= i < s.len() && kf(s[i]) == k,
    decreases s.len(),
{
    if s.len() > 0 {
        lemma_seq_to_map_contains(s.drop_last(), kf, vf, k);
        if seq_to_map(s, kf, vf).contains_key(k) {
            if kf(s.last()) == k {
                assert(kf(s[s.len() - 1]) == k);
            } else {
                let i = choose|i: int| 0 <= i < s.drop_last().len() && kf(s.drop_last()[i]) == k;
                assert(s.drop_last()[i] == s[i]);
            }
        }
        if exists|i: int| 0 <= i < s.len() && kf(s[i]) == k {
            let i = choose|i: int| 0 <= i < s.len() && kf(s[i]) == k;
            if i < s.len() - 1 {
                assert(s.drop_last()[i] == s[i]);
            }
        }
    }
}

/// With distinct keys, each row's key maps to that row's entry.
pub proof fn lemma_seq_to_map_index<T, V>(
    s: Seq<T>,
    kf: spec_fn(T) -> LedgerKey,
    vf: spec_fn(T) -> V,
    i: int,
)
    requires
        distinct_keys(s, kf),
        0 <= i < s.len(),
    ensures
        seq_to_map(s, kf, vf).contains_key(kf(s[i])),
        seq_to_map(s, kf, vf)[kf(s[i])] == vf(s[i]),
    decreases s.len(),
{
    if i == s.len() - 1 {
        assert(s.last() == s[i]);
    } else {
        lemma_distinct_drop_last(s, kf);
        lemma_seq_to_map_index(s.drop_last(), kf, vf, i);
        assert(s.drop_last()[i] == s[i]);
        assert(kf(s[i]) != kf(s[s.len() - 1]));
        assert(s.last() == s[s.len() - 1]);
    }
}

/// Replacing the row at `i` by one with the same key updates the map at
/// that key and nothing else.
pub proof fn lemma_seq_to_map_update<T, V>(
    s: Seq<T>,
    kf: spec_fn(T) -> LedgerKey,
    vf: spec_fn(T) -> V,
    i: int,
    x: T,
)
    requires
        distinct_keys(s, kf),
        0 <= i < s.len(),
        kf(x) == kf(s[i]),
    ensures
        seq_to_map(s.update(i, x), kf, vf) == seq_to_map(s, kf, vf).insert(kf(x), vf(x)),
    decreases s.len(),
{
    let s2 = s.update(i, x);
    assert(s2.len() == s.len());
    if i == s.len() - 1 {
        assert(s2.drop_last() =~= s.drop_last());
        assert(s2.last() == x);
        assert(seq_to_map(s2, kf, vf) =~= seq_to_map(s, kf, vf).insert(kf(x), vf(x)));
    } else {
        lemma_distinct_drop_last(s, kf);
        assert(s2.drop_last() =~= s.drop_last().update(i, x)) by {
            assert forall|j: int| 0 <= j < s.len() - 1 implies (#[trigger] s2.drop_last()[j])
                == s.drop_last().update(i, x)[j] by {}
        }
        assert(s.drop_last()[i] == s[i]);
        lemma_seq_to_map_update(s.drop_last(), kf, vf, i, x);
        assert(s2.last() == s[s.len() - 1]);
        assert(kf(s[i]) != kf(s[s.len() - 1]));
        assert(seq_to_map(s2, kf, vf) =~= seq_to_map(s, kf, vf).insert(kf(x), vf(x)));
    }
}

/// Inserting a row with a fresh key at any position adds exactly that key
/// to the map.
pub proof fn lemma_seq_to_map_insert<T, V>(
    s: Seq<T>,
    kf: spec_fn(T) -> LedgerKey,
    vf: spec_fn(T) -> V,
    i: int,
    x: T,
)
    requires
        0 <= i <= s.len(),
        forall|j: int| 0 <= j < s.len() ==> (#[trigger] kf(s[j])) != kf(x),
    ensures
        seq_to_map(s.insert(i, x), kf, vf) == seq_to_map(s, kf, vf).insert(kf(x), vf(x)),
    decreases s.len(),
{
    let s2 = s.insert(i, x);
    assert(s2.len() == s.len() + 1);
    if i == s.len() {
        assert(s2.drop_last() =~= s);
        assert(s2.last() == x);
        assert(seq_to_map(s2, kf, vf) =~= seq_to_map(s, kf, vf).insert(kf(x), vf(x)));
    } else {
        assert(s2.last() == s[s.len() - 1]);
        assert(s2.drop_last() =~= s.drop_last().insert(i, x)) by {
            assert forall|j: int| 0 <= j < s.len() implies (#[trigger] s2.drop_last()[j])
                == s.drop_last().insert(i, x)[j] by {}
        }
        assert(forall|j: int|
            0 <= j < s.drop_last().len() ==> (#[trigger] kf(s.drop_last()[j])) != kf(x)) by {
            assert(forall|j: int| 0 <= j < s.drop_last().len() ==> s.drop_last()[j] == s[j]);
        }
        lemma_seq_to_map_insert(s.drop_last(), kf, vf, i, x);
        assert(kf(s[s.len() - 1]) != kf(x));
        assert(seq_to_map(s2, kf, vf) =~= seq_to_map(s, kf, vf).insert(kf(x), vf(x)));
    }
}

pub proof fn lemma_native_distinct(s: Seq<Deposits>)
    requires
        native_sorted(s),
    ensures
        distinct_keys(s, native_key_f()),
{
    assert forall|i: int, j: int| 0 <= i < j < s.len() implies (#[trigger] native_key_f()(s[i]))
        != (#[trigger] native_key_f()(s[j])) by {
        lemma_key_lt_irrefl(native_key(s[i]));
    }
}

pub proof fn lemma_native_contains(s: Seq<Deposits>, k: LedgerKey)
    ensures
        native_map_of(s).contains_key(k) <==> exists|i: int|
            0 <= i < s.len() && native_key(#[trigger] s[i]) == k,
{
    lemma_seq_to_map_contains(s, native_key_f(), native_entry_f(), k);
    if exists|i: int| 0 <= i < s.len() && native_key_f()(#[trigger] s[i]) == k {
        let i = choose|i: int| 0 <= i < s.len() && native_key_f()(#[trigger] s[i]) == k;
        assert(native_key(s[i]) == k);
    }
    if exists|i: int| 0 <= i < s.len() && native_key(#[trigger] s[i]) == k {
        let i = choose|i: int| 0 <= i < s.len() && native_key(#[trigger] s[i]) == k;
        assert(native_key_f()(s[i]) == k);
    }
}

pub proof fn lemma_native_index(s: Seq<Deposits>, i: int)
    requires
        native_sorted(s),
        0 <= i < s.len(),
    ensures
        native_map_of(s).contains_key(native_key(s[i])),
        native_map_of(s)[native_key(s[i])] == native_entry(s[i]),
{
    lemma_native_distinct(s);
    lemma_seq_to_map_index(s, native_key_f(), native_entry_f(), i);
}

pub proof fn lemma_native_update(s: Seq<Deposits>, i: int, x: Deposits)
    requires
        native_sorted(s),
        0 <= i < s.len(),
        native_key(x) == native_key(s[i]),
    ensures
        native_map_of(s.update(i, x)) == native_map_of(s).insert(native_key(x), native_entry(x)),
{
    lemma_native_distinct(s);
    lemma_seq_to_map_update(s, native_key_f(), native_entry_f(), i, x);
}

pub proof fn lemma_native_insert(s: Seq<Deposits>, i: int, x: Deposits)
    requires
        0 <= i <= s.len(),
        forall|j: int| 0 <= j < s.len() ==> native_key(#[trigger] s[j]) != native_key(x),
    ensures
        native_map_of(s.insert(i, x)) == native_map_of(s).insert(native_key(x), native_entry(x)),
{
    assert(forall|j: int|
        0 <= j < s.len() ==> (#[trigger] native_key_f()(s[j])) != native_key_f()(x));
    lemma_seq_to_map_insert(s, native_key_f(), native_entry_f(), i, x);
}

/// Replacing a row by one with the same key keeps the rows sorted.
pub proof fn lemma_native_sorted_update(s: Seq<Deposits>, i: int, x: Deposits)
    requires
        native_sorted(s),
        0 <= i < s.len(),
        native_key(x) == native_key(s[i]),
    ensures
        native_sorted(s.update(i, x)),
{
    let s2 = s.update(i, x);
    assert forall|a: int, b: int| 0 <= a < b < s2.len() implies key_lt(
        native_key(#[trigger] s2[a]),
        native_key(#[trigger] s2[b]),
    ) by {
        assert(native_key(s2[a]) == native_key(s[a]));
        assert(native_key(s2[b]) == native_key(s[b]));
    }
}

/// Inserting a row between its strict lower and upper neighbours keeps the
/// rows sorted.
pub proof fn lemma_native_sorted_insert(s: Seq<Deposits>, i: int, x: Deposits)
    requires
        native_sorted(s),
        0 <= i <= s.len(),
        forall|t: int| 0 <= t < i ==> key_lt(native_key(#[trigger] s[t]), native_key(x)),
        forall|t: int| i <= t < s.len() ==> key_lt(native_key(x), native_key(#[trigger] s[t])),
    ensures
        native_sorted(s.insert(i, x)),
{
    let s2 = s.insert(i, x);
    assert forall|a: int, b: int| 0 <= a < b < s2.len() implies key_lt(
        native_key(#[trigger] s2[a]),
        native_key(#[trigger] s2[b]),
    ) by {
        if a < i && b < i {
            assert(s2[a] == s[a] && s2[b] == s[b]);
        } else if a < i && b == i {
            assert(s2[a] == s[a]);
        } else if a < i && b > i {
            assert(s2[a] == s[a] && s2[b] == s[b - 1]);
            lemma_key_lt_trans(native_key(s[a]), native_key(x), native_key(s[b - 1]));
        } else if a == i {
            assert(s2[b] == s[b - 1]);
        } else {
            assert(s2[a] == s[a - 1] && s2[b] == s[b - 1]);
        }
    }
}

/// Replacing a row by one with the same key keeps the rows sorted.
pub proof fn lemma_cw20_sorted_update(s: Seq<Cw20Deposits>, i: int, x: Cw20Deposits)
    requires
        cw20_sorted(s),
        0 <= i < s.len(),
        cw20_key(x) == cw20_key(s[i]),
    ensures
        cw20_sorted(s.update(i, x)),
{
    let s2 = s.update(i, x);
    assert forall|a: int, b: int| 0 <= a < b < s2.len() implies key_lt(
        cw20_key(#[trigger] s2[a]),
        cw20_key(#[trigger] s2[b]),
    ) by {
        assert(cw20_key(s2[a]) == cw20_key(s[a]));
        assert(cw20_key(s2[b]) == cw20_key(s[b]));
    }
}

/// Inserting a row between its strict lower and upper neighbours keeps the
/// rows sorted.
pub proof fn lemma_cw20_sorted_insert(s: Seq<Cw20Deposits>, i: int, x: Cw20Deposits)
    requires
        cw20_sorted(s),
        0 <= i <= s.len(),
        forall|t: int| 0 <= t < i ==> key_lt(cw20_key(#[trigger] s[t]), cw20_key(x)),
        forall|t: int| i <= t < s.len() ==> key_lt(cw20_key(x), cw20_key(#[trigger] s[t])),
    ensures
        cw20_sorted(s.insert(i, x)),
{
    let s2 = s.insert(i, x);
    assert forall|a: int, b: int| 0 <= a < b < s2.len() implies key_lt(
        cw20_key(#[trigger] s2[a]),
        cw20_key(#[trigger] s2[b]),
    ) by {
        if a < i && b < i {
            assert(s2[a] == s[a] && s2[b] == s[b]);
        } else if a < i && b == i {
            assert(s2[a] == s[a]);
        } else if a < i && b > i {
            assert(s2[a] == s[a] && s2[b] == s[b - 1]);
            lemma_key_lt_trans(cw20_key(s[a]), cw20_key(x), cw20_key(s[b - 1]));
        } else if a == i {
            assert(s2[b] == s[b - 1]);
        } else {
            assert(s2[a] == s[a - 1] && s2[b] == s[b - 1]);
        }
    }
}

proof fn lemma_native_chain(s: Seq<Deposits>, i: int, j: int)
    requires
        forall|t: int|
            0 <= t < s.len() - 1 ==> key_lt(
                native_key(#[trigger] s[t]),
                native_key(s[t + 1]),
            ),
        0 <= i < j < s.len(),
    ensures
        key_lt(native_key(s[i]), native_key(s[j])),
    decreases j - i,
{
    if j > i + 1 {
        lemma_native_chain(s, i, j - 1);
        assert(key_lt(native_key(s[j - 1]), native_key(s[j - 1 + 1])));
        lemma_key_lt_trans(native_key(s[i]), native_key(s[j - 1]), native_key(s[j]));
    }
}

/// Rows whose every adjacent pair is strictly ascending are sorted.
pub proof fn lemma_native_adjacent_sorted(s: Seq<Deposits>)
    requires
        forall|t: int|
            0 <= t < s.len() - 1 ==> key_lt(
                native_key(#[trigger] s[t]),
                native_key(s[t + 1]),
            ),
    ensures
        native_sorted(s),
{
    assert forall|i: int, j: int| 0 <= i < j < s.len() implies key_lt(
        native_key(#[trigger] s[i]),
        native_key(#[trigger] s[j]),
    ) by {
        lemma_native_chain(s, i, j);
    }
}

proof fn lemma_cw20_chain(s: Seq<Cw20Deposits>, i: int, j: int)
    requires
        forall|t: int|
            0 <= t < s.len() - 1 ==> key_lt(cw20_key(#[trigger] s[t]), cw20_key(s[t + 1])),
        0 <= i < j < s.len(),
    ensures
        key_lt(cw20_key(s[i]), cw20_key(s[j])),
    decreases j - i,
{
    if j > i + 1 {
        lemma_cw20_chain(s, i, j - 1);
        assert(key_lt(cw20_key(s[j - 1]), cw20_key(s[j - 1 + 1])));
        lemma_key_lt_trans(cw20_key(s[i]), cw20_key(s[j - 1]), cw20_key(s[j]));
    }
}

/// Rows whose every adjacent pair is strictly ascending are sorted.
pub proof fn lemma_cw20_adjacent_sorted(s: Seq<Cw20Deposits>)
    requires
        forall|t: int|
            0 <= t < s.len() - 1 ==> key_lt(cw20_key(#[trigger] s[t]), cw20_key(s[t + 1])),
    ensures
        cw20_sorted(s),
{
    assert forall|i: int, j: int| 0 <= i < j < s.len() implies key_lt(
        cw20_key(#[trigger] s[i]),
        cw20_key(#[trigger] s[j]),
    ) by {
        lemma_cw20_chain(s, i, j);
    }
}

pub proof fn lemma_cw20_distinct(s: Seq<Cw20Deposits>)
    requires
        cw20_sorted(s),
    ensures
        distinct_keys(s, cw20_key_f()),
{
    assert forall|i: int, j: int| 0 <= i < j < s.len() implies (#[trigger] cw20_key_f()(s[i])) != (
    #[trigger] cw20_key_f()(s[j])) by {
        lemma_key_lt_irrefl(cw20_key(s[i]));
    }
}

pub proof fn lemma_cw20_contains(s: Seq<Cw20Deposits>, k: LedgerKey)
    ensures
        cw20_map_of(s).contains_key(k) <==> exists|i: int|
            0 <= i < s.len() && cw20_key(#[trigger] s[i]) == k,
{
    lemma_seq_to_map_contains(s, cw20_key_f(), cw20_entry_f(), k);
    if exists|i: int| 0 <= i < s.len() && cw20_key_f()(#[trigger] s[i]) == k {
        let i = choose|i: int| 0 <= i < s.len() && cw20_key_f()(#[trigger] s[i]) == k;
        assert(cw20_key(s[i]) == k);
    }
    if exists|i: int| 0 <= i < s.len() && cw20_key(#[trigger] s[i]) == k {
        let i = choose|i: int| 0 <= i < s.len() && cw20_key(#[trigger] s[i]) == k;
        assert(cw20_key_f()(s[i]) == k);
    }
}

pub proof fn lemma_cw20_index(s: Seq<Cw20Deposits>, i: int)
    requires
        cw20_sorted(s),
        0 <= i < s.len(),
    ensures
        cw20_map_of(s).contains_key(cw20_key(s[i])),
        cw20_map_of(s)[cw20_key(s[i])] == cw20_entry(s[i]),
{
    lemma_cw20_distinct(s);
    lemma_seq_to_map_index(s, cw20_key_f(), cw20_entry_f(), i);
}

pub proof fn lemma_cw20_update(s: Seq<Cw20Deposits>, i: int, x: Cw20Deposits)
    requires
        cw20_sorted(s),
        0 <= i < s.len(),
        cw20_key(x) == cw20_key(s[i]),
    ensures
        cw20_map_of(s.update(i, x)) == cw20_map_of(s).insert(cw20_key(x), cw20_entry(x)),
{
    lemma_cw20_distinct(s);
    lemma_seq_to_map_update(s, cw20_key_f(), cw20_entry_f(), i, x);
}

pub proof fn lemma_cw20_insert(s: Seq<Cw20Deposits>, i: int, x: Cw20Deposits)
    requires
        0 <= i <= s.len(),
        forall|j: int| 0 <= j < s.len() ==> cw20_key(#[trigger] s[j]) != cw20_key(x),
    ensures
        cw20_map_of(s.insert(i, x)) == cw20_map_of(s).insert(cw20_key(x), cw20_entry(x)),
{
    assert(forall|j: int| 0 <= j < s.len() ==> (#[trigger] cw20_key_f()(s[j])) != cw20_key_f()(x));
    lemma_seq_to_map_insert(s, cw20_key_f(), cw20_entry_f(), i, x);
}

} // verus!
