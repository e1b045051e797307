//! Lexicographic order on character sequences.
//!
//! Ledger rows are kept sorted by composite string keys, so prefix scans
//! return an account's rows in ascending order of the secondary key. This
//! module defines the order on `Seq<char>`, proves that it is a strict
//! total order, and provides an executable three-way comparator on `&str`.

use vstd::prelude::*;

verus! {

/// Lexicographic order on character sequences, comparing characters by
/// unicode scalar value; a proper prefix sorts before its extensions.
pub open spec fn lex_lt(a: Seq<char>, b: Seq<char>) -> bool
    decreases a.len(),
{
    if b.len() == 0 {
        false
    } else if a.len() == 0 {
        true
    } else if a[0] != b[0] {
        (a[0] as u32) < (b[0] as u32)
    } else {
        lex_lt(a.skip(1), b.skip(1))
    }
}

pub proof fn lemma_lex_lt_irrefl(a: Seq<char>)
    ensures
        !lex_lt(a, a),
    decreases a.len(),
{
    if a.len() > 0 {
        lemma_lex_lt_irrefl(a.skip(1));
    }
}

pub proof fn lemma_lex_lt_trans(a: Seq<char>, b: Seq<char>, c: Seq<char>)
    requires
        lex_lt(a, b),
        lex_lt(b, c),
    ensures
        lex_lt(a, c),
    decreases a.len(),
{
    if a.len() == 0 || b.len() == 0 || c.len() == 0 {
        // lex_lt(b, c) forces c to be non-empty, so lex_lt(a, c) holds
        // whenever a is empty; b cannot be empty given lex_lt(a, b).
    } else if a[0] == b[0] && b[0] == c[0] {
        lemma_lex_lt_trans(a.skip(1), b.skip(1), c.skip(1));
    }
}

/// Dropping a common prefix does not change how two sequences compare.
pub proof fn lemma_lex_lt_skip(a: Seq<char>, b: Seq<char>, i: int)
    requires
        0 <= i <= a.len(),
        i <= b.len(),
        a.subrange(0, i) == b.subrange(0, i),
    ensures
        lex_lt(a, b) == lex_lt(a.skip(i), b.skip(i)),
    decreases i,
{
    if i == 0 {
        assert(a.skip(0) =~= a);
        assert(b.skip(0) =~= b);
    } else {
        assert(a[0] == a.subrange(0, i)[0]);
        assert(b[0] == b.subrange(0, i)[0]);
        assert(a.skip(1).subrange(0, i - 1) =~= b.skip(1).subrange(0, i - 1)) by {
            assert forall|j: int| 0 <= j < i - 1 implies (#[trigger] a.skip(1).subrange(
                0,
                i - 1,
            )[j]) == b.skip(1).subrange(0, i - 1)[j] by {
                assert(a.skip(1).subrange(0, i - 1)[j] == a.subrange(0, i)[j + 1]);
                assert(b.skip(1).subrange(0, i - 1)[j] == b.subrange(0, i)[j + 1]);
            }
        }
        lemma_lex_lt_skip(a.skip(1), b.skip(1), i - 1);
        assert(a.skip(1).skip(i - 1) =~= a.skip(i));
        assert(b.skip(1).skip(i - 1) =~= b.skip(i));
    }
}

/// Whether two strings read as the same characters.
pub fn str_eq(a: &str, b: &str) -> (r: bool)
    ensures
        r <==> a@ == b@,
{
    match str_cmp(a, b) {
        Cmp::Eq => true,
        Cmp::Lt => {
            proof {
                lemma_lex_lt_irrefl(a@);
            }
            false
        },
        Cmp::Gt => {
            proof {
                lemma_lex_lt_irrefl(a@);
            }
            false
        },
    }
}

/// Result of a three-way comparison.
pub enum Cmp {
    Lt,
    Eq,
    Gt,
}

/// Three-way lexicographic comparison of two strings, character by character.
pub fn str_cmp(a: &str, b: &str) -> (r: Cmp)
    ensures
        match r {
            Cmp::Lt => lex_lt(a@, b@),
            Cmp::Eq => a@ == b@,
            Cmp::Gt => lex_lt(b@, a@),
        },
{
    let alen = a.unicode_len();
    let blen = b.unicode_len();
    let mut i: usize = 0;
    loop
        invariant
            i <= alen,
            i <= blen,
            alen == a@.len(),
            blen == b@.len(),
            a@.subrange(0, i as int) == b@.subrange(0, i as int),
        decreases alen - i,
    {
        proof {
            lemma_lex_lt_skip(a@, b@, i as int);
            lemma_lex_lt_skip(b@, a@, i as int);
        }
        if i == alen {
            if i == blen {
                proof {
                    assert(a@ =~= b@) by {
                        assert(a@.subrange(0, i as int) =~= a@);
                        assert(b@.subrange(0, i as int) =~= b@);
                    }
                }
                return Cmp::Eq;
            }
            proof {
                assert(a@.skip(i as int).len() == 0);
                assert(b@.skip(i as int).len() > 0);
            }
            return Cmp::Lt;
        }
        if i == blen {
            proof {
                assert(b@.skip(i as int).len() == 0);
                assert(a@.skip(i as int).len() > 0);
            }
            return Cmp::Gt;
        }
        let ca = a.get_char(i);
        let cb = b.get_char(i);
        if ca != cb {
            proof {
                assert(a@.skip(i as int)[0] == ca);
                assert(b@.skip(i as int)[0] == cb);
            }
            if (ca as u32) < (cb as u32) {
                return Cmp::Lt;
            } else {
                return Cmp::Gt;
            }
        }
        proof {
            assert(a@.subrange(0, i as int + 1) =~= b@.subrange(0, i as int + 1)) by {
                assert forall|j: int| 0 <= j < i + 1 implies (#[trigger] a@.subrange(
                    0,
                    i as int + 1,
                )[j]) == b@.subrange(0, i as int + 1)[j] by {
                    if j < i {
                        assert(a@.subrange(0, i as int)[j] == b@.subrange(0, i as int)[j]);
                    }
                }
            }
        }
        i = i + 1;
    }
}

} // verus!
