//! What a handler gives back to the transport: observability attributes
//! and at most one outgoing transfer instruction, plus the decimal
//! rendering of amounts that the attributes carry.

use vstd::prelude::*;

verus! {

/// One observability record: a key and a textual value.
pub struct Attribute {
    pub key: String,
    pub value: String,
}

/// An outgoing transfer the caller's transport must execute. The ledger
/// core never moves assets itself: it either asks the chain to pay out
/// native tokens, or asks the issuing contract to transfer its tokens out.
pub enum Instruction {
    NativeSend { to_address: String, denom: String, amount: u128 },
    IssuerTransfer { contract: String, recipient: String, amount: u128 },
}

/// The successful result of a handler.
pub struct Response {
    pub attributes: Vec<Attribute>,
    pub messages: Vec<Instruction>,
}

/// The attribute's key and value read as the given character sequences.
pub open spec fn attr_is(a: Attribute, k: Seq<char>, v: Seq<char>) -> bool {
    a.key@ == k && a.value@ == v
}

/// Builds one attribute from borrowed text.
pub fn attr(key: &str, value: &str) -> (a: Attribute)
    ensures
        attr_is(a, key@, value@),
{
    Attribute { key: key.to_owned(), value: value.to_owned() }
}

/// Builds one attribute, taking ownership of the value.
pub fn attr_owned(key: &str, value: String) -> (a: Attribute)
    ensures
        attr_is(a, key@, value@),
{
    Attribute { key: key.to_owned(), value }
}

/// The character for one decimal digit.
pub open spec fn digit_char(d: int) -> char
    recommends
        0 <= d < 10,
{
    ((48 + d) as u8) as char
}

/// The decimal rendering of a non-negative integer, most significant
/// digit first, with no leading zeros (zero itself renders as one digit).
pub open spec fn dec_digits(n: int) -> Seq<char>
    recommends
        n >= 0,
    decreases n,
{
    if n < 10 {
        seq![digit_char(n)]
    } else {
        dec_digits(n / 10).push(digit_char(n % 10))
    }
}

/// The bytes of `s`, reversed and read as characters.
spec fn rev_chars(s: Seq<u8>) -> Seq<char>
    decreases s.len(),
{
    if s.len() == 0 {
        Seq::empty()
    } else {
        seq![s.last() as char] + rev_chars(s.drop_last())
    }
}

proof fn lemma_rev_chars_index(s: Seq<u8>)
    ensures
        rev_chars(s).len() == s.len(),
        forall|i: int| 0 <= i < s.len() ==> rev_chars(s)[i] == (s[s.len() - 1 - i] as char),
    decreases s.len(),
{
    if s.len() > 0 {
        lemma_rev_chars_index(s.drop_last());
        assert forall|i: int| 0 <= i < s.len() implies rev_chars(s)[i] == (s[s.len() - 1
            - i] as char) by {
            if i > 0 {
                assert(rev_chars(s)[i] == rev_chars(s.drop_last())[i - 1]);
                assert(s.drop_last()[s.len() - 1 - i] == s[s.len() - 1 - i]);
            }
        }
    }
}

/// Relies on String::from_utf8: ASCII bytes decode to the string whose
/// characters are those bytes, one character per byte.
#[verifier::external_body]
fn ascii_to_string(bytes: Vec<u8>) -> (r: String)
    requires
        forall|i: int| 0 <= i < bytes@.len() ==> bytes@[i] < 128,
    ensures
        r@ == bytes@.map_values(|b: u8| b as char),
{
    String::from_utf8(bytes).unwrap()
}

/// Renders an amount in decimal.
pub fn u128_to_decimal(n: u128) -> (r: String)
    ensures
        r@ == dec_digits(n as int),
{
    let mut digits: Vec<u8> = Vec::new();
    let mut m: u128 = n;
    proof {
        assert(dec_digits(n as int) =~= dec_digits(n as int) + rev_chars(Seq::<u8>::empty()));
    }
    loop
        invariant_except_break
            forall|i: int| 0 <= i < digits@.len() ==> 48 <= #[trigger] digits@[i] < 58,
            dec_digits(n as int) == dec_digits(m as int) + rev_chars(digits@),
        ensures
            forall|i: int| 0 <= i < digits@.len() ==> 48 <= #[trigger] digits@[i] < 58,
            dec_digits(n as int) == rev_chars(digits@),
        decreases m,
    {
        let ghost ds0 = digits@;
        let ghost m0 = m as int;
        let d: u8 = (m % 10) as u8;
        digits.push(d + 48);
        m = m / 10;
        proof {
            assert(digits@ == ds0.push((d + 48) as u8));
            assert(digits@.drop_last() =~= ds0);
            assert(digits@.last() == (d + 48) as u8);
            assert(rev_chars(digits@) == seq![((d + 48) as u8) as char] + rev_chars(ds0));
        }
        if m == 0 {
            proof {
                assert(m0 < 10);
                assert(dec_digits(m0) == seq![digit_char(m0)]);
                assert(digit_char(m0) == ((d + 48) as u8) as char);
                assert(dec_digits(n as int) =~= rev_chars(digits@)) by {
                    assert(seq![digit_char(m0)] + rev_chars(ds0) =~= rev_chars(digits@));
                }
            }
            break ;
        }
        proof {
            assert(m0 >= 10);
            assert(m as int == m0 / 10);
            assert(dec_digits(m0) == dec_digits(m0 / 10).push(digit_char(m0 % 10)));
            assert(digit_char(m0 % 10) == ((d + 48) as u8) as char);
            assert(dec_digits(n as int) == dec_digits(m as int) + rev_chars(digits@)) by {
                assert(dec_digits(m0 / 10).push(digit_char(m0 % 10)) =~= dec_digits(m0 / 10)
                    + seq![digit_char(m0 % 10)]);
                assert((dec_digits(m0 / 10) + seq![digit_char(m0 % 10)]) + rev_chars(ds0)
                    =~= dec_digits(m0 / 10) + (seq![digit_char(m0 % 10)] + rev_chars(ds0)));
            }
        }
    }
    let k = digits.len();
    let mut out: Vec<u8> = Vec::new();
    let mut j: usize = 0;
    while j < k
        invariant
            j <= k,
            k == digits@.len(),
            forall|i: int| 0 <= i < digits@.len() ==> 48 <= #[trigger] digits@[i] < 58,
            out@.len() == j,
            forall|t: int| 0 <= t < j ==> #[trigger] out@[t] == digits@[k - 1 - t],
        decreases k - j,
    {
        out.push(digits[k - 1 - j]);
        j = j + 1;
    }
    proof {
        lemma_rev_chars_index(digits@);
        assert(out@.map_values(|b: u8| b as char) =~= rev_chars(digits@)) by {
            assert forall|t: int| 0 <= t < k implies (#[trigger] rev_chars(digits@)[t])
                == out@.map_values(|b: u8| b as char)[t] by {
                assert(out@[t] == digits@[k - 1 - t]);
            }
        }
        assert(forall|i: int| 0 <= i < out@.len() ==> #[trigger] out@[i] < 128);
    }
    ascii_to_string(out)
}

} // verus!
