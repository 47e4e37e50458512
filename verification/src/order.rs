//! Lexicographic order on version strings.
//!
//! Distinct-version lists are sorted for deterministic output. Strings are
//! compared byte by byte over their UTF-8 encodings, which on version
//! strings coincides with the usual lexicographic order.

use vstd::prelude::*;
use vstd::string::StringSliceAdditionalSpecFns;
use vstd::utf8::encode_utf8;
use vstd::utf8::encode_utf8_decode_utf8;

verus! {

/// Lexicographic strict order on byte sequences: a proper prefix comes
/// first; otherwise the first differing byte decides.
pub open spec fn lex_lt(a: Seq<u8>, b: Seq<u8>) -> bool
    decreases a.len(),
{
    if b.len() == 0 {
        false
    } else if a.len() == 0 {
        true
    } else if a[0] < b[0] {
        true
    } else if a[0] == b[0] {
        lex_lt(a.drop_first(), b.drop_first())
    } else {
        false
    }
}

/// Strict order on strings, by the bytes of their UTF-8 encodings.
pub open spec fn str_lt(a: Seq<char>, b: Seq<char>) -> bool {
    lex_lt(encode_utf8(a), encode_utf8(b))
}

pub open spec fn str_le(a: Seq<char>, b: Seq<char>) -> bool {
    str_lt(a, b) || a == b
}

/// Two character sequences are equal exactly when their UTF-8 encodings are.
pub proof fn lemma_str_eq_bytes(a: Seq<char>, b: Seq<char>)
    ensures
        (encode_utf8(a) == encode_utf8(b)) <==> (a == b),
{
    if encode_utf8(a) == encode_utf8(b) {
        encode_utf8_decode_utf8(a);
        encode_utf8_decode_utf8(b);
    }
}

/// `lex_lt` is a trichotomous relation: of `a < b`, `a == b`, `b < a`
/// exactly one holds.
pub proof fn lemma_lex_trichotomy(a: Seq<u8>, b: Seq<u8>)
    ensures
        lex_lt(a, b) || lex_lt(b, a) || a == b,
        lex_lt(a, b) ==> !lex_lt(b, a) && a != b,
    decreases a.len() + b.len(),
{
    if b.len() == 0 {
        if a.len() == 0 {
            assert(a =~= b);
        }
    } else if a.len() == 0 {
    } else if a[0] < b[0] {
    } else if a[0] == b[0] {
        lemma_lex_trichotomy(a.drop_first(), b.drop_first());
        if a.drop_first() == b.drop_first() {
            assert(a.len() == b.len());
            assert forall|i: int| 0 <= i < a.len() implies a[i] == b[i] by {
                if i >= 1 {
                    assert(a.drop_first()[i - 1] == a[i]);
                    assert(b.drop_first()[i - 1] == b[i]);
                }
            }
            assert(a =~= b);
        }
        if lex_lt(a, b) && a == b {
            assert(a.drop_first() == b.drop_first());
        }
    } else {
    }
}

/// `lex_lt` is transitive.
pub proof fn lemma_lex_lt_trans(a: Seq<u8>, b: Seq<u8>, c: Seq<u8>)
    requires
        lex_lt(a, b),
        lex_lt(b, c),
    ensures
        lex_lt(a, c),
    decreases a.len(),
{
    if a.len() == 0 {
    } else {
        if a[0] == b[0] && b[0] == c[0] {
            lemma_lex_lt_trans(a.drop_first(), b.drop_first(), c.drop_first());
        }
    }
}

/// Trichotomy lifted to strings: exactly one of `a < b`, `a == b`, `b < a`.
pub proof fn lemma_str_trichotomy(a: Seq<char>, b: Seq<char>)
    ensures
        str_lt(a, b) || str_lt(b, a) || a == b,
        str_lt(a, b) ==> !str_lt(b, a) && a != b,
{
    lemma_lex_trichotomy(encode_utf8(a), encode_utf8(b));
    lemma_str_eq_bytes(a, b);
}

/// `str_le` is transitive.
pub proof fn lemma_str_le_trans(a: Seq<char>, b: Seq<char>, c: Seq<char>)
    requires
        str_le(a, b),
        str_le(b, c),
    ensures
        str_le(a, c),
{
    if str_lt(a, b) && str_lt(b, c) {
        lemma_lex_lt_trans(encode_utf8(a), encode_utf8(b), encode_utf8(c));
    }
}

/// `str_lt` composes with `str_le` on the right.
pub proof fn lemma_str_lt_le_trans(a: Seq<char>, b: Seq<char>, c: Seq<char>)
    requires
        str_lt(a, b),
        str_le(b, c),
    ensures
        str_lt(a, c),
{
    if str_lt(b, c) {
        lemma_lex_lt_trans(encode_utf8(a), encode_utf8(b), encode_utf8(c));
    }
}

/// `str_le` composes with `str_lt` on the right.
pub proof fn lemma_str_le_lt_trans(a: Seq<char>, b: Seq<char>, c: Seq<char>)
    requires
        str_le(a, b),
        str_lt(b, c),
    ensures
        str_lt(a, c),
{
    if str_lt(a, b) {
        lemma_lex_lt_trans(encode_utf8(a), encode_utf8(b), encode_utf8(c));
    }
}

/// A byte sequence that agrees with a longer one on its whole length
/// precedes it.
proof fn lemma_lex_lt_prefix(a: Seq<u8>, b: Seq<u8>)
    requires
        a.len() < b.len(),
        forall|j: int| 0 <= j < a.len() ==> a[j] == b[j],
    ensures
        lex_lt(a, b),
    decreases a.len(),
{
    if a.len() > 0 {
        lemma_lex_lt_prefix(a.drop_first(), b.drop_first());
    }
}

/// A byte sequence precedes another if they agree before position `i` and
/// differ in its favour there.
proof fn lemma_lex_lt_from_diff(a: Seq<u8>, b: Seq<u8>, i: int)
    requires
        0 <= i < a.len(),
        i < b.len(),
        forall|j: int| 0 <= j < i ==> a[j] == b[j],
        a[i] < b[i],
    ensures
        lex_lt(a, b),
    decreases i,
{
    if i > 0 {
        lemma_lex_lt_from_diff(a.drop_first(), b.drop_first(), i - 1);
    }
}

/// Outcome of comparing two strings.
pub enum StringOrder {
    Less,
    Equal,
    Greater,
}

/// Compares two strings in the lexicographic order of their UTF-8 bytes.
pub fn compare_strings(a: &str, b: &str) -> (r: StringOrder)
    ensures
        (r == StringOrder::Less) == str_lt(a@, b@),
        (r == StringOrder::Equal) == (a@ == b@),
        (r == StringOrder::Greater) == str_lt(b@, a@),
{
    proof {
        lemma_str_trichotomy(a@, b@);
        lemma_str_trichotomy(b@, a@);
        lemma_str_eq_bytes(a@, b@);
    }
    let ab = a.as_bytes();
    let bb = b.as_bytes();
    let alen = ab.len();
    let blen = bb.len();
    let mut i: usize = 0;
    while i < alen && i < blen
        invariant
            i <= alen,
            i <= blen,
            alen == ab@.len(),
            blen == bb@.len(),
            ab@ == a.spec_bytes(),
            bb@ == b.spec_bytes(),
            forall|j: int| 0 <= j < i ==> ab@[j] == bb@[j],
        decreases alen - i,
    {
        let x = ab[i];
        let y = bb[i];
        if x < y {
            proof {
                lemma_lex_lt_from_diff(ab@, bb@, i as int);
                lemma_str_trichotomy(a@, b@);
            }
            return StringOrder::Less;
        }
        if y < x {
            proof {
                lemma_lex_lt_from_diff(bb@, ab@, i as int);
                lemma_str_trichotomy(b@, a@);
            }
            return StringOrder::Greater;
        }
        i = i + 1;
    }
    if alen < blen {
        proof {
            lemma_lex_lt_prefix(ab@, bb@);
        }
        StringOrder::Less
    } else if blen < alen {
        proof {
            lemma_lex_lt_prefix(bb@, ab@);
        }
        StringOrder::Greater
    } else {
        proof {
            assert(ab@ =~= bb@);
        }
        StringOrder::Equal
    }
}

/// Whether `a` comes strictly before `b`.
pub fn string_lt(a: &String, b: &String) -> (r: bool)
    ensures
        r == str_lt(a@, b@),
{
    let c = compare_strings(a.as_str(), b.as_str());
    match c {
        StringOrder::Less => true,
        StringOrder::Equal => false,
        StringOrder::Greater => false,
    }
}

/// Whether `a` and `b` hold the same characters.
pub fn string_eq(a: &String, b: &String) -> (r: bool)
    ensures
        r == (a@ == b@),
{
    let c = compare_strings(a.as_str(), b.as_str());
    match c {
        StringOrder::Less => false,
        StringOrder::Equal => true,
        StringOrder::Greater => false,
    }
}

/// Whether two string slices hold the same characters.
pub fn string_eq_str(a: &str, b: &str) -> (r: bool)
    ensures
        r == (a@ == b@),
{
    let c = compare_strings(a, b);
    match c {
        StringOrder::Less => false,
        StringOrder::Equal => true,
        StringOrder::Greater => false,
    }
}

} // verus!
