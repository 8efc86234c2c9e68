//! Lexicographic order on byte and character sequences, the order of `str`
//! and `[u8]` comparison.

use vstd::prelude::*;

verus! {

/// Result of a three-way comparison.
#[derive(Debug, Clone, Copy, PartialEq, Eq)]
pub enum Cmp {
    Less,
    Equal,
    Greater,
}

/// Lexicographic `<=` on integer sequences (a proper prefix is smaller).
pub open spec fn lex_le(a: Seq<int>, b: Seq<int>) -> bool
    decreases a.len(),
{
    if a.len() == 0 {
        true
    } else if b.len() == 0 {
        false
    } else if a[0] < b[0] {
        true
    } else if a[0] > b[0] {
        false
    } else {
        lex_le(a.drop_first(), b.drop_first())
    }
}

/// Lexicographic `<` on integer sequences.
pub open spec fn lex_lt(a: Seq<int>, b: Seq<int>) -> bool {
    lex_le(a, b) && a != b
}

/// The code points of a character sequence.
pub open spec fn char_codes(s: Seq<char>) -> Seq<int> {
    s.map_values(|c: char| c as int)
}

/// The values of a byte sequence.
pub open spec fn byte_codes(s: Seq<u8>) -> Seq<int> {
    s.map_values(|b: u8| b as int)
}

/// Equal value sequences come from equal byte sequences.
pub proof fn lemma_byte_codes_injective(a: Seq<u8>, b: Seq<u8>)
    requires
        byte_codes(a) == byte_codes(b),
    ensures
        a == b,
{
    assert(a.len() == byte_codes(a).len());
    assert forall|i: int| 0 <= i < a.len() implies a[i] == b[i] by {
        assert(byte_codes(a)[i] == a[i] as int);
        assert(byte_codes(b)[i] == b[i] as int);
    }
    assert(a =~= b);
}

pub proof fn lemma_lex_reflexive(a: Seq<int>)
    ensures
        lex_le(a, a),
    decreases a.len(),
{
    if a.len() > 0 {
        lemma_lex_reflexive(a.drop_first());
    }
}

pub proof fn lemma_lex_antisymmetric(a: Seq<int>, b: Seq<int>)
    requires
        lex_le(a, b),
        lex_le(b, a),
    ensures
        a == b,
    decreases a.len(),
{
    if a.len() == 0 {
        assert(b.len() == 0);
        assert(a =~= b);
    } else {
        lemma_lex_antisymmetric(a.drop_first(), b.drop_first());
        assert(a =~= seq![a[0]] + a.drop_first());
        assert(b =~= seq![b[0]] + b.drop_first());
    }
}

pub proof fn lemma_lex_transitive(a: Seq<int>, b: Seq<int>, c: Seq<int>)
    requires
        lex_le(a, b),
        lex_le(b, c),
    ensures
        lex_le(a, c),
    decreases a.len(),
{
    if a.len() > 0 && b.len() > 0 && c.len() > 0 && a[0] == b[0] && b[0] == c[0] {
        lemma_lex_transitive(a.drop_first(), b.drop_first(), c.drop_first());
    }
}

pub proof fn lemma_lex_total(a: Seq<int>, b: Seq<int>)
    ensures
        lex_le(a, b) || lex_le(b, a),
    decreases a.len(),
{
    if a.len() > 0 && b.len() > 0 && a[0] == b[0] {
        lemma_lex_total(a.drop_first(), b.drop_first());
    }
}

/// Codes of a prefix are the prefix of the codes.
proof fn lemma_char_codes_take(a: Seq<char>, i: int)
    requires
        0 <= i <= a.len(),
    ensures
        char_codes(a).take(i) == char_codes(a.take(i)),
{
    assert(char_codes(a).take(i) =~= char_codes(a.take(i)));
}

/// Compares two character sequences lexicographically by code point (the
/// order of `str` comparison, which matches UTF-8 byte order).
pub fn compare_chars(a: &Vec<char>, b: &Vec<char>) -> (r: Cmp)
    ensures
        r == Cmp::Equal <==> a@ == b@,
        r == Cmp::Less ==> lex_lt(char_codes(a@), char_codes(b@)),
        r == Cmp::Greater ==> lex_lt(char_codes(b@), char_codes(a@)),
{
    let mut i: usize = 0;
    while i < a.len() && i < b.len()
        invariant
            i <= a.len() && i <= b.len(),
            a@.take(i as int) == b@.take(i as int),
        decreases a.len() - i,
    {
        if a[i] != b[i] {
            let r = if a[i] < b[i] { Cmp::Less } else { Cmp::Greater };
            proof {
                let ca = char_codes(a@);
                let cb = char_codes(b@);
                lemma_char_codes_take(a@, i as int);
                lemma_char_codes_take(b@, i as int);
                lemma_lex_prefix(ca, cb, i as int);
                lemma_lex_prefix(cb, ca, i as int);
                assert(ca[i as int] == a@[i as int] as int);
                assert(cb[i as int] == b@[i as int] as int);
                assert(ca[i as int] != cb[i as int]);
            }
            return r;
        }
        assert(a@.take(i + 1) == a@.take(i as int).push(a@[i as int]));
        assert(b@.take(i + 1) == b@.take(i as int).push(b@[i as int]));
        i = i + 1;
    }
    proof {
        let ca = char_codes(a@);
        let cb = char_codes(b@);
        lemma_char_codes_take(a@, i as int);
        lemma_char_codes_take(b@, i as int);
        lemma_lex_prefix(ca, cb, i as int);
        lemma_lex_prefix(cb, ca, i as int);
    }
    if a.len() == b.len() {
        assert(a@ == a@.take(i as int));
        assert(b@ == b@.take(i as int));
        Cmp::Equal
    } else if a.len() < b.len() {
        assert(a@.len() != b@.len());
        Cmp::Less
    } else {
        assert(a@.len() != b@.len());
        Cmp::Greater
    }
}

/// Codes of a prefix are the prefix of the codes.
proof fn lemma_byte_codes_take(a: Seq<u8>, i: int)
    requires
        0 <= i <= a.len(),
    ensures
        byte_codes(a).take(i) == byte_codes(a.take(i)),
{
    assert(byte_codes(a).take(i) =~= byte_codes(a.take(i)));
}

/// Compares two byte sequences lexicographically (the order of `[u8]` comparison).
pub fn compare_bytes(a: &Vec<u8>, b: &Vec<u8>) -> (r: Cmp)
    ensures
        r == Cmp::Equal <==> a@ == b@,
        r == Cmp::Less ==> lex_lt(byte_codes(a@), byte_codes(b@)),
        r == Cmp::Greater ==> lex_lt(byte_codes(b@), byte_codes(a@)),
{
    let mut i: usize = 0;
    while i < a.len() && i < b.len()
        invariant
            i <= a.len() && i <= b.len(),
            a@.take(i as int) == b@.take(i as int),
        decreases a.len() - i,
    {
        if a[i] != b[i] {
            let r = if a[i] < b[i] { Cmp::Less } else { Cmp::Greater };
            proof {
                let ca = byte_codes(a@);
                let cb = byte_codes(b@);
                lemma_byte_codes_take(a@, i as int);
                lemma_byte_codes_take(b@, i as int);
                lemma_lex_prefix(ca, cb, i as int);
                lemma_lex_prefix(cb, ca, i as int);
                assert(ca[i as int] == a@[i as int] as int);
                assert(cb[i as int] == b@[i as int] as int);
                assert(ca[i as int] != cb[i as int]);
            }
            return r;
        }
        assert(a@.take(i + 1) == a@.take(i as int).push(a@[i as int]));
        assert(b@.take(i + 1) == b@.take(i as int).push(b@[i as int]));
        i = i + 1;
    }
    proof {
        let ca = byte_codes(a@);
        let cb = byte_codes(b@);
        lemma_byte_codes_take(a@, i as int);
        lemma_byte_codes_take(b@, i as int);
        lemma_lex_prefix(ca, cb, i as int);
        lemma_lex_prefix(cb, ca, i as int);
    }
    if a.len() == b.len() {
        assert(a@ == a@.take(i as int));
        assert(b@ == b@.take(i as int));
        Cmp::Equal
    } else if a.len() < b.len() {
        assert(a@.len() != b@.len());
        Cmp::Less
    } else {
        assert(a@.len() != b@.len());
        Cmp::Greater
    }
}

/// Lexicographic comparison is decided at the first differing position.
pub proof fn lemma_lex_prefix(a: Seq<int>, b: Seq<int>, i: int)
    requires
        0 <= i <= a.len(),
        i <= b.len(),
        a.take(i) == b.take(i),
    ensures
        i < a.len() && i < b.len() && a[i] != b[i] ==> (lex_le(a, b) <==> a[i] < b[i]) && a != b,
        i == a.len() ==> lex_le(a, b),
        i == b.len() && i < a.len() ==> !lex_le(a, b) && a != b,
    decreases i,
{
    if i > 0 {
        assert(a[0] == a.take(i)[0]);
        assert(b[0] == b.take(i)[0]);
        assert(a.drop_first().take(i - 1) == a.take(i).drop_first());
        assert(b.drop_first().take(i - 1) == b.take(i).drop_first());
        lemma_lex_prefix(a.drop_first(), b.drop_first(), i - 1);
        if i < a.len() && i < b.len() && a[i] != b[i] {
            assert(a.drop_first()[i - 1] == a[i]);
        }
    }
}

} // verus!
