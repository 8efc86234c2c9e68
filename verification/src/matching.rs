//! Edit distance between labels, the integer core of fuzzy matching.

use vstd::prelude::*;
use crate::text::chars_of;

verus! {

/// The Levenshtein distance: the fewest single-character insertions,
/// deletions and substitutions that turn `a` into `b`.
pub open spec fn edit_distance(a: Seq<char>, b: Seq<char>) -> nat
    decreases a.len() + b.len(),
{
    if a.len() == 0 {
        b.len()
    } else if b.len() == 0 {
        a.len()
    } else {
        let del = edit_distance(a.drop_last(), b) + 1;
        let ins = edit_distance(a, b.drop_last()) + 1;
        let sub = edit_distance(a.drop_last(), b.drop_last()) + if a.last() == b.last() {
            0nat
        } else {
            1nat
        };
        min3(del, ins, sub)
    }
}

/// The least of three naturals.
pub open spec fn min3(x: nat, y: nat, z: nat) -> nat {
    if x <= y && x <= z {
        x
    } else if y <= z {
        y
    } else {
        z
    }
}

/// The distance never exceeds the longer length.
pub proof fn lemma_edit_distance_bound(a: Seq<char>, b: Seq<char>)
    ensures
        edit_distance(a, b) <= if a.len() >= b.len() { a.len() } else { b.len() },
    decreases a.len() + b.len(),
{
    if a.len() > 0 && b.len() > 0 {
        lemma_edit_distance_bound(a.drop_last(), b.drop_last());
        lemma_edit_distance_bound(a.drop_last(), b);
        lemma_edit_distance_bound(a, b.drop_last());
    }
}

/// The distance does not depend on the direction: turning `a` into `b` costs
/// what turning `b` into `a` costs.
pub proof fn edit_distance_is_symmetric(a: Seq<char>, b: Seq<char>)
    ensures
        edit_distance(a, b) == edit_distance(b, a),
    decreases a.len() + b.len(),
{
    if a.len() > 0 && b.len() > 0 {
        edit_distance_is_symmetric(a.drop_last(), b);
        edit_distance_is_symmetric(a, b.drop_last());
        edit_distance_is_symmetric(a.drop_last(), b.drop_last());
    }
}

/// The distance is zero exactly between equal texts.
pub proof fn edit_distance_is_zero_exactly_for_equal_texts(a: Seq<char>, b: Seq<char>)
    ensures
        edit_distance(a, b) == 0 <==> a == b,
    decreases a.len() + b.len(),
{
    if a.len() > 0 && b.len() > 0 {
        edit_distance_is_zero_exactly_for_equal_texts(a.drop_last(), b.drop_last());
        if a == b {
            assert(a.drop_last() == b.drop_last());
        }
        if edit_distance(a, b) == 0 {
            assert(a.last() == b.last());
            assert(a.drop_last() == b.drop_last());
            assert(a =~= a.drop_last().push(a.last()));
            assert(b =~= b.drop_last().push(b.last()));
        }
    } else if a.len() == 0 && b.len() == 0 {
        assert(a =~= b);
    }
}

/// The distance is at least the difference of the lengths.
pub proof fn lemma_edit_distance_length_gap(a: Seq<char>, b: Seq<char>)
    ensures
        edit_distance(a, b) + b.len() >= a.len(),
        edit_distance(a, b) + a.len() >= b.len(),
    decreases a.len() + b.len(),
{
    if a.len() > 0 && b.len() > 0 {
        lemma_edit_distance_length_gap(a.drop_last(), b);
        lemma_edit_distance_length_gap(a, b.drop_last());
        lemma_edit_distance_length_gap(a.drop_last(), b.drop_last());
    }
}

/// Going from `a` to `c` by way of `b` never costs less than going directly:
/// the distance obeys the triangle inequality.
pub proof fn edit_distance_obeys_the_triangle_inequality(a: Seq<char>, b: Seq<char>, c: Seq<char>)
    ensures
        edit_distance(a, c) <= edit_distance(a, b) + edit_distance(b, c),
    decreases a.len() + b.len() + c.len(),
{
    if b.len() == 0 {
        lemma_edit_distance_bound(a, c);
    } else if a.len() == 0 {
        lemma_edit_distance_length_gap(b, c);
    } else if c.len() == 0 {
        lemma_edit_distance_length_gap(a, b);
    } else {
        let (a1, b1, c1) = (a.drop_last(), b.drop_last(), c.drop_last());
        edit_distance_obeys_the_triangle_inequality(a1, b, c);
        edit_distance_obeys_the_triangle_inequality(a, b, c1);
        edit_distance_obeys_the_triangle_inequality(a, b1, c);
        edit_distance_obeys_the_triangle_inequality(a, b1, c1);
        edit_distance_obeys_the_triangle_inequality(a1, b1, c);
        edit_distance_obeys_the_triangle_inequality(a1, b1, c1);
    }
}

/// Levenshtein distance between two character vectors, by the two-row
/// dynamic program.
pub fn levenshtein_chars(a: &Vec<char>, b: &Vec<char>) -> (d: usize)
    requires
        // A string holds fewer than `usize::MAX` characters.
        a@.len() < usize::MAX,
        b@.len() < usize::MAX,
    ensures
        d == edit_distance(a@, b@),
{
    let a_len = a.len();
    let b_len = b.len();
    if a_len == 0 {
        return b_len;
    }
    if b_len == 0 {
        return a_len;
    }
    // prev[j] holds the distance between a[..i] and b[..j].
    let mut prev: Vec<usize> = Vec::new();
    let mut j: usize = 0;
    while j <= b_len
        invariant
            b_len == b.len(),
            b_len < usize::MAX,
            j <= b_len + 1,
            prev.len() == j,
            forall|k: int| 0 <= k < j ==> prev[k] == edit_distance(a@.take(0), b@.take(k)),
        decreases b_len + 1 - j,
    {
        assert(a@.take(0).len() == 0);
        prev.push(j);
        j = j + 1;
    }
    let mut i: usize = 0;
    while i < a_len
        invariant
            a_len == a.len(),
            b_len == b.len(),
            a_len < usize::MAX,
            b_len < usize::MAX,
            a_len > 0,
            i <= a_len,
            prev.len() == b_len + 1,
            forall|k: int|
                0 <= k <= b_len ==> #[trigger] prev[k] == edit_distance(a@.take(i as int), b@.take(k)),
        decreases a_len - i,
    {
        let mut curr: Vec<usize> = Vec::new();
        proof {
            lemma_edit_distance_bound(a@.take(i + 1), b@.take(0));
            assert(b@.take(0).len() == 0);
        }
        curr.push(i + 1);
        let mut j: usize = 0;
        while j < b_len
            invariant
                a_len == a.len(),
                b_len == b.len(),
                a_len < usize::MAX,
                b_len < usize::MAX,
                i < a_len,
                j <= b_len,
                prev.len() == b_len + 1,
                curr.len() == j + 1,
                forall|k: int|
                    0 <= k <= b_len ==> #[trigger] prev[k] == edit_distance(a@.take(i as int), b@.take(k)),
                forall|k: int|
                    0 <= k <= j ==> #[trigger] curr[k] == edit_distance(a@.take(i + 1), b@.take(k)),
            decreases b_len - j,
        {
            let ghost ai = a@.take(i + 1);
            let ghost bj = b@.take(j + 1);
            proof {
                assert(ai.drop_last() == a@.take(i as int));
                assert(bj.drop_last() == b@.take(j as int));
                assert(ai.last() == a@[i as int]);
                assert(bj.last() == b@[j as int]);
                lemma_edit_distance_bound(a@.take(i as int), b@.take(j + 1));
                lemma_edit_distance_bound(ai, b@.take(j as int));
                lemma_edit_distance_bound(a@.take(i as int), b@.take(j as int));
            }
            let cost: usize = if a[i] == b[j] { 0 } else { 1 };
            let del = prev[j + 1] + 1;
            let ins = curr[j] + 1;
            let sub = prev[j] + cost;
            let m = if del <= ins && del <= sub {
                del
            } else if ins <= sub {
                ins
            } else {
                sub
            };
            curr.push(m);
            assert(curr[j + 1] == edit_distance(ai, bj));
            j = j + 1;
        }
        prev = curr;
        i = i + 1;
    }
    assert(a@.take(a_len as int) == a@);
    assert(b@.take(b_len as int) == b@);
    prev[b_len]
}

/// Levenshtein distance between two strings, counted in characters.
pub fn levenshtein(a: &str, b: &str) -> (d: usize)
    requires
        // A string holds fewer than `usize::MAX` characters.
        a@.len() < usize::MAX,
        b@.len() < usize::MAX,
    ensures
        d == edit_distance(a@, b@),
{
    let x = chars_of(a);
    let y = chars_of(b);
    levenshtein_chars(&x, &y)
}

} // verus!
