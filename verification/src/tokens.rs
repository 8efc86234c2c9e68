//! Token usage of predictions and references, counted by an injected
//! tokenizer: the metric's identity and its totals.

use vstd::prelude::*;
use crate::text::push_str_of;

verus! {

/// The metric name of token statistics under a tokenizer:
/// `token_stats[<counter id>]`, so runs tokenized by different strategies
/// never share a name.
pub fn token_stats_name(counter_id: &str) -> (r: String)
    ensures
        r@ == "token_stats["@ + counter_id@ + "]"@,
{
    let mut out = String::new();
    push_str_of(&mut out, "token_stats[");
    push_str_of(&mut out, counter_id);
    push_str_of(&mut out, "]");
    out
}

/// Sum of the predicted (first) token counts.
pub open spec fn predicted_total(counts: Seq<(usize, usize)>) -> nat
    decreases counts.len(),
{
    if counts.len() == 0 {
        0
    } else {
        predicted_total(counts.drop_last()) + counts.last().0 as nat
    }
}

/// Sum of the reference (second) token counts.
pub open spec fn reference_total(counts: Seq<(usize, usize)>) -> nat
    decreases counts.len(),
{
    if counts.len() == 0 {
        0
    } else {
        reference_total(counts.drop_last()) + counts.last().1 as nat
    }
}

/// Totals of the per-sample token counts `(predicted, reference)`; `None`
/// when a total does not fit in a `usize`.
pub fn token_totals(counts: &Vec<(usize, usize)>) -> (r: Option<(usize, usize)>)
    ensures
        r is Some <==> predicted_total(counts@) <= usize::MAX && reference_total(counts@) <= usize::MAX,
        r matches Some(t) ==> t.0 == predicted_total(counts@) && t.1 == reference_total(counts@),
{
    let mut p: usize = 0;
    let mut q: usize = 0;
    let mut over_p = false;
    let mut over_q = false;
    let mut i: usize = 0;
    while i < counts.len()
        invariant
            i <= counts@.len(),
            over_p <==> predicted_total(counts@.take(i as int)) > usize::MAX,
            over_q <==> reference_total(counts@.take(i as int)) > usize::MAX,
            !over_p ==> p == predicted_total(counts@.take(i as int)),
            !over_q ==> q == reference_total(counts@.take(i as int)),
        decreases counts@.len() - i,
    {
        assert(counts@.take(i + 1).drop_last() =~= counts@.take(i as int));
        let (a, b) = counts[i];
        if !over_p {
            match p.checked_add(a) {
                Some(s) => p = s,
                None => over_p = true,
            }
        }
        if !over_q {
            match q.checked_add(b) {
                Some(s) => q = s,
                None => over_q = true,
            }
        }
        i = i + 1;
    }
    assert(counts@.take(counts@.len() as int) =~= counts@);
    if over_p || over_q {
        None
    } else {
        Some((p, q))
    }
}

} // verus!
