//! Counting kernels of the classification metrics: binary confusion counts,
//! the N-by-N confusion matrix and exact matches.

use vstd::prelude::*;
use crate::text::{chars_eq, chars_of};
use crate::compare::MetricDirection;

verus! {

/// A full N-by-N confusion matrix with its labels (row = actual, column = predicted).
#[derive(Debug, Clone, PartialEq, Eq)]
pub struct ConfusionMatrixDetail {
    /// Class labels.
    pub labels: Vec<String>,
    /// Counts: `matrix[actual][predicted]`.
    pub matrix: Vec<Vec<i64>>,
    /// Orientation description.
    pub orientation: String,
}

/// The orientation recorded for a confusion matrix that states none.
pub fn default_orientation() -> (s: String)
    ensures
        s@ == "row=actual, col=predicted"@,
{
    String::from_str("row=actual, col=predicted")
}

/// Binary confusion counts.
#[derive(Debug, Clone, Copy, PartialEq, Eq, Structural)]
pub struct BinaryCounts {
    pub tp: u64,
    pub fp: u64,
    pub tn: u64,
    pub fn_: u64,
}

/// Number of outcomes `(actual positive, predicted positive)` equal to `(a, p)`.
pub open spec fn count_outcome(outcomes: Seq<(bool, bool)>, a: bool, p: bool) -> nat
    decreases outcomes.len(),
{
    if outcomes.len() == 0 {
        0
    } else {
        count_outcome(outcomes.drop_last(), a, p) + if outcomes.last() == (a, p) { 1nat } else { 0nat }
    }
}

/// The four counts partition the outcomes.
pub proof fn binary_counts_partition(outcomes: Seq<(bool, bool)>)
    ensures
        count_outcome(outcomes, true, true) + count_outcome(outcomes, false, true) + count_outcome(outcomes, false, false)
            + count_outcome(outcomes, true, false) == outcomes.len(),
    decreases outcomes.len(),
{
    if outcomes.len() > 0 {
        binary_counts_partition(outcomes.drop_last());
        let x = outcomes.last();
        assert(x == (true, true) || x == (false, true) || x == (false, false) || x == (true, false));
    }
}

/// Counts true and false positives and negatives from each sample's
/// `(actual is positive, predicted positive)` pair.
pub fn binary_counts(outcomes: &Vec<(bool, bool)>) -> (c: BinaryCounts)
    ensures
        c.tp == count_outcome(outcomes@, true, true),
        c.fp == count_outcome(outcomes@, false, true),
        c.tn == count_outcome(outcomes@, false, false),
        c.fn_ == count_outcome(outcomes@, true, false),
{
    let mut c = BinaryCounts { tp: 0, fp: 0, tn: 0, fn_: 0 };
    let mut i: usize = 0;
    while i < outcomes.len()
        invariant
            i <= outcomes@.len(),
            c.tp == count_outcome(outcomes@.take(i as int), true, true),
            c.fp == count_outcome(outcomes@.take(i as int), false, true),
            c.tn == count_outcome(outcomes@.take(i as int), false, false),
            c.fn_ == count_outcome(outcomes@.take(i as int), true, false),
        decreases outcomes@.len() - i,
    {
        proof {
            binary_counts_partition(outcomes@.take(i as int));
            assert(outcomes@.take(i + 1).drop_last() =~= outcomes@.take(i as int));
        }
        let (a, p) = outcomes[i];
        if a && p {
            c.tp = c.tp + 1;
        } else if !a && p {
            c.fp = c.fp + 1;
        } else if !a && !p {
            c.tn = c.tn + 1;
        } else {
            c.fn_ = c.fn_ + 1;
        }
        i = i + 1;
    }
    assert(outcomes@.take(outcomes@.len() as int) =~= outcomes@);
    c
}

/// Position of the first label equal to `l`.
pub open spec fn label_position(labels: Seq<Seq<char>>, l: Seq<char>) -> Option<int>
    decreases labels.len(),
{
    if labels.len() == 0 {
        None
    } else {
        match label_position(labels.drop_last(), l) {
            Some(i) => Some(i),
            None => if labels.last() == l { Some(labels.len() - 1) } else { None },
        }
    }
}

/// Number of `(actual, predicted)` pairs whose labels sit at positions `(a, p)`.
pub open spec fn cell_count(labels: Seq<Seq<char>>, pairs: Seq<(Seq<char>, Seq<char>)>, a: int, p: int) -> nat
    decreases pairs.len(),
{
    if pairs.len() == 0 {
        0
    } else {
        cell_count(labels, pairs.drop_last(), a, p) + if label_position(labels, pairs.last().0) == Some(a)
            && label_position(labels, pairs.last().1) == Some(p) {
            1nat
        } else {
            0nat
        }
    }
}

proof fn lemma_cell_bound(labels: Seq<Seq<char>>, pairs: Seq<(Seq<char>, Seq<char>)>, a: int, p: int)
    ensures
        cell_count(labels, pairs, a, p) <= pairs.len(),
    decreases pairs.len(),
{
    if pairs.len() > 0 {
        lemma_cell_bound(labels, pairs.drop_last(), a, p);
    }
}

/// The position of a label among `labels`.
fn position_of(labels: &Vec<String>, l: &Vec<char>) -> (r: Option<usize>)
    ensures
        match r {
            Some(i) => label_position(labels@.map_values(|s: String| s@), l@) == Some(i as int),
            None => label_position(labels@.map_values(|s: String| s@), l@) is None,
        },
{
    let ghost ls = labels@.map_values(|s: String| s@);
    let mut i: usize = 0;
    while i < labels.len()
        invariant
            i <= ls.len(),
            ls == labels@.map_values(|s: String| s@),
            label_position(ls.take(i as int), l@) is None,
        decreases ls.len() - i,
    {
        assert(ls.take(i + 1).drop_last() =~= ls.take(i as int));
        if chars_eq(&chars_of(labels[i].as_str()), l) {
            assert(label_position(ls.take(i + 1), l@) == Some(i as int));
            proof {
                lemma_position_prefix(ls, i + 1, l@);
            }
            return Some(i);
        }
        i = i + 1;
    }
    assert(ls.take(ls.len() as int) =~= ls);
    None
}

/// A position found in a prefix is the position in the whole sequence.
proof fn lemma_position_prefix(ls: Seq<Seq<char>>, n: int, l: Seq<char>)
    requires
        0 <= n <= ls.len(),
        label_position(ls.take(n), l) is Some,
    ensures
        label_position(ls, l) == label_position(ls.take(n), l),
    decreases ls.len() - n,
{
    if n < ls.len() {
        assert(ls.take(n + 1).drop_last() =~= ls.take(n));
        lemma_position_prefix(ls, n + 1, l);
    } else {
        assert(ls.take(n) =~= ls);
    }
}

/// The N-by-N confusion matrix over `labels` of `(actual, predicted)` label
/// pairs; a pair with a label outside `labels` is not counted.
pub fn confusion_matrix(labels: &Vec<String>, pairs: &Vec<(String, String)>) -> (m: ConfusionMatrixDetail)
    requires
        pairs@.len() < i64::MAX,
    ensures
        m.labels@.map_values(|s: String| s@) == labels@.map_values(|s: String| s@),
        m.matrix@.len() == labels@.len(),
        forall|a: int| 0 <= a < labels@.len() ==> (#[trigger] m.matrix@[a])@.len() == labels@.len(),
        forall|a: int, p: int| 0 <= a < labels@.len() && 0 <= p < labels@.len() ==> (#[trigger] m.matrix@[a]@[p]) as int
            == cell_count(
                labels@.map_values(|s: String| s@),
                pairs@.map_values(|x: (String, String)| (x.0@, x.1@)),
                a,
                p,
            ),
        m.orientation@ == "row=actual, col=predicted"@,
{
    let ghost ls = labels@.map_values(|s: String| s@);
    let ghost ps = pairs@.map_values(|x: (String, String)| (x.0@, x.1@));
    let n = labels.len();
    let mut matrix: Vec<Vec<i64>> = Vec::new();
    let mut r: usize = 0;
    while r < n
        invariant
            r <= n == labels@.len(),
            matrix@.len() == r,
            forall|a: int| 0 <= a < r ==> (#[trigger] matrix@[a])@.len() == n && forall|p: int| 0 <= p < n ==> matrix@[a]@[p] == 0,
        decreases n - r,
    {
        let mut row: Vec<i64> = Vec::new();
        let mut k: usize = 0;
        while k < n
            invariant
                k <= n,
                row@.len() == k,
                forall|p: int| 0 <= p < k ==> row@[p] == 0,
            decreases n - k,
        {
            row.push(0);
            k = k + 1;
        }
        matrix.push(row);
        r = r + 1;
    }
    let mut i: usize = 0;
    while i < pairs.len()
        invariant
            i <= pairs@.len() < i64::MAX,
            n == labels@.len(),
            ls == labels@.map_values(|s: String| s@),
            ps == pairs@.map_values(|x: (String, String)| (x.0@, x.1@)),
            matrix@.len() == n,
            forall|a: int| 0 <= a < n ==> (#[trigger] matrix@[a])@.len() == n,
            forall|a: int, p: int| 0 <= a < n && 0 <= p < n ==> (#[trigger] matrix@[a]@[p]) as int == cell_count(ls, ps.take(i as int), a, p),
        decreases pairs@.len() - i,
    {
        assert(ps.take(i + 1).drop_last() =~= ps.take(i as int));
        assert(ps.take(i + 1).last() == (pairs@[i as int].0@, pairs@[i as int].1@));
        let pa = position_of(labels, &chars_of(pairs[i].0.as_str()));
        let pp = position_of(labels, &chars_of(pairs[i].1.as_str()));
        if let (Some(a), Some(p)) = (pa, pp) {
            proof {
                lemma_label_position_bound(ls, pairs@[i as int].0@);
                lemma_label_position_bound(ls, pairs@[i as int].1@);
                lemma_cell_bound(ls, ps.take(i as int), a as int, p as int);
            }
            let mut row: Vec<i64> = Vec::new();
            std::mem::swap(&mut row, &mut matrix[a]);
            let v = row[p];
            row.set(p, v + 1);
            matrix.set(a, row);
            proof {
                assert forall|x: int, y: int| 0 <= x < n && 0 <= y < n implies (#[trigger] matrix@[x]@[y]) as int
                    == cell_count(ls, ps.take(i + 1), x, y) by {
                    assert(cell_count(ls, ps.take(i + 1), x, y) == cell_count(ls, ps.take(i as int), x, y)
                        + if x == a as int && y == p as int { 1nat } else { 0nat });
                }
            }
        } else {
            proof {
                assert forall|x: int, y: int| 0 <= x < n && 0 <= y < n implies (#[trigger] matrix@[x]@[y]) as int
                    == cell_count(ls, ps.take(i + 1), x, y) by {
                    assert(cell_count(ls, ps.take(i + 1), x, y) == cell_count(ls, ps.take(i as int), x, y));
                }
            }
        }
        i = i + 1;
    }
    assert(ps.take(ps.len() as int) =~= ps);
    let mut names: Vec<String> = Vec::new();
    let mut j: usize = 0;
    while j < n
        invariant
            j <= n == labels@.len(),
            names@.map_values(|s: String| s@) == labels@.map_values(|s: String| s@).take(j as int),
        decreases n - j,
    {
        let cl = labels[j].clone();
        assert(cl@ == labels@[j as int]@);
        let ghost before = names@.map_values(|s: String| s@);
        names.push(cl);
        assert(names@.map_values(|s: String| s@) =~= before.push(cl@));
        assert(labels@.map_values(|s: String| s@).take(j + 1) =~= labels@.map_values(|s: String| s@).take(j as int).push(
            labels@[j as int]@,
        ));
        j = j + 1;
    }
    assert(labels@.map_values(|s: String| s@).take(n as int) =~= labels@.map_values(|s: String| s@));
    ConfusionMatrixDetail { labels: names, matrix, orientation: default_orientation() }
}

proof fn lemma_label_position_bound(ls: Seq<Seq<char>>, l: Seq<char>)
    ensures
        label_position(ls, l) matches Some(i) ==> 0 <= i < ls.len(),
    decreases ls.len(),
{
    if ls.len() > 0 {
        lemma_label_position_bound(ls.drop_last(), l);
    }
}

/// Number of `(label, prediction)` pairs that match exactly.
pub open spec fn exact_matches(pairs: Seq<(Seq<char>, Seq<char>)>) -> nat
    decreases pairs.len(),
{
    if pairs.len() == 0 {
        0
    } else {
        exact_matches(pairs.drop_last()) + if pairs.last().0 == pairs.last().1 { 1nat } else { 0nat }
    }
}

/// Counts the predictions that exactly match their label.
pub fn count_exact_matches(pairs: &Vec<(String, String)>) -> (n: usize)
    ensures
        n == exact_matches(pairs@.map_values(|x: (String, String)| (x.0@, x.1@))),
        n <= pairs@.len(),
{
    let ghost ps = pairs@.map_values(|x: (String, String)| (x.0@, x.1@));
    let mut n: usize = 0;
    let mut i: usize = 0;
    while i < pairs.len()
        invariant
            i <= pairs@.len(),
            ps == pairs@.map_values(|x: (String, String)| (x.0@, x.1@)),
            n == exact_matches(ps.take(i as int)),
            n <= i,
        decreases pairs@.len() - i,
    {
        assert(ps.take(i + 1).drop_last() =~= ps.take(i as int));
        if chars_eq(&chars_of(pairs[i].0.as_str()), &chars_of(pairs[i].1.as_str())) {
            n = n + 1;
        }
        i = i + 1;
    }
    assert(ps.take(ps.len() as int) =~= ps);
    n
}

/// Per-class counts of a multi-class result: true positives, false negatives
/// and false positives of class `i`, over the pairs whose labels are both
/// among the classes.
pub open spec fn class_counts(labels: Seq<Seq<char>>, pairs: Seq<(Seq<char>, Seq<char>)>, i: int) -> (nat, nat, nat)
    decreases pairs.len(),
{
    if pairs.len() == 0 {
        (0, 0, 0)
    } else {
        let (tp, fn_, fp) = class_counts(labels, pairs.drop_last(), i);
        let a = label_position(labels, pairs.last().0);
        let p = label_position(labels, pairs.last().1);
        if a is Some && p is Some {
            if a == Some(i) && p == Some(i) {
                (tp + 1, fn_, fp)
            } else if a == Some(i) {
                (tp, fn_ + 1, fp)
            } else if p == Some(i) {
                (tp, fn_, fp + 1)
            } else {
                (tp, fn_, fp)
            }
        } else {
            (tp, fn_, fp)
        }
    }
}

proof fn lemma_class_counts_bound(labels: Seq<Seq<char>>, pairs: Seq<(Seq<char>, Seq<char>)>, i: int)
    ensures
        class_counts(labels, pairs, i).0 + class_counts(labels, pairs, i).1 + class_counts(labels, pairs, i).2 <= pairs.len(),
    decreases pairs.len(),
{
    if pairs.len() > 0 {
        lemma_class_counts_bound(labels, pairs.drop_last(), i);
    }
}

/// Counts, for each class in `labels` order, its true positives, false
/// negatives and false positives among `(actual, predicted)` label pairs.
pub fn per_class_counts(labels: &Vec<String>, pairs: &Vec<(String, String)>) -> (r: Vec<(u64, u64, u64)>)
    ensures
        r@.len() == labels@.len(),
        forall|i: int| 0 <= i < labels@.len() ==> ((#[trigger] r@[i]).0 as nat, r@[i].1 as nat, r@[i].2 as nat)
            == class_counts(
                labels@.map_values(|s: String| s@),
                pairs@.map_values(|x: (String, String)| (x.0@, x.1@)),
                i,
            ),
{
    let ghost ls = labels@.map_values(|s: String| s@);
    let ghost ps = pairs@.map_values(|x: (String, String)| (x.0@, x.1@));
    let n = labels.len();
    let mut r: Vec<(u64, u64, u64)> = Vec::new();
    let mut k: usize = 0;
    while k < n
        invariant
            k <= n == labels@.len(),
            r@.len() == k,
            forall|i: int| 0 <= i < k ==> r@[i] == (0u64, 0u64, 0u64),
        decreases n - k,
    {
        r.push((0, 0, 0));
        k = k + 1;
    }
    let mut j: usize = 0;
    while j < pairs.len()
        invariant
            j <= pairs@.len(),
            n == labels@.len(),
            ls == labels@.map_values(|s: String| s@),
            ps == pairs@.map_values(|x: (String, String)| (x.0@, x.1@)),
            r@.len() == n,
            forall|i: int| 0 <= i < n ==> ((#[trigger] r@[i]).0 as nat, r@[i].1 as nat, r@[i].2 as nat) == class_counts(ls, ps.take(j as int), i),
        decreases pairs@.len() - j,
    {
        assert(ps.take(j + 1).drop_last() =~= ps.take(j as int));
        assert(ps.take(j + 1).last() == (pairs@[j as int].0@, pairs@[j as int].1@));
        let pa = position_of(labels, &chars_of(pairs[j].0.as_str()));
        let pp = position_of(labels, &chars_of(pairs[j].1.as_str()));
        let ghost before = r@;
        if let (Some(a), Some(p)) = (pa, pp) {
            proof {
                lemma_label_position_bound(ls, pairs@[j as int].0@);
                lemma_label_position_bound(ls, pairs@[j as int].1@);
                lemma_class_counts_bound(ls, ps.take(j as int), a as int);
                lemma_class_counts_bound(ls, ps.take(j as int), p as int);
            }
            if a == p {
                let (tp, f_n, f_p) = r[a];
                r.set(a, (tp + 1, f_n, f_p));
            } else {
                let (tp, f_n, f_p) = r[a];
                r.set(a, (tp, f_n + 1, f_p));
                let (tp2, f_n2, f_p2) = r[p];
                r.set(p, (tp2, f_n2, f_p2 + 1));
            }
            proof {
                assert forall|i: int| 0 <= i < n implies ((#[trigger] r@[i]).0 as nat, r@[i].1 as nat, r@[i].2 as nat)
                    == class_counts(ls, ps.take(j + 1), i) by {
                    if i != a && i != p {
                        assert(r@[i] == before[i]);
                    }
                }
            }
        } else {
            proof {
                assert forall|i: int| 0 <= i < n implies ((#[trigger] r@[i]).0 as nat, r@[i].1 as nat, r@[i].2 as nat)
                    == class_counts(ls, ps.take(j + 1), i) by {
                    assert(r@[i] == before[i]);
                }
            }
        }
        j = j + 1;
    }
    assert(ps.take(ps.len() as int) =~= ps);
    r
}

/// The subvalues of a binary classification result whose direction differs
/// from the metric's: fewer false positives and negatives (and a lower
/// false-positive rate) are better, and the raw true counts are descriptive.
pub fn binary_subvalue_directions() -> (d: Vec<(&'static str, MetricDirection)>)
    ensures
        d@.len() == 5,
        d@[0].0@ == "fpr"@ && d@[0].1 == MetricDirection::LowerIsBetter,
        d@[1].0@ == "fp"@ && d@[1].1 == MetricDirection::LowerIsBetter,
        d@[2].0@ == "fn"@ && d@[2].1 == MetricDirection::LowerIsBetter,
        d@[3].0@ == "tp"@ && d@[3].1 == MetricDirection::Neutral,
        d@[4].0@ == "tn"@ && d@[4].1 == MetricDirection::Neutral,
{
    vec![
        ("fpr", MetricDirection::LowerIsBetter),
        ("fp", MetricDirection::LowerIsBetter),
        ("fn", MetricDirection::LowerIsBetter),
        ("tp", MetricDirection::Neutral),
        ("tn", MetricDirection::Neutral),
    ]
}

} // verus!
