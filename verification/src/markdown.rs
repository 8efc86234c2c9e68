//! The plain-text run report: headline counts, accuracy, the confusion
//! matrix at the threshold and a per-branch breakdown, its numbers given
//! formatted.

use vstd::prelude::*;
use crate::order::{Cmp, char_codes, compare_chars, lex_le, lemma_lex_antisymmetric, lemma_lex_reflexive, lemma_lex_total, lemma_lex_transitive};
use crate::text::{chars_of, decimal, decimal_string, push_char, push_str_of};

verus! {

/// `n` copies of `c`.
pub open spec fn repeated(c: char, n: nat) -> Seq<char> {
    Seq::new(n, |i: int| c)
}

/// `s` right-aligned in a field of `w` characters.
pub open spec fn pad_left(s: Seq<char>, w: nat) -> Seq<char> {
    repeated(' ', if s.len() < w { (w - s.len()) as nat } else { 0 }) + s
}

/// `s` left-aligned in a field of `w` characters.
pub open spec fn pad_right(s: Seq<char>, w: nat) -> Seq<char> {
    s + repeated(' ', if s.len() < w { (w - s.len()) as nat } else { 0 })
}

/// One branch row of the breakdown, its numbers formatted.
#[derive(Debug, Clone, PartialEq, Eq)]
pub struct MarkdownBranchRow {
    pub name: String,
    pub f1_text: String,
    pub avg_positive_text: String,
    pub avg_negative_text: String,
    pub separation_text: String,
}

/// The headline numbers of a run, formatted: threshold with two decimals,
/// rates with three.
#[derive(Debug, Clone, PartialEq, Eq)]
pub struct MarkdownSummary {
    pub run_id: String,
    pub tag: String,
    pub positives: u64,
    pub negatives: u64,
    pub threshold_text: String,
    pub precision_text: String,
    pub recall_text: String,
    pub f1_text: String,
    pub accuracy_text: String,
    pub tp: u64,
    pub fn_: u64,
    pub fp: u64,
    pub tn: u64,
}

/// The header of the breakdown table.
pub const BRANCH_HEADER: &'static str = "  Branch                F1    Avg Pos Score   Avg Neg Score   Separation";

/// The column header of the confusion matrix.
pub const CONFUSION_HEADER: &'static str = "                 Predicted Positive    Predicted Negative";

/// One breakdown row.
pub open spec fn branch_line(b: MarkdownBranchRow) -> Seq<char> {
    "  "@ + pad_right(b.name@, 18) + pad_left(b.f1_text@, 6) + "    "@ + pad_left(b.avg_positive_text@, 13) + "   "@
        + pad_left(b.avg_negative_text@, 13) + "   "@ + pad_left(b.separation_text@, 10)
}

/// The breakdown rows, each followed by a newline.
pub open spec fn branch_lines(rows: Seq<MarkdownBranchRow>) -> Seq<char>
    decreases rows.len(),
{
    if rows.len() == 0 {
        Seq::empty()
    } else {
        branch_lines(rows.drop_last()) + branch_line(rows.last()) + seq!['\n']
    }
}

/// The banner: the run id, the sample counts, the threshold and the tag.
pub open spec fn banner_text(m: MarkdownSummary) -> Seq<char> {
    repeated('═', 65) + "\n  BENCH RUN: "@ + m.run_id@ + "\n  Samples: "@ + decimal((m.positives + m.negatives) as nat)
        + " ("@ + decimal(m.positives as nat) + " positive, "@ + decimal(m.negatives as nat)
        + " negative) | Threshold: "@ + m.threshold_text@ + (if m.tag@.len() == 0 {
        Seq::empty()
    } else {
        " | Tag: "@ + m.tag@
    }) + "\n"@ + repeated('═', 65) + "\n"@
}

/// The overall rates.
pub open spec fn rates_text(m: MarkdownSummary) -> Seq<char> {
    "\nOVERALL ACCURACY\n  Precision: "@ + m.precision_text@ + "    Recall: "@ + m.recall_text@ + "    F1: "@
        + m.f1_text@ + "    Accuracy: "@ + m.accuracy_text@ + "\n"@
}

/// The confusion matrix at the threshold.
pub open spec fn confusion_text(m: MarkdownSummary) -> Seq<char> {
    "\nCONFUSION MATRIX (threshold="@ + m.threshold_text@ + ")\n"@ + CONFUSION_HEADER@ + "\n  Actual Positive     "@
        + pad_left(decimal(m.tp as nat), 4) + " (TP)            "@ + pad_left(decimal(m.fn_ as nat), 4)
        + " (FN)\n  Actual Negative     "@ + pad_left(decimal(m.fp as nat), 4) + " (FP)            "@ + pad_left(
        decimal(m.tn as nat),
        4,
    ) + " (TN)\n"@
}

/// The per-branch breakdown; nothing without branches.
pub open spec fn breakdown_text(rows: Seq<MarkdownBranchRow>) -> Seq<char> {
    if rows.len() == 0 {
        Seq::empty()
    } else {
        "\nPER-BRANCH BREAKDOWN\n"@ + BRANCH_HEADER@ + "\n  "@ + repeated('─', 72) + "\n"@ + branch_lines(rows)
    }
}

/// The report text: a banner with the run id, sample counts, threshold and
/// tag; the overall rates; the confusion matrix; and, when there are
/// branches, the per-branch breakdown ordered by branch name. Each section is
/// preceded by an empty line.
pub open spec fn markdown_text(m: MarkdownSummary, rows: Seq<MarkdownBranchRow>) -> Seq<char> {
    banner_text(m) + rates_text(m) + confusion_text(m) + breakdown_text(rows_by_name(rows))
}

/// The name of a row as code points, the key rows are ordered by.
pub open spec fn row_key(r: MarkdownBranchRow) -> Seq<int> {
    char_codes(r.name@)
}

/// `rows` with `x` put before the first row whose name is not smaller.
pub open spec fn insert_by_name(rows: Seq<MarkdownBranchRow>, x: MarkdownBranchRow) -> Seq<MarkdownBranchRow>
    decreases rows.len(),
{
    if rows.len() == 0 {
        seq![x]
    } else if lex_le(row_key(x), row_key(rows[0])) {
        seq![x] + rows
    } else {
        seq![rows[0]] + insert_by_name(rows.drop_first(), x)
    }
}

/// The rows ordered by name, each inserted in turn.
pub open spec fn rows_by_name(rows: Seq<MarkdownBranchRow>) -> Seq<MarkdownBranchRow>
    decreases rows.len(),
{
    if rows.len() == 0 {
        Seq::empty()
    } else {
        insert_by_name(rows_by_name(rows.drop_last()), rows.last())
    }
}

/// Whether the names of `rows` never decrease.
pub open spec fn name_sorted(rows: Seq<MarkdownBranchRow>) -> bool {
    forall|i: int, j: int| 0 <= i < j < rows.len() ==> lex_le(row_key(#[trigger] rows[i]), row_key(#[trigger] rows[j]))
}

/// A key below `x` and below every row stays below every row after `x` is
/// inserted.
proof fn lemma_insert_lower_bound(rows: Seq<MarkdownBranchRow>, x: MarkdownBranchRow, y: Seq<int>)
    requires
        lex_le(y, row_key(x)),
        forall|j: int| 0 <= j < rows.len() ==> lex_le(y, row_key(#[trigger] rows[j])),
    ensures
        insert_by_name(rows, x).len() == rows.len() + 1,
        forall|i: int| 0 <= i < insert_by_name(rows, x).len() ==> lex_le(y, row_key(#[trigger] insert_by_name(rows, x)[i])),
    decreases rows.len(),
{
    if rows.len() > 0 && !lex_le(row_key(x), row_key(rows[0])) {
        let rest = rows.drop_first();
        assert forall|j: int| 0 <= j < rest.len() implies lex_le(y, row_key(#[trigger] rest[j])) by {
            assert(rest[j] == rows[j + 1]);
        }
        lemma_insert_lower_bound(rest, x, y);
        let ins = insert_by_name(rows, x);
        assert forall|i: int| 0 <= i < ins.len() implies lex_le(y, row_key(#[trigger] ins[i])) by {
            if i > 0 {
                assert(ins[i] == insert_by_name(rest, x)[i - 1]);
            }
        }
    }
}

/// Inserting into rows ordered by name keeps them ordered.
proof fn lemma_insert_keeps_order(rows: Seq<MarkdownBranchRow>, x: MarkdownBranchRow)
    requires
        name_sorted(rows),
    ensures
        name_sorted(insert_by_name(rows, x)),
        insert_by_name(rows, x).len() == rows.len() + 1,
    decreases rows.len(),
{
    if rows.len() == 0 {
        assert(insert_by_name(rows, x) =~= seq![x]);
    } else if lex_le(row_key(x), row_key(rows[0])) {
        let ins = seq![x] + rows;
        assert forall|i: int, j: int| 0 <= i < j < ins.len() implies lex_le(row_key(#[trigger] ins[i]), row_key(#[trigger] ins[j])) by {
            if i == 0 {
                if j > 1 {
                    lemma_lex_transitive(row_key(x), row_key(rows[0]), row_key(rows[j - 1]));
                }
            } else {
                assert(ins[i] == rows[i - 1] && ins[j] == rows[j - 1]);
            }
        }
    } else {
        let rest = rows.drop_first();
        assert forall|i: int, j: int| 0 <= i < j < rest.len() implies lex_le(row_key(#[trigger] rest[i]), row_key(#[trigger] rest[j])) by {
            assert(rest[i] == rows[i + 1] && rest[j] == rows[j + 1]);
        }
        lemma_insert_keeps_order(rest, x);
        lemma_lex_total(row_key(x), row_key(rows[0]));
        assert forall|j: int| 0 <= j < rest.len() implies lex_le(row_key(rows[0]), row_key(#[trigger] rest[j])) by {
            assert(rest[j] == rows[j + 1]);
        }
        lemma_insert_lower_bound(rest, x, row_key(rows[0]));
        let tail = insert_by_name(rest, x);
        let ins = insert_by_name(rows, x);
        assert(ins == seq![rows[0]] + tail);
        assert forall|i: int, j: int| 0 <= i < j < ins.len() implies lex_le(row_key(#[trigger] ins[i]), row_key(#[trigger] ins[j])) by {
            assert(ins[j] == tail[j - 1]);
            if i > 0 {
                assert(ins[i] == tail[i - 1]);
            }
        }
    }
}

/// The rows of the breakdown come ordered by name, one for each row given.
pub proof fn rows_by_name_are_ordered_by_name(rows: Seq<MarkdownBranchRow>)
    ensures
        name_sorted(rows_by_name(rows)),
        rows_by_name(rows).len() == rows.len(),
    decreases rows.len(),
{
    if rows.len() > 0 {
        rows_by_name_are_ordered_by_name(rows.drop_last());
        lemma_insert_keeps_order(rows_by_name(rows.drop_last()), rows.last());
    }
}

/// Inserting at the first position whose name is not smaller than `x`'s.
proof fn lemma_insert_at(rows: Seq<MarkdownBranchRow>, x: MarkdownBranchRow, p: int)
    requires
        0 <= p <= rows.len(),
        forall|j: int| 0 <= j < p ==> !lex_le(row_key(x), row_key(#[trigger] rows[j])),
        p < rows.len() ==> lex_le(row_key(x), row_key(rows[p])),
    ensures
        insert_by_name(rows, x) == rows.take(p) + seq![x] + rows.skip(p),
    decreases rows.len(),
{
    if rows.len() == 0 {
        assert(rows.take(p) + seq![x] + rows.skip(p) =~= seq![x]);
    } else if p == 0 {
        assert(rows.take(p) + seq![x] + rows.skip(p) =~= seq![x] + rows);
    } else {
        let rest = rows.drop_first();
        assert forall|j: int| 0 <= j < p - 1 implies !lex_le(row_key(x), row_key(#[trigger] rest[j])) by {
            assert(rest[j] == rows[j + 1]);
        }
        assert(!lex_le(row_key(x), row_key(rows[0])));
        lemma_insert_at(rest, x, p - 1);
        assert(rows.take(p) + seq![x] + rows.skip(p) =~= seq![rows[0]] + (rest.take(p - 1) + seq![x] + rest.skip(p - 1)));
    }
}

/// The same row, its texts copied.
fn copy_row(r: &MarkdownBranchRow) -> (c: MarkdownBranchRow)
    ensures
        c == *r,
{
    MarkdownBranchRow {
        name: r.name.clone(),
        f1_text: r.f1_text.clone(),
        avg_positive_text: r.avg_positive_text.clone(),
        avg_negative_text: r.avg_negative_text.clone(),
        separation_text: r.separation_text.clone(),
    }
}

/// Whether `a`'s name is at most `b`'s.
fn name_le(a: &MarkdownBranchRow, b: &MarkdownBranchRow) -> (r: bool)
    ensures
        r == lex_le(row_key(*a), row_key(*b)),
{
    let ka = chars_of(a.name.as_str());
    let kb = chars_of(b.name.as_str());
    match compare_chars(&ka, &kb) {
        Cmp::Less => true,
        Cmp::Equal => {
            proof {
                lemma_lex_reflexive(row_key(*a));
            }
            true
        },
        Cmp::Greater => {
            proof {
                if lex_le(row_key(*a), row_key(*b)) {
                    lemma_lex_antisymmetric(row_key(*a), row_key(*b));
                }
            }
            false
        },
    }
}

/// The rows ordered by name (see [`rows_by_name`]).
pub fn order_rows_by_name(rows: &Vec<MarkdownBranchRow>) -> (r: Vec<MarkdownBranchRow>)
    ensures
        r@ == rows_by_name(rows@),
{
    let mut out: Vec<MarkdownBranchRow> = Vec::new();
    let mut i: usize = 0;
    while i < rows.len()
        invariant
            i <= rows@.len(),
            out@ == rows_by_name(rows@.take(i as int)),
        decreases rows@.len() - i,
    {
        let x = copy_row(&rows[i]);
        let mut p: usize = 0;
        while p < out.len() && !name_le(&x, &out[p])
            invariant
                p <= out@.len(),
                forall|j: int| 0 <= j < p ==> !lex_le(row_key(x), row_key(#[trigger] out@[j])),
            decreases out@.len() - p,
        {
            p = p + 1;
        }
        proof {
            lemma_insert_at(out@, x, p as int);
            assert(rows@.take(i + 1).drop_last() =~= rows@.take(i as int));
            assert(rows@.take(i + 1).last() == x);
        }
        out.insert(p, x);
        assert(out@ =~= rows_by_name(rows@.take(i + 1)));
        i = i + 1;
    }
    assert(rows@.take(rows@.len() as int) =~= rows@);
    out
}

fn push_repeated(out: &mut String, c: char, n: usize)
    ensures
        final(out)@ == old(out)@ + repeated(c, n as nat),
{
    let mut k: usize = 0;
    while k < n
        invariant
            k <= n,
            out@ == old(out)@ + repeated(c, k as nat),
        decreases n - k,
    {
        push_char(out, c);
        assert(repeated(c, (k + 1) as nat) =~= repeated(c, k as nat).push(c));
        k = k + 1;
    }
}

fn push_pad_left(out: &mut String, s: &str, w: usize)
    ensures
        final(out)@ == old(out)@ + pad_left(s@, w as nat),
{
    let n = chars_of(s).len();
    push_repeated(out, ' ', if n < w { w - n } else { 0 });
    push_str_of(out, s);
    assert(final(out)@ =~= old(out)@ + pad_left(s@, w as nat));
}

fn push_pad_right(out: &mut String, s: &str, w: usize)
    ensures
        final(out)@ == old(out)@ + pad_right(s@, w as nat),
{
    let n = chars_of(s).len();
    push_str_of(out, s);
    push_repeated(out, ' ', if n < w { w - n } else { 0 });
    assert(final(out)@ =~= old(out)@ + pad_right(s@, w as nat));
}

fn push_branch_line(out: &mut String, b: &MarkdownBranchRow)
    ensures
        final(out)@ == old(out)@ + branch_line(*b),
{
    push_str_of(out, "  ");
    push_pad_right(out, b.name.as_str(), 18);
    push_pad_left(out, b.f1_text.as_str(), 6);
    push_str_of(out, "    ");
    push_pad_left(out, b.avg_positive_text.as_str(), 13);
    push_str_of(out, "   ");
    push_pad_left(out, b.avg_negative_text.as_str(), 13);
    push_str_of(out, "   ");
    push_pad_left(out, b.separation_text.as_str(), 10);
    assert(final(out)@ =~= old(out)@ + branch_line(*b));
}

fn push_banner(out: &mut String, m: &MarkdownSummary)
    requires
        m.positives + m.negatives <= u64::MAX,
    ensures
        final(out)@ == old(out)@ + banner_text(*m),
{
    push_repeated(out, '═', 65);
    push_str_of(out, "\n  BENCH RUN: ");
    push_str_of(out, m.run_id.as_str());
    push_str_of(out, "\n  Samples: ");
    push_str_of(out, decimal_string(m.positives + m.negatives).as_str());
    push_str_of(out, " (");
    push_str_of(out, decimal_string(m.positives).as_str());
    push_str_of(out, " positive, ");
    push_str_of(out, decimal_string(m.negatives).as_str());
    push_str_of(out, " negative) | Threshold: ");
    push_str_of(out, m.threshold_text.as_str());
    if !m.tag.as_str().is_empty() {
        push_str_of(out, " | Tag: ");
        push_str_of(out, m.tag.as_str());
    }
    push_str_of(out, "\n");
    push_repeated(out, '═', 65);
    push_str_of(out, "\n");
    assert(final(out)@ =~= old(out)@ + banner_text(*m));
}

fn push_rates(out: &mut String, m: &MarkdownSummary)
    ensures
        final(out)@ == old(out)@ + rates_text(*m),
{
    push_str_of(out, "\nOVERALL ACCURACY\n  Precision: ");
    push_str_of(out, m.precision_text.as_str());
    push_str_of(out, "    Recall: ");
    push_str_of(out, m.recall_text.as_str());
    push_str_of(out, "    F1: ");
    push_str_of(out, m.f1_text.as_str());
    push_str_of(out, "    Accuracy: ");
    push_str_of(out, m.accuracy_text.as_str());
    push_str_of(out, "\n");
    assert(final(out)@ =~= old(out)@ + rates_text(*m));
}

fn push_confusion(out: &mut String, m: &MarkdownSummary)
    ensures
        final(out)@ == old(out)@ + confusion_text(*m),
{
    push_str_of(out, "\nCONFUSION MATRIX (threshold=");
    push_str_of(out, m.threshold_text.as_str());
    push_str_of(out, ")\n");
    push_str_of(out, CONFUSION_HEADER);
    push_str_of(out, "\n  Actual Positive     ");
    push_pad_left(out, decimal_string(m.tp).as_str(), 4);
    push_str_of(out, " (TP)            ");
    push_pad_left(out, decimal_string(m.fn_).as_str(), 4);
    push_str_of(out, " (FN)\n  Actual Negative     ");
    push_pad_left(out, decimal_string(m.fp).as_str(), 4);
    push_str_of(out, " (FP)            ");
    push_pad_left(out, decimal_string(m.tn).as_str(), 4);
    push_str_of(out, " (TN)\n");
    assert(final(out)@ =~= old(out)@ + confusion_text(*m));
}

fn push_breakdown(out: &mut String, rows: &Vec<MarkdownBranchRow>)
    ensures
        final(out)@ == old(out)@ + breakdown_text(rows@),
{
    if rows.len() == 0 {
        assert(final(out)@ =~= old(out)@ + breakdown_text(rows@));
        return;
    }
    push_str_of(out, "\nPER-BRANCH BREAKDOWN\n");
    push_str_of(out, BRANCH_HEADER);
    push_str_of(out, "\n  ");
    push_repeated(out, '─', 72);
    push_str_of(out, "\n");
    let ghost mid = out@;
    let mut i: usize = 0;
    while i < rows.len()
        invariant
            i <= rows@.len(),
            out@ == mid + branch_lines(rows@.take(i as int)),
        decreases rows@.len() - i,
    {
        push_branch_line(out, &rows[i]);
        push_char(out, '\n');
        assert(rows@.take(i + 1).drop_last() =~= rows@.take(i as int));
        assert(out@ =~= mid + branch_lines(rows@.take(i + 1)));
        i = i + 1;
    }
    assert(rows@.take(rows@.len() as int) =~= rows@);
    assert(final(out)@ =~= old(out)@ + breakdown_text(rows@));
}

/// Renders the plain-text report of a run; the branch rows appear ordered by
/// name.
pub fn markdown_report(m: &MarkdownSummary, rows: &Vec<MarkdownBranchRow>) -> (r: String)
    requires
        m.positives + m.negatives <= u64::MAX,
    ensures
        r@ == markdown_text(*m, rows@),
{
    let mut out = String::new();
    push_banner(&mut out, m);
    push_rates(&mut out, m);
    push_confusion(&mut out, m);
    let ordered = order_rows_by_name(rows);
    push_breakdown(&mut out, &ordered);
    assert(out@ =~= markdown_text(*m, rows@));
    out
}

} // verus!
