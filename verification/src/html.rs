//! Sections of the HTML report. Every interpolated text is HTML-escaped;
//! numbers come formatted.

use vstd::prelude::*;
use crate::markup::{Markup, escaped_for, push_escaped};
use crate::report::HtmlReporter;
use crate::text::{decimal, push_char, push_decimal, push_str_of};
use crate::markup::{chart_title, footer, footer_text_for};

verus! {

/// HTML-escaped text.
pub open spec fn h(s: Seq<char>) -> Seq<char> {
    escaped_for(Markup::Html, s)
}

/// One row of the sample table.
#[derive(Debug, Clone, PartialEq, Eq)]
pub struct HtmlSampleRow {
    pub id: String,
    pub label: String,
    pub predicted: String,
    pub score_text: String,
    pub correct: bool,
    pub duration_ms: u64,
    pub error: String,
}

/// One row of the metric table: the value and the per-label values in key order.
#[derive(Debug, Clone, PartialEq, Eq)]
pub struct HtmlMetricRow {
    pub name: String,
    pub value_text: String,
    pub values: Vec<(String, String)>,
}

/// One row of the branch table: a formatted cell per metric column.
#[derive(Debug, Clone, PartialEq, Eq)]
pub struct HtmlBranchRow {
    pub name: String,
    pub tier: i32,
    pub cells: Vec<String>,
    pub avg_positive_text: String,
    pub avg_negative_text: String,
    pub duration_ms: u64,
    pub errors: u64,
}

/// The correctness cell of a sample row.
pub open spec fn status_cell_text(correct: bool) -> Seq<char> {
    "</td><td class=\""@ + (if correct { "correct"@ } else { "incorrect"@ }) + "\"><span class=\"badge "@
        + (if correct { "badge-ok"@ } else { "badge-err"@ }) + "\">"@ + (if correct { "✓"@ } else { "✗"@ })
        + "</span></td><td>"@
}

/// The error cell of a sample row: the escaped error, or a dash.
pub open spec fn error_cell_text(error: Seq<char>) -> Seq<char> {
    if error.len() == 0 {
        "—"@
    } else {
        h(error)
    }
}

pub open spec fn sample_row_text(s: HtmlSampleRow) -> Seq<char> {
    "<tr><td>"@ + h(s.id@) + "</td><td>"@ + h(s.label@) + "</td><td>"@ + h(s.predicted@) + "</td><td>"@ + s.score_text@
        + status_cell_text(s.correct) + decimal(s.duration_ms as nat) + "ms</td><td>"@ + error_cell_text(s.error@)
        + "</td></tr>"@
}

fn push_status_cell(out: &mut String, correct: bool)
    ensures
        final(out)@ == old(out)@ + status_cell_text(correct),
{
    push_str_of(out, "</td><td class=\"");
    push_str_of(out, if correct { "correct" } else { "incorrect" });
    push_str_of(out, "\"><span class=\"badge ");
    push_str_of(out, if correct { "badge-ok" } else { "badge-err" });
    push_str_of(out, "\">");
    push_str_of(out, if correct { "✓" } else { "✗" });
    push_str_of(out, "</span></td><td>");
    assert(final(out)@ =~= old(out)@ + status_cell_text(correct));
}

fn push_error_cell(out: &mut String, error: &String)
    ensures
        final(out)@ == old(out)@ + error_cell_text(error@),
{
    if error.as_str().is_empty() {
        push_str_of(out, "—");
    } else {
        push_escaped(out, Markup::Html, error.as_str());
    }
}

pub open spec fn sample_rows_text(rows: Seq<HtmlSampleRow>) -> Seq<char>
    decreases rows.len(),
{
    if rows.len() == 0 {
        Seq::empty()
    } else {
        sample_rows_text(rows.drop_last()) + sample_row_text(rows.last())
    }
}

/// The sample table of the report; nothing without samples.
pub open spec fn samples_section_text(rows: Seq<HtmlSampleRow>) -> Seq<char> {
    if rows.len() == 0 {
        Seq::empty()
    } else {
        "<section><h2>Sample Details</h2><div class=\"card samples-table\"><table>"@
            + "<tr><th>ID</th><th>Label</th><th>Predicted</th><th>Score</th><th>Correct</th><th>Duration</th><th>Error</th></tr>"@
            + sample_rows_text(rows) + "</table></div></section>"@
    }
}

/// `key: value` pairs joined by `, `, keys escaped.
pub open spec fn pairs_text(vs: Seq<(String, String)>) -> Seq<char>
    decreases vs.len(),
{
    if vs.len() == 0 {
        Seq::empty()
    } else if vs.len() == 1 {
        h(vs[0].0@) + ": "@ + vs[0].1@
    } else {
        pairs_text(vs.drop_last()) + ", "@ + h(vs.last().0@) + ": "@ + vs.last().1@
    }
}

pub open spec fn metric_row_text(m: HtmlMetricRow) -> Seq<char> {
    "<tr><td>"@ + h(m.name@) + "</td><td>"@ + m.value_text@ + "</td><td>"@ + (if m.values@.len() == 0 {
        "—"@
    } else {
        pairs_text(m.values@)
    }) + "</td></tr>"@
}

pub open spec fn metric_rows_text(rows: Seq<HtmlMetricRow>) -> Seq<char>
    decreases rows.len(),
{
    if rows.len() == 0 {
        Seq::empty()
    } else {
        metric_rows_text(rows.drop_last()) + metric_row_text(rows.last())
    }
}

/// The metric table of the report; nothing without metrics.
pub open spec fn metrics_section_text(rows: Seq<HtmlMetricRow>) -> Seq<char> {
    if rows.len() == 0 {
        Seq::empty()
    } else {
        "<section><h2>Metrics</h2><div class=\"card\"><table>"@ + "<tr><th>Metric</th><th>Value</th><th>Per-Label</th></tr>"@
            + metric_rows_text(rows) + "</table></div></section>"@
    }
}

/// A signed integer in decimal.
pub open spec fn signed_decimal(n: int) -> Seq<char> {
    if n < 0 {
        seq!['-'] + decimal((-n) as nat)
    } else {
        decimal(n as nat)
    }
}

pub open spec fn cells_text(cells: Seq<String>) -> Seq<char>
    decreases cells.len(),
{
    if cells.len() == 0 {
        Seq::empty()
    } else {
        cells_text(cells.drop_last()) + "<td>"@ + cells.last()@ + "</td>"@
    }
}

pub open spec fn header_cells_text(keys: Seq<String>) -> Seq<char>
    decreases keys.len(),
{
    if keys.len() == 0 {
        Seq::empty()
    } else {
        header_cells_text(keys.drop_last()) + "<th>"@ + h(keys.last()@) + "</th>"@
    }
}

pub open spec fn branch_row_text(b: HtmlBranchRow) -> Seq<char> {
    "<tr><td>"@ + h(b.name@) + "</td><td>"@ + signed_decimal(b.tier as int) + "</td>"@ + cells_text(b.cells@) + "<td>"@
        + b.avg_positive_text@ + "</td><td>"@ + b.avg_negative_text@ + "</td><td>"@ + decimal(b.duration_ms as nat)
        + "ms</td><td>"@ + decimal(b.errors as nat) + "</td></tr>"@
}

pub open spec fn branch_rows_text(rows: Seq<HtmlBranchRow>) -> Seq<char>
    decreases rows.len(),
{
    if rows.len() == 0 {
        Seq::empty()
    } else {
        branch_rows_text(rows.drop_last()) + branch_row_text(rows.last())
    }
}

/// The branch comparison table; nothing without branches.
pub open spec fn branches_section_text(keys: Seq<String>, rows: Seq<HtmlBranchRow>) -> Seq<char> {
    if rows.len() == 0 {
        Seq::empty()
    } else {
        "<section><h2>Branch Comparison</h2><div class=\"card\"><table>"@ + "<tr><th>Branch</th><th>Tier</th>"@
            + header_cells_text(keys) + "<th>Avg+</th><th>Avg−</th><th>Duration</th><th>Errors</th></tr>"@
            + branch_rows_text(rows) + "</table></div></section>"@
    }
}

/// `label: count` pairs joined by `, `, labels escaped.
pub open spec fn counts_text(ls: Seq<(String, usize)>) -> Seq<char>
    decreases ls.len(),
{
    if ls.len() == 0 {
        Seq::empty()
    } else if ls.len() == 1 {
        h(ls[0].0@) + ": "@ + decimal(ls[0].1 as nat)
    } else {
        counts_text(ls.drop_last()) + ", "@ + h(ls.last().0@) + ": "@ + decimal(ls.last().1 as nat)
    }
}

/// Number of correct samples.
pub open spec fn correct_count(flags: Seq<bool>) -> nat
    decreases flags.len(),
{
    if flags.len() == 0 {
        0
    } else {
        correct_count(flags.drop_last()) + if flags.last() { 1nat } else { 0nat }
    }
}

/// The correct count of samples split in two is the sum of the counts of the
/// parts.
pub proof fn correct_count_adds_over_concatenation(a: Seq<bool>, b: Seq<bool>)
    ensures
        correct_count(a + b) == correct_count(a) + correct_count(b),
    decreases b.len(),
{
    if b.len() == 0 {
        assert(a + b =~= a);
    } else {
        correct_count_adds_over_concatenation(a, b.drop_last());
        assert((a + b).drop_last() =~= a + b.drop_last());
        assert((a + b).last() == b.last());
    }
}

/// The correct count is the number of true flags among all samples: it is
/// the length of the flags kept by filtering on truth, one sample counts
/// one exactly when it is correct, it never exceeds the number of samples,
/// and it equals that number exactly when every sample is correct.
pub proof fn correct_count_is_the_number_of_true_flags(flags: Seq<bool>)
    ensures
        correct_count(flags) == flags.filter(|b: bool| b).len(),
        correct_count(seq![true]) == 1,
        correct_count(seq![false]) == 0,
        correct_count(flags) <= flags.len(),
        correct_count(flags) == flags.len() <==> forall|i: int| 0 <= i < flags.len() ==> flags[i],
    decreases flags.len(),
{
    reveal(Seq::filter);
    assert(seq![true].drop_last() =~= Seq::<bool>::empty());
    assert(seq![false].drop_last() =~= Seq::<bool>::empty());
    assert(correct_count(Seq::<bool>::empty()) == 0);
    assert(correct_count(seq![true]) == correct_count(seq![true].drop_last()) + 1);
    assert(correct_count(seq![false]) == correct_count(seq![false].drop_last()));
    if flags.len() > 0 {
        let front = flags.drop_last();
        correct_count_is_the_number_of_true_flags(front);
        if correct_count(flags) == flags.len() {
            assert forall|i: int| 0 <= i < flags.len() implies flags[i] by {
                if i < flags.len() - 1 {
                    assert(front[i] == flags[i]);
                }
            }
        }
        if forall|i: int| 0 <= i < flags.len() ==> flags[i] {
            assert forall|i: int| 0 <= i < front.len() implies front[i] by {
                assert(front[i] == flags[i]);
            }
            assert(flags.last() == flags[flags.len() - 1]);
        }
    }
}

/// The summary table: dataset, sample count, the label distribution when
/// there is one, and the accuracy over the samples when there are any (its
/// percentage comes formatted).
pub open spec fn summary_section_text(
    name: Seq<char>,
    version: Seq<char>,
    sample_count: nat,
    labels: Seq<(String, usize)>,
    correct: Seq<bool>,
    percent: Seq<char>,
) -> Seq<char> {
    "<section><h2>Summary</h2><div class=\"card\"><table>"@ + "<tr><th>Dataset</th><td>"@ + h(name) + " v"@ + h(version)
        + "</td></tr>"@ + "<tr><th>Samples</th><td>"@ + decimal(sample_count) + "</td></tr>"@ + (if labels.len() == 0 {
        Seq::empty()
    } else {
        "<tr><th>Labels</th><td>"@ + counts_text(labels) + "</td></tr>"@
    }) + (if correct.len() == 0 {
        Seq::empty()
    } else {
        "<tr><th>Accuracy</th><td>"@ + decimal(correct_count(correct)) + " / "@ + decimal(correct.len()) + " ("@ + percent
            + "%)</td></tr>"@
    }) + "</table></div></section>"@
}

fn push_sample_row(out: &mut String, s: &HtmlSampleRow)
    ensures
        final(out)@ == old(out)@ + sample_row_text(*s),
{
    push_str_of(out, "<tr><td>");
    push_escaped(out, Markup::Html, s.id.as_str());
    push_str_of(out, "</td><td>");
    push_escaped(out, Markup::Html, s.label.as_str());
    push_str_of(out, "</td><td>");
    push_escaped(out, Markup::Html, s.predicted.as_str());
    push_str_of(out, "</td><td>");
    push_str_of(out, s.score_text.as_str());
    push_status_cell(out, s.correct);
    push_decimal(out, s.duration_ms);
    push_str_of(out, "ms</td><td>");
    push_error_cell(out, &s.error);
    push_str_of(out, "</td></tr>");
    assert(final(out)@ =~= old(out)@ + sample_row_text(*s));
}

fn push_pairs(out: &mut String, vs: &Vec<(String, String)>)
    ensures
        final(out)@ == old(out)@ + pairs_text(vs@),
{
    let ghost start = out@;
    let mut i: usize = 0;
    while i < vs.len()
        invariant
            i <= vs@.len(),
            out@ == start + pairs_text(vs@.take(i as int)),
        decreases vs@.len() - i,
    {
        if i > 0 {
            push_str_of(out, ", ");
        }
        push_escaped(out, Markup::Html, vs[i].0.as_str());
        push_str_of(out, ": ");
        push_str_of(out, vs[i].1.as_str());
        assert(vs@.take(i + 1).drop_last() =~= vs@.take(i as int));
        assert(vs@.take(i + 1).last() == vs@[i as int]);
        assert(i == 0 ==> vs@.take(1)[0] == vs@[0]);
        assert(out@ =~= start + pairs_text(vs@.take(i + 1)));
        i = i + 1;
    }
    assert(vs@.take(vs@.len() as int) =~= vs@);
}

fn push_metric_row(out: &mut String, m: &HtmlMetricRow)
    ensures
        final(out)@ == old(out)@ + metric_row_text(*m),
{
    push_str_of(out, "<tr><td>");
    push_escaped(out, Markup::Html, m.name.as_str());
    push_str_of(out, "</td><td>");
    push_str_of(out, m.value_text.as_str());
    push_str_of(out, "</td><td>");
    if m.values.len() == 0 {
        push_str_of(out, "—");
    } else {
        push_pairs(out, &m.values);
    }
    push_str_of(out, "</td></tr>");
    assert(final(out)@ =~= old(out)@ + metric_row_text(*m));
}

fn push_signed(out: &mut String, n: i32)
    ensures
        final(out)@ == old(out)@ + signed_decimal(n as int),
{
    if n < 0 {
        push_char(out, '-');
        let m: i64 = -(n as i64);
        push_decimal(out, m as u64);
    } else {
        push_decimal(out, n as u64);
    }
}

fn push_branch_row(out: &mut String, b: &HtmlBranchRow)
    ensures
        final(out)@ == old(out)@ + branch_row_text(*b),
{
    push_str_of(out, "<tr><td>");
    push_escaped(out, Markup::Html, b.name.as_str());
    push_str_of(out, "</td><td>");
    push_signed(out, b.tier);
    push_str_of(out, "</td>");
    let ghost mid = out@;
    let mut i: usize = 0;
    while i < b.cells.len()
        invariant
            i <= b.cells@.len(),
            out@ == mid + cells_text(b.cells@.take(i as int)),
        decreases b.cells@.len() - i,
    {
        push_str_of(out, "<td>");
        push_str_of(out, b.cells[i].as_str());
        push_str_of(out, "</td>");
        assert(b.cells@.take(i + 1).drop_last() =~= b.cells@.take(i as int));
        assert(out@ =~= mid + cells_text(b.cells@.take(i + 1)));
        i = i + 1;
    }
    assert(b.cells@.take(b.cells@.len() as int) =~= b.cells@);
    push_str_of(out, "<td>");
    push_str_of(out, b.avg_positive_text.as_str());
    push_str_of(out, "</td><td>");
    push_str_of(out, b.avg_negative_text.as_str());
    push_str_of(out, "</td><td>");
    push_decimal(out, b.duration_ms);
    push_str_of(out, "ms</td><td>");
    push_decimal(out, b.errors);
    push_str_of(out, "</td></tr>");
    assert(final(out)@ =~= old(out)@ + branch_row_text(*b));
}

impl HtmlReporter {
    /// The sample table.
    pub fn samples_section(&self, rows: &Vec<HtmlSampleRow>) -> (r: String)
        ensures
            r@ == samples_section_text(rows@),
    {
        let mut out = String::new();
        if rows.len() == 0 {
            return out;
        }
        push_str_of(&mut out, "<section><h2>Sample Details</h2><div class=\"card samples-table\"><table>");
        push_str_of(
            &mut out,
            "<tr><th>ID</th><th>Label</th><th>Predicted</th><th>Score</th><th>Correct</th><th>Duration</th><th>Error</th></tr>",
        );
        let ghost head = out@;
        let mut i: usize = 0;
        while i < rows.len()
            invariant
                i <= rows@.len(),
                out@ == head + sample_rows_text(rows@.take(i as int)),
            decreases rows@.len() - i,
        {
            push_sample_row(&mut out, &rows[i]);
            assert(rows@.take(i + 1).drop_last() =~= rows@.take(i as int));
            i = i + 1;
        }
        assert(rows@.take(rows@.len() as int) =~= rows@);
        push_str_of(&mut out, "</table></div></section>");
        assert(out@ =~= samples_section_text(rows@));
        out
    }

    /// The metric table.
    pub fn metrics_section(&self, rows: &Vec<HtmlMetricRow>) -> (r: String)
        ensures
            r@ == metrics_section_text(rows@),
    {
        let mut out = String::new();
        if rows.len() == 0 {
            return out;
        }
        push_str_of(&mut out, "<section><h2>Metrics</h2><div class=\"card\"><table>");
        push_str_of(&mut out, "<tr><th>Metric</th><th>Value</th><th>Per-Label</th></tr>");
        let ghost head = out@;
        let mut i: usize = 0;
        while i < rows.len()
            invariant
                i <= rows@.len(),
                out@ == head + metric_rows_text(rows@.take(i as int)),
            decreases rows@.len() - i,
        {
            push_metric_row(&mut out, &rows[i]);
            assert(rows@.take(i + 1).drop_last() =~= rows@.take(i as int));
            i = i + 1;
        }
        assert(rows@.take(rows@.len() as int) =~= rows@);
        push_str_of(&mut out, "</table></div></section>");
        assert(out@ =~= metrics_section_text(rows@));
        out
    }

    /// The branch comparison table over the metric columns `keys`.
    pub fn branches_section(&self, keys: &Vec<String>, rows: &Vec<HtmlBranchRow>) -> (r: String)
        ensures
            r@ == branches_section_text(keys@, rows@),
    {
        let mut out = String::new();
        if rows.len() == 0 {
            return out;
        }
        push_str_of(&mut out, "<section><h2>Branch Comparison</h2><div class=\"card\"><table>");
        push_str_of(&mut out, "<tr><th>Branch</th><th>Tier</th>");
        let ghost head = out@;
        let mut k: usize = 0;
        while k < keys.len()
            invariant
                k <= keys@.len(),
                out@ == head + header_cells_text(keys@.take(k as int)),
            decreases keys@.len() - k,
        {
            push_str_of(&mut out, "<th>");
            push_escaped(&mut out, Markup::Html, keys[k].as_str());
            push_str_of(&mut out, "</th>");
            assert(keys@.take(k + 1).drop_last() =~= keys@.take(k as int));
            assert(out@ =~= head + header_cells_text(keys@.take(k + 1)));
            k = k + 1;
        }
        assert(keys@.take(keys@.len() as int) =~= keys@);
        push_str_of(&mut out, "<th>Avg+</th><th>Avg−</th><th>Duration</th><th>Errors</th></tr>");
        let ghost mid = out@;
        let mut i: usize = 0;
        while i < rows.len()
            invariant
                i <= rows@.len(),
                out@ == mid + branch_rows_text(rows@.take(i as int)),
            decreases rows@.len() - i,
        {
            push_branch_row(&mut out, &rows[i]);
            assert(rows@.take(i + 1).drop_last() =~= rows@.take(i as int));
            i = i + 1;
        }
        assert(rows@.take(rows@.len() as int) =~= rows@);
        push_str_of(&mut out, "</table></div></section>");
        assert(out@ =~= branches_section_text(keys@, rows@));
        out
    }

    /// The summary table; `percent` is the formatted accuracy percentage.
    pub fn summary_section(
        &self,
        name: &str,
        version: &str,
        sample_count: u64,
        labels: &Vec<(String, usize)>,
        correct: &Vec<bool>,
        percent: &str,
    ) -> (r: String)
        ensures
            r@ == summary_section_text(name@, version@, sample_count as nat, labels@, correct@, percent@),
    {
        let mut out = String::new();
        push_str_of(&mut out, "<section><h2>Summary</h2><div class=\"card\"><table>");
        push_str_of(&mut out, "<tr><th>Dataset</th><td>");
        push_escaped(&mut out, Markup::Html, name);
        push_str_of(&mut out, " v");
        push_escaped(&mut out, Markup::Html, version);
        push_str_of(&mut out, "</td></tr>");
        push_str_of(&mut out, "<tr><th>Samples</th><td>");
        push_decimal(&mut out, sample_count);
        push_str_of(&mut out, "</td></tr>");
        let ghost head = out@;
        if labels.len() > 0 {
            push_str_of(&mut out, "<tr><th>Labels</th><td>");
            let ghost lhead = out@;
            let mut i: usize = 0;
            while i < labels.len()
                invariant
                    i <= labels@.len(),
                    out@ == lhead + counts_text(labels@.take(i as int)),
                decreases labels@.len() - i,
            {
                if i > 0 {
                    push_str_of(&mut out, ", ");
                }
                push_escaped(&mut out, Markup::Html, labels[i].0.as_str());
                push_str_of(&mut out, ": ");
                push_decimal(&mut out, labels[i].1 as u64);
                assert(labels@.take(i + 1).drop_last() =~= labels@.take(i as int));
                assert(labels@.take(i + 1).last() == labels@[i as int]);
                assert(i == 0 ==> labels@.take(1)[0] == labels@[0]);
                assert(out@ =~= lhead + counts_text(labels@.take(i + 1)));
                i = i + 1;
            }
            assert(labels@.take(labels@.len() as int) =~= labels@);
            push_str_of(&mut out, "</td></tr>");
        }
        let ghost after_labels = out@;
        if correct.len() > 0 {
            let mut n: u64 = 0;
            let mut j: usize = 0;
            while j < correct.len()
                invariant
                    j <= correct@.len(),
                    n == correct_count(correct@.take(j as int)),
                    n <= j,
                decreases correct@.len() - j,
            {
                assert(correct@.take(j + 1).drop_last() =~= correct@.take(j as int));
                if correct[j] {
                    n = n + 1;
                }
                j = j + 1;
            }
            assert(correct@.take(correct@.len() as int) =~= correct@);
            push_str_of(&mut out, "<tr><th>Accuracy</th><td>");
            push_decimal(&mut out, n);
            push_str_of(&mut out, " / ");
            push_decimal(&mut out, correct.len() as u64);
            push_str_of(&mut out, " (");
            push_str_of(&mut out, percent);
            push_str_of(&mut out, "%)</td></tr>");
        }
        push_str_of(&mut out, "</table></div></section>");
        assert(out@ =~= summary_section_text(name@, version@, sample_count as nat, labels@, correct@, percent@));
        out
    }
}

/// The document start of the HTML report, up to its title.
pub const HTML_HEAD_OPEN: &'static str = "<!DOCTYPE html>\n<html lang=\"en\">\n<head>\n<meta charset=\"utf-8\">\n<meta name=\"viewport\" content=\"width=device-width, initial-scale=1\">\n<title>";

/// The rest of the document head (scripts and styles) and the header start.
pub const HTML_HEAD_STYLE: &'static str = "</title>\n<script src=\"https://cdn.jsdelivr.net/npm/vega@5\"></script>\n<script src=\"https://cdn.jsdelivr.net/npm/vega-lite@5\"></script>\n<script src=\"https://cdn.jsdelivr.net/npm/vega-embed@6\"></script>\n<style>\n  * { box-sizing: border-box; margin: 0; padding: 0; }\n  body { font-family: -apple-system, BlinkMacSystemFont, \"Segoe UI\", Roboto, sans-serif; background: #f5f5f5; color: #333; }\n  header { background: #1a1a2e; color: #fff; padding: 1.5rem 2rem; }\n  header h1 { font-size: 1.5rem; font-weight: 600; }\n  header p { font-size: 0.875rem; opacity: 0.8; margin-top: 0.25rem; }\n  .container { max-width: 1200px; margin: 0 auto; padding: 1.5rem; }\n  section { margin-bottom: 1.5rem; }\n  section h2 { font-size: 1.25rem; margin-bottom: 0.75rem; color: #1a1a2e; border-bottom: 2px solid #e0e0e0; padding-bottom: 0.25rem; }\n  .card { background: #fff; border-radius: 8px; box-shadow: 0 1px 3px rgba(0,0,0,0.1); padding: 1.25rem; margin-bottom: 1rem; }\n  table { width: 100%; border-collapse: collapse; }\n  th, td { text-align: left; padding: 0.5rem 0.75rem; border-bottom: 1px solid #eee; }\n  th { font-weight: 600; font-size: 0.8rem; text-transform: uppercase; color: #666; }\n  td { font-size: 0.9rem; }\n  .chart-grid { display: grid; grid-template-columns: repeat(auto-fit, minmax(450px, 1fr)); gap: 1rem; }\n  .chart-card { background: #fff; border-radius: 8px; box-shadow: 0 1px 3px rgba(0,0,0,0.1); padding: 1rem; }\n  .chart-card h3 { font-size: 0.95rem; margin-bottom: 0.5rem; color: #444; }\n  .samples-table { max-height: 400px; overflow-y: auto; }\n  .correct { color: #2e7d32; }\n  .incorrect { color: #c62828; }\n  .badge { display: inline-block; padding: 0.15rem 0.5rem; border-radius: 4px; font-size: 0.75rem; font-weight: 600; }\n  .badge-ok { background: #e8f5e9; color: #2e7d32; }\n  .badge-err { background: #ffebee; color: #c62828; }\n</style>\n</head>\n<body>\n<header>\n  <h1>";

/// The report title: `Bench Report`, followed by the escaped run tag when there is one.
pub open spec fn title_text(tag: Seq<char>) -> Seq<char> {
    "Bench Report"@ + (if tag.len() == 0 { Seq::empty() } else { " — "@ + h(tag) })
}

/// The head of the HTML report.
pub open spec fn head_text(tag: Seq<char>, id: Seq<char>, timestamp: Seq<char>, duration_ms: nat) -> Seq<char> {
    HTML_HEAD_OPEN@ + title_text(tag) + HTML_HEAD_STYLE@ + title_text(tag) + "</h1>\n  <p>Run "@ + h(id) + " &middot; "@ + h(timestamp) + " &middot; "@
        + decimal(duration_ms) + "ms</p>\n</header>\n<div class=\"container\">\n"@
}

fn push_title(out: &mut String, tag: &str)
    ensures
        final(out)@ == old(out)@ + title_text(tag@),
{
    push_str_of(out, "Bench Report");
    if !tag.is_empty() {
        push_str_of(out, " — ");
        push_escaped(out, Markup::Html, tag);
    }
    assert(final(out)@ =~= old(out)@ + title_text(tag@));
}

/// One chart card: its title, its target element and its specification.
pub open spec fn chart_card_text(i: nat, key: Seq<char>, spec_json: Seq<char>) -> Seq<char> {
    "<div class=\"chart-card\"><h3>"@ + h(escaped_for(Markup::Title, key)) + "</h3><div id=\"chart-"@ + decimal(i)
        + "\"></div>"@ + "<script type=\"application/json\" id=\"chart-"@ + decimal(i) + "-spec\">"@ + spec_json
        + "</script>"@ + "</div>"@
}

pub open spec fn chart_cards_text(charts: Seq<(String, String)>) -> Seq<char>
    decreases charts.len(),
{
    if charts.len() == 0 {
        Seq::empty()
    } else {
        chart_cards_text(charts.drop_last()) + chart_card_text((charts.len() - 1) as nat, charts.last().0@, charts.last().1@)
    }
}

/// The chart grid: each chart's specification embedded as inert JSON; nothing without charts.
pub open spec fn charts_section_text(charts: Seq<(String, String)>) -> Seq<char> {
    if charts.len() == 0 {
        Seq::empty()
    } else {
        "<section><h2>Charts</h2><div class=\"chart-grid\">"@ + chart_cards_text(charts) + "</div></section>"@
    }
}

/// What an HTML report shows, its numbers formatted.
#[derive(Debug, Clone, PartialEq, Eq)]
pub struct HtmlReport {
    pub tag: String,
    pub id: String,
    pub timestamp: String,
    pub duration_ms: u64,
    pub dataset_name: String,
    pub dataset_version: String,
    pub sample_count: u64,
    pub labels: Vec<(String, usize)>,
    pub correct: Vec<bool>,
    pub percent: String,
    pub metrics: Vec<HtmlMetricRow>,
    pub charts: Vec<(String, String)>,
    pub branch_keys: Vec<String>,
    pub branches: Vec<HtmlBranchRow>,
    pub samples: Vec<HtmlSampleRow>,
}

/// The whole HTML report.
pub open spec fn report_text(r: HtmlReport) -> Seq<char> {
    head_text(r.tag@, r.id@, r.timestamp@, r.duration_ms as nat) + summary_section_text(
        r.dataset_name@,
        r.dataset_version@,
        r.sample_count as nat,
        r.labels@,
        r.correct@,
        r.percent@,
    ) + metrics_section_text(r.metrics@) + charts_section_text(r.charts@) + branches_section_text(r.branch_keys@, r.branches@)
        + samples_section_text(r.samples@) + footer_text_for(r.charts@.len())
}

impl HtmlReporter {
    /// The head of the report.
    pub fn head(&self, tag: &str, id: &str, timestamp: &str, duration_ms: u64) -> (r: String)
        ensures
            r@ == head_text(tag@, id@, timestamp@, duration_ms as nat),
    {
        let mut out = String::new();
        push_str_of(&mut out, HTML_HEAD_OPEN);
        push_title(&mut out, tag);
        push_str_of(&mut out, HTML_HEAD_STYLE);
        push_title(&mut out, tag);
        push_str_of(&mut out, "</h1>\n  <p>Run ");
        push_escaped(&mut out, Markup::Html, id);
        push_str_of(&mut out, " &middot; ");
        push_escaped(&mut out, Markup::Html, timestamp);
        push_str_of(&mut out, " &middot; ");
        push_decimal(&mut out, duration_ms);
        push_str_of(&mut out, "ms</p>\n</header>\n<div class=\"container\">\n");
        assert(out@ =~= head_text(tag@, id@, timestamp@, duration_ms as nat));
        out
    }

    /// The chart grid; each chart is a key and its specification as JSON.
    pub fn charts_section(&self, charts: &Vec<(String, String)>) -> (r: String)
        ensures
            r@ == charts_section_text(charts@),
    {
        let mut out = String::new();
        if charts.len() == 0 {
            return out;
        }
        push_str_of(&mut out, "<section><h2>Charts</h2><div class=\"chart-grid\">");
        let ghost head = out@;
        let mut i: usize = 0;
        while i < charts.len()
            invariant
                i <= charts@.len(),
                out@ == head + chart_cards_text(charts@.take(i as int)),
            decreases charts@.len() - i,
        {
            let ghost before = out@;
            push_str_of(&mut out, "<div class=\"chart-card\"><h3>");
            let title = chart_title(charts[i].0.as_str());
            push_escaped(&mut out, Markup::Html, title.as_str());
            push_str_of(&mut out, "</h3><div id=\"chart-");
            push_decimal(&mut out, i as u64);
            push_str_of(&mut out, "\"></div>");
            push_str_of(&mut out, "<script type=\"application/json\" id=\"chart-");
            push_decimal(&mut out, i as u64);
            push_str_of(&mut out, "-spec\">");
            push_str_of(&mut out, charts[i].1.as_str());
            push_str_of(&mut out, "</script>");
            push_str_of(&mut out, "</div>");
            assert(out@ =~= before + chart_card_text(i as nat, charts@[i as int].0@, charts@[i as int].1@));
            assert(charts@.take(i + 1).drop_last() =~= charts@.take(i as int));
            assert(charts@.take(i + 1).last() == charts@[i as int]);
            i = i + 1;
        }
        assert(charts@.take(charts@.len() as int) =~= charts@);
        push_str_of(&mut out, "</div></section>");
        assert(out@ =~= charts_section_text(charts@));
        out
    }

    /// The HTML report of a run: head, summary, metrics, charts, branches,
    /// samples and the closing script that embeds the charts.
    pub fn report(&self, r: &HtmlReport) -> (out: String)
        ensures
            out@ == report_text(*r),
    {
        let mut out = self.head(r.tag.as_str(), r.id.as_str(), r.timestamp.as_str(), r.duration_ms);
        let s = self.summary_section(
            r.dataset_name.as_str(),
            r.dataset_version.as_str(),
            r.sample_count,
            &r.labels,
            &r.correct,
            r.percent.as_str(),
        );
        push_str_of(&mut out, s.as_str());
        push_str_of(&mut out, self.metrics_section(&r.metrics).as_str());
        push_str_of(&mut out, self.charts_section(&r.charts).as_str());
        push_str_of(&mut out, self.branches_section(&r.branch_keys, &r.branches).as_str());
        push_str_of(&mut out, self.samples_section(&r.samples).as_str());
        push_str_of(&mut out, footer(r.charts.len() as u64).as_str());
        assert(out@ =~= report_text(*r));
        out
    }
}

} // verus!
