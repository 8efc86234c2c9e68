//! Report generation: JUnit XML and CSV reports of a run, built from the
//! run's values with every number already formatted.

use vstd::prelude::*;
use crate::markup::{Markup, escaped_for, push_escaped};
use crate::text::{decimal, push_decimal, push_str_of};

verus! {

/// Generates a flat CSV report: one row per metric, metric subvalue and branch metric.
#[derive(Debug, Clone, Copy, PartialEq, Eq)]
pub struct CsvReporter;

/// Generates a self-contained HTML report.
#[derive(Debug, Clone, Copy, PartialEq, Eq)]
pub struct HtmlReporter;

/// Generates a JUnit XML report; metrics and samples become test cases.
#[derive(Debug, Clone, PartialEq, Eq)]
pub struct JUnitReporter {
    suite_name: String,
}

impl CsvReporter {
    /// The reporter's stable name.
    pub fn name(&self) -> (n: &'static str)
        ensures
            n@ == "csv"@,
    {
        "csv"
    }
}

impl HtmlReporter {
    /// The reporter's stable name.
    pub fn name(&self) -> (n: &'static str)
        ensures
            n@ == "html"@,
    {
        "html"
    }
}

/// One metric of a JUnit report, its value formatted with six decimals.
#[derive(Debug, Clone, PartialEq, Eq)]
pub struct JUnitMetric {
    pub name: String,
    pub value_text: String,
}

/// One sample of a JUnit report, its time and score formatted with three decimals.
#[derive(Debug, Clone, PartialEq, Eq)]
pub struct JUnitSample {
    pub id: String,
    pub label: String,
    pub predicted: String,
    pub correct: bool,
    pub time_text: String,
    pub score_text: String,
}

/// XML-escaped text.
pub open spec fn x(s: Seq<char>) -> Seq<char> {
    escaped_for(Markup::JUnitXml, s)
}

/// The JUnit header: declaration, the suites element and the suite element.
pub open spec fn junit_header(suite: Seq<char>, total: nat, duration: Seq<char>, timestamp: Seq<char>) -> Seq<char> {
    "<?xml version=\"1.0\" encoding=\"UTF-8\"?>\n"@ + "<testsuites tests=\""@ + decimal(total) + "\" failures=\"0\" time=\""@
        + duration + "\">\n"@ + "  <testsuite name=\""@ + x(suite) + "\" tests=\""@ + decimal(total)
        + "\" failures=\"0\" time=\""@ + duration + "\" timestamp=\""@ + x(timestamp) + "\">\n"@
}

/// The test case of one metric.
pub open spec fn junit_metric_case(suite: Seq<char>, m: JUnitMetric) -> Seq<char> {
    "    <testcase name=\""@ + x(m.name@) + "\" classname=\""@ + x(suite) + "\" time=\"0.000\">\n"@
        + "      <system-out>value="@ + m.value_text@ + "</system-out>\n"@ + "    </testcase>\n"@
}

/// The test case of one sample; an incorrect sample carries a failure.
pub open spec fn junit_sample_case(suite: Seq<char>, s: JUnitSample) -> Seq<char> {
    "    <testcase name=\""@ + x(s.id@) + "\" classname=\""@ + x(suite + ".samples"@) + "\" time=\""@ + s.time_text@
        + "\">"@ + (if s.correct {
        Seq::empty()
    } else {
        "\n"@ + "      <failure message=\"expected="@ + x(s.label@) + " predicted="@ + x(s.predicted@) + " score="@
            + s.score_text@ + "\"/>\n"@ + "    "@
    }) + "</testcase>\n"@
}

pub open spec fn junit_metric_cases(suite: Seq<char>, ms: Seq<JUnitMetric>) -> Seq<char>
    decreases ms.len(),
{
    if ms.len() == 0 {
        Seq::empty()
    } else {
        junit_metric_cases(suite, ms.drop_last()) + junit_metric_case(suite, ms.last())
    }
}

pub open spec fn junit_sample_cases(suite: Seq<char>, ss: Seq<JUnitSample>) -> Seq<char>
    decreases ss.len(),
{
    if ss.len() == 0 {
        Seq::empty()
    } else {
        junit_sample_cases(suite, ss.drop_last()) + junit_sample_case(suite, ss.last())
    }
}

/// A JUnit report of a run.
pub open spec fn junit_document(
    suite: Seq<char>,
    timestamp: Seq<char>,
    duration: Seq<char>,
    ms: Seq<JUnitMetric>,
    ss: Seq<JUnitSample>,
) -> Seq<char> {
    junit_header(suite, ms.len(), duration, timestamp) + junit_metric_cases(suite, ms) + junit_sample_cases(suite, ss)
        + "  </testsuite>\n</testsuites>\n"@
}

/// The failure element of an incorrect sample, or nothing.
pub open spec fn junit_failure(s: JUnitSample) -> Seq<char> {
    if s.correct {
        Seq::empty()
    } else {
        "\n"@ + "      <failure message=\"expected="@ + x(s.label@) + " predicted="@ + x(s.predicted@) + " score="@
            + s.score_text@ + "\"/>\n"@ + "    "@
    }
}

fn push_failure(out: &mut String, s: &JUnitSample)
    ensures
        final(out)@ == old(out)@ + junit_failure(*s),
{
    if !s.correct {
        push_str_of(out, "\n");
        push_str_of(out, "      <failure message=\"expected=");
        push_escaped(out, Markup::JUnitXml, s.label.as_str());
        push_str_of(out, " predicted=");
        push_escaped(out, Markup::JUnitXml, s.predicted.as_str());
        push_str_of(out, " score=");
        push_str_of(out, s.score_text.as_str());
        push_str_of(out, "\"/>\n");
        push_str_of(out, "    ");
        assert(final(out)@ =~= old(out)@ + junit_failure(*s));
    } else {
        assert(old(out)@ + junit_failure(*s) =~= old(out)@);
    }
}

fn push_sample_case(out: &mut String, suite: &str, sample_class: &str, s: &JUnitSample)
    requires
        sample_class@ == suite@ + ".samples"@,
    ensures
        final(out)@ == old(out)@ + junit_sample_case(suite@, *s),
{
    push_str_of(out, "    <testcase name=\"");
    push_escaped(out, Markup::JUnitXml, s.id.as_str());
    push_str_of(out, "\" classname=\"");
    push_escaped(out, Markup::JUnitXml, sample_class);
    push_str_of(out, "\" time=\"");
    push_str_of(out, s.time_text.as_str());
    push_str_of(out, "\">");
    push_failure(out, s);
    push_str_of(out, "</testcase>\n");
    assert(junit_sample_case(suite@, *s) == "    <testcase name=\""@ + x(s.id@) + "\" classname=\""@ + x(sample_class@)
        + "\" time=\""@ + s.time_text@ + "\">"@ + junit_failure(*s) + "</testcase>\n"@);
    assert(final(out)@ =~= old(out)@ + junit_sample_case(suite@, *s));
}

fn push_metric_case(out: &mut String, suite: &str, m: &JUnitMetric)
    ensures
        final(out)@ == old(out)@ + junit_metric_case(suite@, *m),
{
    push_str_of(out, "    <testcase name=\"");
    push_escaped(out, Markup::JUnitXml, m.name.as_str());
    push_str_of(out, "\" classname=\"");
    push_escaped(out, Markup::JUnitXml, suite);
    push_str_of(out, "\" time=\"0.000\">\n");
    push_str_of(out, "      <system-out>value=");
    push_str_of(out, m.value_text.as_str());
    push_str_of(out, "</system-out>\n");
    push_str_of(out, "    </testcase>\n");
    assert(final(out)@ =~= old(out)@ + junit_metric_case(suite@, *m));
}

impl JUnitReporter {
    pub closed spec fn suite_value(&self) -> Seq<char> {
        self.suite_name@
    }

    /// A JUnit reporter with this test suite name.
    pub fn new(suite_name: &str) -> (r: Self)
        ensures
            r.suite_value() == suite_name@,
    {
        JUnitReporter { suite_name: String::from_str(suite_name) }
    }

    /// The reporter's stable name.
    pub fn name(&self) -> (n: &'static str)
        ensures
            n@ == "junit"@,
    {
        "junit"
    }

    /// The JUnit XML report of a run: its timestamp and formatted duration in
    /// seconds, one test case per metric and one per sample (failing when the
    /// sample was predicted incorrectly); every interpolated text is
    /// XML-escaped.
    pub fn report(
        &self,
        timestamp: &str,
        duration_text: &str,
        metrics: &Vec<JUnitMetric>,
        samples: &Vec<JUnitSample>,
    ) -> (r: String)
        ensures
            r@ == junit_document(self.suite_value(), timestamp@, duration_text@, metrics@, samples@),
    {
        let suite = self.suite_name.as_str();
        let mut out = String::new();
        push_str_of(&mut out, "<?xml version=\"1.0\" encoding=\"UTF-8\"?>\n");
        push_str_of(&mut out, "<testsuites tests=\"");
        push_decimal(&mut out, metrics.len() as u64);
        push_str_of(&mut out, "\" failures=\"0\" time=\"");
        push_str_of(&mut out, duration_text);
        push_str_of(&mut out, "\">\n");
        push_str_of(&mut out, "  <testsuite name=\"");
        push_escaped(&mut out, Markup::JUnitXml, suite);
        push_str_of(&mut out, "\" tests=\"");
        push_decimal(&mut out, metrics.len() as u64);
        push_str_of(&mut out, "\" failures=\"0\" time=\"");
        push_str_of(&mut out, duration_text);
        push_str_of(&mut out, "\" timestamp=\"");
        push_escaped(&mut out, Markup::JUnitXml, timestamp);
        push_str_of(&mut out, "\">\n");
        assert(out@ =~= junit_header(suite@, metrics@.len(), duration_text@, timestamp@));
        let ghost head = out@;
        let mut i: usize = 0;
        while i < metrics.len()
            invariant
                i <= metrics@.len(),
                suite@ == self.suite_value(),
                out@ == head + junit_metric_cases(suite@, metrics@.take(i as int)),
            decreases metrics@.len() - i,
        {
            let m = &metrics[i];
            push_metric_case(&mut out, suite, m);
            assert(metrics@.take(i + 1).drop_last() =~= metrics@.take(i as int));
            i = i + 1;
        }
        assert(metrics@.take(metrics@.len() as int) =~= metrics@);
        let ghost mid = out@;
        let mut sample_class = String::new();
        push_str_of(&mut sample_class, suite);
        push_str_of(&mut sample_class, ".samples");
        let mut j: usize = 0;
        while j < samples.len()
            invariant
                j <= samples@.len(),
                suite@ == self.suite_value(),
                sample_class@ == suite@ + ".samples"@,
                out@ == mid + junit_sample_cases(suite@, samples@.take(j as int)),
            decreases samples@.len() - j,
        {
            let s = &samples[j];
            push_sample_case(&mut out, suite, sample_class.as_str(), s);
            assert(samples@.take(j + 1).drop_last() =~= samples@.take(j as int));
            j = j + 1;
        }
        assert(samples@.take(samples@.len() as int) =~= samples@);
        push_str_of(&mut out, "  </testsuite>\n</testsuites>\n");
        assert(out@ =~= junit_document(suite@, timestamp@, duration_text@, metrics@, samples@));
        out
    }
}

impl Default for JUnitReporter {
    /// A reporter for the suite `bench`.
    fn default() -> (r: Self)
        ensures
            r.suite_value() == "bench"@,
    {
        JUnitReporter::new("bench")
    }
}

/// One metric of a CSV report: its name, value formatted with six decimals,
/// serialized detail (or empty) and formatted subvalues by key.
#[derive(Debug, Clone, PartialEq, Eq)]
pub struct CsvMetric {
    pub name: String,
    pub value_text: String,
    pub detail_json: String,
    pub values: Vec<(String, String)>,
}

/// One branch of a CSV report: its name and formatted metrics by key.
#[derive(Debug, Clone, PartialEq, Eq)]
pub struct CsvBranch {
    pub name: String,
    pub metrics: Vec<(String, String)>,
}

/// CSV-escaped text (double quotes doubled).
pub open spec fn c(s: Seq<char>) -> Seq<char> {
    escaped_for(Markup::Csv, s)
}

/// Rows `prefix.key,value,` of keyed values.
pub open spec fn keyed_rows(prefix: Seq<char>, vs: Seq<(String, String)>) -> Seq<char>
    decreases vs.len(),
{
    if vs.len() == 0 {
        Seq::empty()
    } else {
        keyed_rows(prefix, vs.drop_last()) + prefix + seq!['.'] + c(vs.last().0@) + seq![','] + vs.last().1@ + ",\n"@
    }
}

/// The rows of one metric: the metric row and one row per subvalue.
pub open spec fn csv_metric_rows(m: CsvMetric) -> Seq<char> {
    c(m.name@) + seq![','] + m.value_text@ + ",\""@ + c(m.detail_json@) + "\"\n"@ + keyed_rows(c(m.name@), m.values@)
}

pub open spec fn csv_metrics_rows(ms: Seq<CsvMetric>) -> Seq<char>
    decreases ms.len(),
{
    if ms.len() == 0 {
        Seq::empty()
    } else {
        csv_metrics_rows(ms.drop_last()) + csv_metric_rows(ms.last())
    }
}

pub open spec fn csv_branches_rows(bs: Seq<CsvBranch>) -> Seq<char>
    decreases bs.len(),
{
    if bs.len() == 0 {
        Seq::empty()
    } else {
        csv_branches_rows(bs.drop_last()) + keyed_rows("branch."@ + c(bs.last().name@), bs.last().metrics@)
    }
}

/// A CSV report: the header, the metric rows and the branch metric rows.
pub open spec fn csv_document(ms: Seq<CsvMetric>, bs: Seq<CsvBranch>) -> Seq<char> {
    "metric_name,value,details\n"@ + csv_metrics_rows(ms) + csv_branches_rows(bs)
}

fn push_keyed_rows(out: &mut String, prefix: &String, vs: &Vec<(String, String)>)
    ensures
        final(out)@ == old(out)@ + keyed_rows(prefix@, vs@),
{
    let ghost start = out@;
    let mut i: usize = 0;
    while i < vs.len()
        invariant
            i <= vs@.len(),
            out@ == start + keyed_rows(prefix@, vs@.take(i as int)),
        decreases vs@.len() - i,
    {
        let ghost before = out@;
        push_str_of(out, prefix.as_str());
        crate::text::push_char(out, '.');
        push_escaped(out, Markup::Csv, vs[i].0.as_str());
        crate::text::push_char(out, ',');
        push_str_of(out, vs[i].1.as_str());
        push_str_of(out, ",\n");
        assert(vs@.take(i + 1).drop_last() =~= vs@.take(i as int));
        assert(vs@.take(i + 1).last() == vs@[i as int]);
        assert(out@ =~= start + keyed_rows(prefix@, vs@.take(i + 1)));
        i = i + 1;
    }
    assert(vs@.take(vs@.len() as int) =~= vs@);
}

fn push_metric_rows(out: &mut String, m: &CsvMetric)
    ensures
        final(out)@ == old(out)@ + csv_metric_rows(*m),
{
    let mut name = String::new();
    push_escaped(&mut name, Markup::Csv, m.name.as_str());
    assert(name@ =~= c(m.name@));
    push_str_of(out, name.as_str());
    crate::text::push_char(out, ',');
    push_str_of(out, m.value_text.as_str());
    push_str_of(out, ",\"");
    push_escaped(out, Markup::Csv, m.detail_json.as_str());
    push_str_of(out, "\"\n");
    let ghost mid = out@;
    push_keyed_rows(out, &name, &m.values);
    assert(final(out)@ =~= old(out)@ + csv_metric_rows(*m));
}

impl CsvReporter {
    /// The CSV report of a run: a header, then per metric a row with its
    /// value and quoted detail followed by one row per subvalue, then one row
    /// per branch metric; names and details are CSV-escaped.
    pub fn report(&self, metrics: &Vec<CsvMetric>, branches: &Vec<CsvBranch>) -> (r: String)
        ensures
            r@ == csv_document(metrics@, branches@),
    {
        let mut out = String::new();
        push_str_of(&mut out, "metric_name,value,details\n");
        let ghost head = out@;
        let mut i: usize = 0;
        while i < metrics.len()
            invariant
                i <= metrics@.len(),
                out@ == head + csv_metrics_rows(metrics@.take(i as int)),
            decreases metrics@.len() - i,
        {
            push_metric_rows(&mut out, &metrics[i]);
            assert(metrics@.take(i + 1).drop_last() =~= metrics@.take(i as int));
            i = i + 1;
        }
        assert(metrics@.take(metrics@.len() as int) =~= metrics@);
        let ghost mid = out@;
        let mut j: usize = 0;
        while j < branches.len()
            invariant
                j <= branches@.len(),
                out@ == mid + csv_branches_rows(branches@.take(j as int)),
            decreases branches@.len() - j,
        {
            let b = &branches[j];
            let mut prefix = String::new();
            push_str_of(&mut prefix, "branch.");
            push_escaped(&mut prefix, Markup::Csv, b.name.as_str());
            push_keyed_rows(&mut out, &prefix, &b.metrics);
            assert(branches@.take(j + 1).drop_last() =~= branches@.take(j as int));
            j = j + 1;
        }
        assert(branches@.take(branches@.len() as int) =~= branches@);
        assert(out@ =~= csv_document(metrics@, branches@));
        out
    }
}

} // verus!
