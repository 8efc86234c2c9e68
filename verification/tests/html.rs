use rskit_bench::html::{HtmlBranchRow, HtmlMetricRow, HtmlReport, HtmlSampleRow};
use rskit_bench::report::HtmlReporter;

fn sample(id: &str, label: &str, correct: bool, error: &str) -> HtmlSampleRow {
    HtmlSampleRow {
        id: id.to_string(),
        label: label.to_string(),
        predicted: "no".to_string(),
        score_text: "0.2500".to_string(),
        correct,
        duration_ms: 12,
        error: error.to_string(),
    }
}

#[test]
fn html_sample_section_escapes_fields_and_marks_correctness() {
    let s = HtmlReporter.samples_section(&vec![sample("s<1>", "yes", false, ""), sample("s2", "no", true, "t&o")]);
    let expected = [
        "<section><h2>Sample Details</h2><div class=\"card samples-table\"><table>",
        "<tr><th>ID</th><th>Label</th><th>Predicted</th><th>Score</th><th>Correct</th><th>Duration</th><th>Error</th></tr>",
        "<tr><td>s&lt;1&gt;</td><td>yes</td><td>no</td><td>0.2500</td><td class=\"incorrect\"><span class=\"badge badge-err\">✗</span></td><td>12ms</td><td>—</td></tr>",
        "<tr><td>s2</td><td>no</td><td>no</td><td>0.2500</td><td class=\"correct\"><span class=\"badge badge-ok\">✓</span></td><td>12ms</td><td>t&amp;o</td></tr>",
        "</table></div></section>",
    ]
    .concat();
    assert_eq!(s, expected);
    assert_eq!(HtmlReporter.samples_section(&Vec::new()), "");
}

#[test]
fn html_metric_section_lists_per_label_values() {
    let rows = vec![
        HtmlMetricRow {
            name: "f1".to_string(),
            value_text: "0.5000".to_string(),
            values: vec![("a&b".to_string(), "0.2500".to_string()), ("c".to_string(), "1.0000".to_string())],
        },
        HtmlMetricRow { name: "mae".to_string(), value_text: "0.1000".to_string(), values: Vec::new() },
    ];
    let expected = [
        "<section><h2>Metrics</h2><div class=\"card\"><table>",
        "<tr><th>Metric</th><th>Value</th><th>Per-Label</th></tr>",
        "<tr><td>f1</td><td>0.5000</td><td>a&amp;b: 0.2500, c: 1.0000</td></tr>",
        "<tr><td>mae</td><td>0.1000</td><td>—</td></tr>",
        "</table></div></section>",
    ]
    .concat();
    assert_eq!(HtmlReporter.metrics_section(&rows), expected);
    assert_eq!(HtmlReporter.metrics_section(&Vec::new()), "");
}

#[test]
fn html_branch_section_has_a_column_per_metric_key() {
    let rows = vec![HtmlBranchRow {
        name: "fast".to_string(),
        tier: -1,
        cells: vec!["0.9000".to_string()],
        avg_positive_text: "0.8000".to_string(),
        avg_negative_text: "0.2000".to_string(),
        duration_ms: 5,
        errors: 0,
    }];
    let expected = [
        "<section><h2>Branch Comparison</h2><div class=\"card\"><table>",
        "<tr><th>Branch</th><th>Tier</th><th>a&lt;c</th><th>Avg+</th><th>Avg−</th><th>Duration</th><th>Errors</th></tr>",
        "<tr><td>fast</td><td>-1</td><td>0.9000</td><td>0.8000</td><td>0.2000</td><td>5ms</td><td>0</td></tr>",
        "</table></div></section>",
    ]
    .concat();
    assert_eq!(HtmlReporter.branches_section(&vec!["a<c".to_string()], &rows), expected);
    assert_eq!(HtmlReporter.branches_section(&vec!["acc".to_string()], &Vec::new()), "");
}

#[test]
fn html_summary_counts_labels_and_accuracy() {
    let s = HtmlReporter.summary_section(
        "ds",
        "1",
        2,
        &vec![("no".to_string(), 1), ("y<s".to_string(), 1)],
        &vec![true, false],
        "50.0",
    );
    let expected = [
        "<section><h2>Summary</h2><div class=\"card\"><table>",
        "<tr><th>Dataset</th><td>ds v1</td></tr>",
        "<tr><th>Samples</th><td>2</td></tr>",
        "<tr><th>Labels</th><td>no: 1, y&lt;s: 1</td></tr>",
        "<tr><th>Accuracy</th><td>1 / 2 (50.0%)</td></tr>",
        "</table></div></section>",
    ]
    .concat();
    assert_eq!(s, expected);
    let bare = HtmlReporter.summary_section("ds", "1", 0, &Vec::new(), &Vec::new(), "0.0");
    assert_eq!(
        bare,
        "<section><h2>Summary</h2><div class=\"card\"><table><tr><th>Dataset</th><td>ds v1</td></tr><tr><th>Samples</th><td>0</td></tr></table></div></section>"
    );
}

#[test]
fn html_charts_embed_specs_as_inert_json() {
    let s = HtmlReporter.charts_section(&vec![("score_distribution".to_string(), "{}".to_string())]);
    assert_eq!(
        s,
        "<section><h2>Charts</h2><div class=\"chart-grid\"><div class=\"chart-card\"><h3>score distribution</h3><div id=\"chart-0\"></div><script type=\"application/json\" id=\"chart-0-spec\">{}</script></div></div></section>"
    );
    assert_eq!(HtmlReporter.charts_section(&Vec::new()), "");
}

#[test]
fn html_head_escapes_tag_id_and_timestamp() {
    let s = HtmlReporter.head("<x>", "id&1", "ts", 7);
    assert!(s.starts_with("<!DOCTYPE html>\n<html lang=\"en\">"));
    assert!(s.contains("<title>Bench Report — &lt;x&gt;</title>"));
    assert!(s.contains("<h1>Bench Report — &lt;x&gt;</h1>"));
    assert!(s.contains("<p>Run id&amp;1 &middot; ts &middot; 7ms</p>"));
    assert!(s.ends_with("<div class=\"container\">\n"));
    assert!(HtmlReporter.head("", "i", "t", 0).contains("<title>Bench Report</title>"));
}

#[test]
fn html_report_renders_malicious_label_as_inert_text() {
    let report = HtmlReport {
        tag: String::new(),
        id: "run-1".to_string(),
        timestamp: "2026-01-01T00:00:00Z".to_string(),
        duration_ms: 3,
        dataset_name: "ds".to_string(),
        dataset_version: "1".to_string(),
        sample_count: 1,
        labels: vec![("<script>".to_string(), 1)],
        correct: vec![true],
        percent: "100.0".to_string(),
        metrics: Vec::new(),
        charts: vec![("roc".to_string(), "{\"mark\":\"line\"}".to_string())],
        branch_keys: Vec::new(),
        branches: Vec::new(),
        samples: vec![sample("s1", "<script>", true, "")],
    };
    let html = HtmlReporter.report(&report);
    assert!(!html.contains("<script>alert"));
    assert!(!html.contains("<td><script>"));
    assert!(html.contains("&lt;script&gt;: 1"));
    assert!(html.contains("<td>&lt;script&gt;</td>"));
    assert!(html.contains("<script type=\"application/json\" id=\"chart-0-spec\">{\"mark\":\"line\"}</script>"));
    assert!(html.contains("vegaEmbed('#chart-0'"));
    assert!(html.ends_with("</div>\n</body>\n</html>\n"));
    let head = HtmlReporter.head("", "run-1", "2026-01-01T00:00:00Z", 3);
    assert!(html.starts_with(&head));
}
