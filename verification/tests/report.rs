use rskit_bench::report::{CsvBranch, CsvMetric, CsvReporter, HtmlReporter, JUnitMetric, JUnitReporter, JUnitSample};

#[test]
fn junit_report_lists_metrics_and_failing_samples() {
    let r = JUnitReporter::new("suite<&>");
    assert_eq!(r.name(), "junit");
    let metrics = vec![JUnitMetric { name: "f1".to_string(), value_text: "0.500000".to_string() }];
    let samples = vec![
        JUnitSample {
            id: "s1".to_string(),
            label: "yes".to_string(),
            predicted: "yes".to_string(),
            correct: true,
            time_text: "0.010".to_string(),
            score_text: "0.900".to_string(),
        },
        JUnitSample {
            id: "s\"2".to_string(),
            label: "<no>".to_string(),
            predicted: "yes".to_string(),
            correct: false,
            time_text: "0.020".to_string(),
            score_text: "0.100".to_string(),
        },
    ];
    let xml = r.report("2026-01-01T00:00:00Z", "1.234", &metrics, &samples);
    let expected = [
        "<?xml version=\"1.0\" encoding=\"UTF-8\"?>\n",
        "<testsuites tests=\"1\" failures=\"0\" time=\"1.234\">\n",
        "  <testsuite name=\"suite&lt;&amp;&gt;\" tests=\"1\" failures=\"0\" time=\"1.234\" timestamp=\"2026-01-01T00:00:00Z\">\n",
        "    <testcase name=\"f1\" classname=\"suite&lt;&amp;&gt;\" time=\"0.000\">\n",
        "      <system-out>value=0.500000</system-out>\n",
        "    </testcase>\n",
        "    <testcase name=\"s1\" classname=\"suite&lt;&amp;&gt;.samples\" time=\"0.010\"></testcase>\n",
        "    <testcase name=\"s&quot;2\" classname=\"suite&lt;&amp;&gt;.samples\" time=\"0.020\">\n",
        "      <failure message=\"expected=&lt;no&gt; predicted=yes score=0.100\"/>\n",
        "    </testcase>\n",
        "  </testsuite>\n",
        "</testsuites>\n",
    ]
    .concat();
    assert_eq!(xml, expected);
}

#[test]
fn junit_default_suite_is_bench() {
    let xml = JUnitReporter::default().report("t", "0.000", &Vec::new(), &Vec::new());
    assert!(xml.contains("<testsuite name=\"bench\" tests=\"0\""));
}

#[test]
fn csv_report_rows() {
    assert_eq!(CsvReporter.name(), "csv");
    assert_eq!(HtmlReporter.name(), "html");
    let metrics = vec![CsvMetric {
        name: "f\"1".to_string(),
        value_text: "0.500000".to_string(),
        detail_json: "{\"k\":\"v\"}".to_string(),
        values: vec![("precision".to_string(), "0.250000".to_string())],
    }];
    let branches = vec![CsvBranch { name: "primary".to_string(), metrics: vec![("accuracy".to_string(), "1.000000".to_string())] }];
    let csv = CsvReporter.report(&metrics, &branches);
    assert_eq!(
        csv,
        "metric_name,value,details\nf\"\"1,0.500000,\"{\"\"k\"\":\"\"v\"\"}\"\nf\"\"1.precision,0.250000,\nbranch.primary.accuracy,1.000000,\n"
    );
}
