use rskit_bench::markdown::{markdown_report, order_rows_by_name, MarkdownBranchRow, MarkdownSummary};

fn summary(tag: &str) -> MarkdownSummary {
    MarkdownSummary {
        run_id: "run-1".to_string(),
        tag: tag.to_string(),
        positives: 3,
        negatives: 2,
        threshold_text: "0.50".to_string(),
        precision_text: "0.667".to_string(),
        recall_text: "0.667".to_string(),
        f1_text: "0.667".to_string(),
        accuracy_text: "0.600".to_string(),
        tp: 2,
        fn_: 1,
        fp: 1,
        tn: 1,
    }
}

#[test]
fn markdown_report_lays_out_banner_rates_and_confusion() {
    let rule = "═".repeat(65);
    let expected = [
        rule.as_str(),
        "  BENCH RUN: run-1",
        "  Samples: 5 (3 positive, 2 negative) | Threshold: 0.50 | Tag: nightly",
        rule.as_str(),
        "",
        "OVERALL ACCURACY",
        "  Precision: 0.667    Recall: 0.667    F1: 0.667    Accuracy: 0.600",
        "",
        "CONFUSION MATRIX (threshold=0.50)",
        "                 Predicted Positive    Predicted Negative",
        "  Actual Positive        2 (TP)               1 (FN)",
        "  Actual Negative        1 (FP)               1 (TN)",
        "",
    ]
    .join("\n");
    assert_eq!(markdown_report(&summary("nightly"), &Vec::new()), expected);
    assert!(markdown_report(&summary(""), &Vec::new()).contains("| Threshold: 0.50\n"));
}

fn row(name: &str, f1: &str) -> MarkdownBranchRow {
    MarkdownBranchRow {
        name: name.to_string(),
        f1_text: f1.to_string(),
        avg_positive_text: "0.900".to_string(),
        avg_negative_text: "0.200".to_string(),
        separation_text: "0.700".to_string(),
    }
}

#[test]
fn markdown_report_lists_branches_ordered_by_name() {
    let rows = vec![row("slow", "0.600"), row("fast", "0.800")];
    let text = markdown_report(&summary(""), &rows);
    let tail = [
        "  Actual Negative        1 (FP)               1 (TN)",
        "",
        "PER-BRANCH BREAKDOWN",
        "  Branch                F1    Avg Pos Score   Avg Neg Score   Separation",
        &format!("  {}", "─".repeat(72)),
        "  fast               0.800            0.900           0.200        0.700",
        "  slow               0.600            0.900           0.200        0.700",
        "",
    ]
    .join("\n");
    assert!(text.ends_with(&tail), "{text}");
}

#[test]
fn branch_rows_are_ordered_by_name() {
    let rows = vec![row("b", "1"), row("a", "2"), row("c", "3"), row("B", "4")];
    let names: Vec<String> = order_rows_by_name(&rows).into_iter().map(|r| r.name).collect();
    assert_eq!(names, vec!["B", "a", "b", "c"]);
    assert!(order_rows_by_name(&Vec::new()).is_empty());
}

#[test]
fn legacy_report_helpers_render_empty_branch_and_per_branch_cases() {
    let (threshold, precision, recall, f1, accuracy) = (0.5_f64, 0.5_f64, 1.0_f64, 0.667_f64, 0.5_f64);
    let result = MarkdownSummary {
        run_id: "legacy-run".to_string(),
        tag: "candidate".to_string(),
        positives: 1,
        negatives: 1,
        threshold_text: format!("{threshold:.2}"),
        precision_text: format!("{precision:.3}"),
        recall_text: format!("{recall:.3}"),
        f1_text: format!("{f1:.3}"),
        accuracy_text: format!("{accuracy:.3}"),
        tp: 1,
        fn_: 0,
        fp: 1,
        tn: 0,
    };
    let (avg_pos, avg_neg) = (0.9_f64, 0.0_f64);
    let per_branch = vec![MarkdownBranchRow {
        name: "branch-b".to_string(),
        f1_text: format!("{:.3}", 0.667_f64),
        avg_positive_text: format!("{avg_pos:.3}"),
        avg_negative_text: format!("{avg_neg:.3}"),
        separation_text: format!("{:.3}", avg_pos - avg_neg),
    }];

    let report = markdown_report(&result, &per_branch);
    assert!(report.contains("BENCH RUN: legacy-run"));
    assert!(report.contains("Tag: candidate"));
    assert!(report.contains("PER-BRANCH BREAKDOWN"));
    assert!(report.contains("branch-b"));

    let without_branches = MarkdownSummary { tag: String::new(), ..result };
    let report = markdown_report(&without_branches, &Vec::new());
    assert!(!report.contains("PER-BRANCH BREAKDOWN"));
    assert!(!report.contains("Tag:"));
}
