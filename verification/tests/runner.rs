use rskit_bench::error::{BenchError, ErrorCode};
use rskit_bench::runner::{gate_outcome, reporting_outcome, BaselineLoad};
use rskit_bench::runner::{failure_reason, EvaluationEnd};
use rskit_bench::runner::{
    effective_concurrency, elapsed_millis, label_distribution, next_window_action, pool_name, tally_outcomes,
    BranchTally, SampleFailureContext, SampleOutcome, WindowAction,
};

#[test]
fn label_distribution_counts_sorted_labels() {
    let labels: Vec<String> = ["yes", "no", "yes", "maybe", "yes"].iter().map(|s| s.to_string()).collect();
    assert_eq!(
        label_distribution(&labels),
        vec![("maybe".to_string(), 1), ("no".to_string(), 1), ("yes".to_string(), 3)]
    );
    assert!(label_distribution(&Vec::new()).is_empty());
}

#[test]
fn tally_counts_each_outcome_once() {
    let t = tally_outcomes(&vec![SampleOutcome::Correct, SampleOutcome::Failed, SampleOutcome::Correct, SampleOutcome::Incorrect]);
    assert_eq!(t, BranchTally { correct: 2, incorrect: 1, errors: 1 });
    assert_eq!(t.total(), 4);
}

#[test]
fn submission_window_respects_concurrency() {
    assert_eq!(next_window_action(0, 4, true), WindowAction::Submit);
    assert_eq!(next_window_action(4, 4, true), WindowAction::Wait);
    assert_eq!(next_window_action(0, 0, true), WindowAction::Submit);
    assert_eq!(next_window_action(1, 0, true), WindowAction::Wait);
    assert_eq!(next_window_action(2, 4, false), WindowAction::Wait);
    assert_eq!(next_window_action(0, 4, false), WindowAction::Done);
}

#[test]
fn plan_pool_name_and_concurrency() {
    assert_eq!(pool_name("classification"), "bench-classification");
    assert_eq!(effective_concurrency(8), 8);
    assert_eq!(effective_concurrency(0), 1);
}

#[test]
fn elapsed_never_underflows() {
    assert_eq!(elapsed_millis(10, 25), 15);
    assert_eq!(elapsed_millis(25, 10), 0);
}

#[test]
fn failure_context_keeps_id_and_label() {
    let c = SampleFailureContext::from_sample("s1", "yes");
    assert_eq!(c.id, "s1");
    assert_eq!(c.label, "yes");
}

#[test]
fn ordered_keys_are_distinct_and_increasing() {
    let keys = vec!["recall".to_string(), "f1".to_string(), "recall".to_string(), "accuracy".to_string()];
    assert_eq!(
        rskit_bench::runner::ordered_keys(&keys),
        vec!["accuracy".to_string(), "f1".to_string(), "recall".to_string()]
    );
    assert!(rskit_bench::runner::ordered_keys(&Vec::new()).is_empty());
}

use rskit_bench::runner::{regression_gate, reporter_failure_context, Baseline, GateVerdict};

#[test]
fn first_run_passes_gate_without_a_baseline() {
    assert_eq!(regression_gate(Baseline::Missing, true), GateVerdict::Pass);
    assert_eq!(regression_gate(Baseline::Missing, false), GateVerdict::Pass);
}

#[test]
fn gate_fails_when_latest_run_regresses() {
    assert_eq!(regression_gate(Baseline::Compared { regressed: true }, true), GateVerdict::Regression);
    assert_eq!(regression_gate(Baseline::Compared { regressed: true }, false), GateVerdict::Pass);
    assert_eq!(regression_gate(Baseline::Compared { regressed: false }, true), GateVerdict::Pass);
}

#[test]
fn gate_fails_when_baseline_load_errors_and_gate_is_on() {
    assert_eq!(regression_gate(Baseline::LoadFailed, true), GateVerdict::BaselineUnavailable);
    assert_eq!(regression_gate(Baseline::LoadFailed, false), GateVerdict::Pass);
}

#[test]
fn reporter_failures_are_named_in_order() {
    let names = vec!["csv".to_string(), "html".to_string()];
    assert_eq!(reporter_failure_context(&names), "report generation failed for 2 reporter(s): csv, html");
    assert_eq!(reporter_failure_context(&vec!["junit".to_string()]), "report generation failed for 1 reporter(s): junit");
}

#[test]
fn evaluation_failures_record_their_reason() {
    assert_eq!(failure_reason(&EvaluationEnd::Predicted, "fast"), None);
    assert_eq!(failure_reason(&EvaluationEnd::Failed("boom".to_string()), "fast"), Some("boom".to_string()));
    assert_eq!(failure_reason(&EvaluationEnd::TimedOut, "fast"), Some("timeout in fast".to_string()));
    assert_eq!(failure_reason(&EvaluationEnd::Cancelled, "fast"), Some("cancelled".to_string()));
}

#[test]
fn reporting_outcome_keeps_the_first_error_and_names_every_failed_reporter() {
    assert_eq!(reporting_outcome(Vec::new()), Ok(()));
    let failures = vec![
        ("json".to_string(), BenchError::new(ErrorCode::Internal, "disk full")),
        ("csv".to_string(), BenchError::new(ErrorCode::InvalidInput, "bad column")),
    ];
    let err = reporting_outcome(failures).expect_err("reporters failed");
    assert_eq!(err.code(), ErrorCode::Internal);
    assert_eq!(err.message(), "report generation failed for 2 reporter(s): json, csv: disk full");
}

#[test]
fn gate_outcome_fails_only_what_the_gate_demands() {
    let regressed = || BaselineLoad::Loaded { regressed: true, summary: "f1 -0.10".to_string() };
    let err = gate_outcome(regressed(), true).expect_err("regression fails the run");
    assert_eq!(err.code(), ErrorCode::Internal);
    assert_eq!(err.message(), "Regression detected:\nf1 -0.10");
    assert_eq!(gate_outcome(regressed(), false), Ok(()));
    assert_eq!(gate_outcome(BaselineLoad::Loaded { regressed: false, summary: String::new() }, true), Ok(()));
    let missing = || BaselineLoad::Failed(BenchError::new(ErrorCode::NotFound, "no runs"));
    assert_eq!(gate_outcome(missing(), true), Ok(()));
    let broken = || BaselineLoad::Failed(BenchError::new(ErrorCode::Internal, "corrupt file"));
    let err = gate_outcome(broken(), true).expect_err("unverifiable gate fails");
    assert_eq!(err.code(), ErrorCode::Internal);
    assert_eq!(err.message(), "cannot verify regression: loading baseline run: corrupt file");
    assert_eq!(gate_outcome(broken(), false), Ok(()));
}
