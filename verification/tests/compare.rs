use rskit_bench::compare::{
    has_regression, incompatible_judges, is_incompatible_change, sample_transitions, ChangeClass, DeltaSign,
    JudgeIncompatibility, MetricDirection,
};
use rskit_bench::provenance::{JudgeMap, JudgeProvenance};

const JUDGE: &str = "llm_judge[openai/gpt-judge@rskit.builtin.judge@1.0.0#fingerprint:t0.5]";

fn sign(delta: f64) -> DeltaSign {
    if delta > 0.0 {
        DeltaSign::Positive
    } else if delta < 0.0 {
        DeltaSign::Negative
    } else {
        DeltaSign::Zero
    }
}

fn change(name: &str, old: f64, new: f64, direction: MetricDirection) -> ChangeClass {
    let delta = new - old;
    ChangeClass { name: name.to_string(), direction, delta_sign: sign(delta), significant: delta.abs() >= 0.01 }
}

fn judges(resolved: Option<&str>) -> JudgeMap {
    let mut j = JudgeProvenance::new("openai", "gpt-judge", "rskit.builtin.judge", "1.0.0", "fingerprint");
    if let Some(model) = resolved {
        j = j.with_resolved_model(model);
    }
    let mut m = JudgeMap::new();
    m.insert(JUDGE.to_string(), j);
    m
}

#[test]
fn lower_is_better_decrease_is_improvement_and_not_regression() {
    let c = change("mae", 0.30, 0.20, MetricDirection::LowerIsBetter);
    assert_eq!(c.delta_sign, DeltaSign::Negative);
    assert!(c.direction.is_improvement(c.delta_sign));
    assert!(!has_regression(&vec![c], &Vec::new()));
}

#[test]
fn lower_is_better_increase_is_regression() {
    let c = change("mae", 0.20, 0.30, MetricDirection::LowerIsBetter);
    assert_eq!(c.delta_sign, DeltaSign::Positive);
    assert!(!c.direction.is_improvement(c.delta_sign));
    assert!(has_regression(&vec![c], &Vec::new()));
}

#[test]
fn higher_is_better_still_classifies_by_increase() {
    let up = change("accuracy", 0.80, 0.90, MetricDirection::HigherIsBetter);
    let down = change("accuracy", 0.80, 0.70, MetricDirection::HigherIsBetter);
    assert!(up.direction.is_improvement(up.delta_sign));
    assert!(!down.direction.is_improvement(down.delta_sign));
    assert!(has_regression(&vec![down], &Vec::new()));
}

#[test]
fn neutral_metric_never_improves_or_regresses() {
    let up = change("token_stats", 1000.0, 2000.0, MetricDirection::Neutral);
    let dn = change("token_stats", 1000.0, 500.0, MetricDirection::Neutral);
    assert!(!up.direction.is_improvement(up.delta_sign));
    assert!(!dn.direction.is_improvement(dn.delta_sign));
    assert!(!has_regression(&vec![up], &Vec::new()));
    assert!(!has_regression(&vec![dn], &Vec::new()));
}

#[test]
fn differing_resolved_models_are_flagged_incompatible() {
    let diff = incompatible_judges(&judges(Some("gpt-4o-mini")), &judges(Some("gpt-4o")));
    assert_eq!(diff.len(), 1);
    let inc = &diff[0];
    assert_eq!(inc.metric, JUDGE);
    assert_eq!(inc.base_resolved_model.as_deref(), Some("gpt-4o-mini"));
    assert_eq!(inc.target_resolved_model.as_deref(), Some("gpt-4o"));
}

#[test]
fn some_versus_none_resolution_is_incompatible() {
    let diff = incompatible_judges(&judges(Some("gpt-4o-mini")), &judges(None));
    assert_eq!(diff.len(), 1);
    assert_eq!(diff[0].base_resolved_model.as_deref(), Some("gpt-4o-mini"));
    assert_eq!(diff[0].target_resolved_model, None);
}

#[test]
fn identical_resolved_model_is_not_flagged() {
    assert!(incompatible_judges(&judges(Some("gpt-4o")), &judges(Some("gpt-4o"))).is_empty());
    assert!(incompatible_judges(&judges(None), &judges(None)).is_empty());
    assert!(incompatible_judges(&JudgeMap::new(), &judges(Some("gpt-4o"))).is_empty());
}

#[test]
fn incompatible_judge_regression_is_excluded() {
    let incompatible = incompatible_judges(&judges(Some("gpt-4o-mini")), &judges(Some("gpt-4o")));
    assert!(!incompatible.is_empty());
    let c = change(JUDGE, 0.9, 0.1, MetricDirection::HigherIsBetter);
    assert!(!has_regression(&vec![c], &incompatible));
}

#[test]
fn compatible_metric_still_regresses_alongside_an_incompatible_judge() {
    let incompatible = incompatible_judges(&judges(Some("gpt-4o-mini")), &judges(Some("gpt-4o")));
    let changes = vec![
        change(JUDGE, 0.9, 0.1, MetricDirection::HigherIsBetter),
        change("accuracy", 0.9, 0.5, MetricDirection::HigherIsBetter),
    ];
    assert!(has_regression(&changes, &incompatible));
}

#[test]
fn incompatible_judge_subvalue_regression_is_excluded() {
    let incompatible = incompatible_judges(&judges(Some("gpt-4o-mini")), &judges(Some("gpt-4o")));
    let sub = format!("{JUDGE}.pass_rate");
    assert!(is_incompatible_change(&incompatible, &sub));
    let c = change(&sub, 0.9, 0.1, MetricDirection::HigherIsBetter);
    assert!(!has_regression(&vec![c], &incompatible));
}

#[test]
fn subvalue_prefix_must_end_at_a_dot() {
    let incompatible = vec![JudgeIncompatibility {
        metric: "judge".to_string(),
        base_resolved_model: None,
        target_resolved_model: Some("x".to_string()),
    }];
    assert!(is_incompatible_change(&incompatible, "judge"));
    assert!(is_incompatible_change(&incompatible, "judge.avg_score"));
    assert!(!is_incompatible_change(&incompatible, "judgement"));
    assert!(!is_incompatible_change(&incompatible, "jud"));
}

#[test]
fn insignificant_changes_never_regress() {
    let c = change("accuracy", 0.900, 0.895, MetricDirection::HigherIsBetter);
    assert!(!c.significant);
    assert!(!has_regression(&vec![c], &Vec::new()));
}

#[test]
fn fixed_and_regressed_samples_follow_correctness_flips() {
    let base = vec![
        ("a".to_string(), false),
        ("b".to_string(), true),
        ("c".to_string(), true),
        ("c".to_string(), false),
    ];
    let target = vec![
        ("a".to_string(), true),
        ("b".to_string(), false),
        ("c".to_string(), true),
        ("new".to_string(), false),
    ];
    let (fixed, regressed) = sample_transitions(&base, &target);
    assert_eq!(fixed, vec!["a".to_string(), "c".to_string()]);
    assert_eq!(regressed, vec!["b".to_string()]);
}

#[test]
fn default_direction_is_higher_is_better() {
    assert_eq!(MetricDirection::default(), MetricDirection::HigherIsBetter);
    assert!(!MetricDirection::HigherIsBetter.is_regression(DeltaSign::Zero));
    assert!(!MetricDirection::LowerIsBetter.is_improvement(DeltaSign::Zero));
}

use rskit_bench::compare::{change_icon, diff_summary, ChangeLine};

fn line(name: &str, old: f64, new: f64, direction: MetricDirection) -> ChangeLine {
    let delta = new - old;
    let sign_text = if delta >= 0.0 { "+" } else { "" };
    ChangeLine {
        name: name.to_string(),
        direction,
        delta_sign: sign(delta),
        old_text: format!("{old:.4}"),
        new_text: format!("{new:.4}"),
        delta_text: format!("{sign_text}{delta:.4}"),
    }
}

#[test]
fn summary_marks_unchanged_directional_metric_as_neither() {
    let summary = diff_summary("base", "target", &vec![line("f1", 0.80, 0.80, MetricDirection::HigherIsBetter)], 0, 0, &Vec::new());
    assert!(!summary.contains("⚠️"), "an unchanged metric must not render a warning: {summary}");
    assert!(!summary.contains("✅"), "an unchanged metric must not render an improvement: {summary}");
}

#[test]
fn summary_lists_changes_counts_and_incompatible_judges() {
    let incompatible = vec![JudgeIncompatibility {
        metric: "judge".to_string(),
        base_resolved_model: Some("a".to_string()),
        target_resolved_model: Some("b".to_string()),
    }];
    let summary = diff_summary(
        "base",
        "target",
        &vec![
            line("accuracy", 0.5, 0.75, MetricDirection::HigherIsBetter),
            line("mae", 0.2, 0.3, MetricDirection::LowerIsBetter),
            line("tokens", 10.0, 20.0, MetricDirection::Neutral),
        ],
        2,
        1,
        &incompatible,
    );
    assert_eq!(
        summary,
        "Comparison: base → target\n  ✅ accuracy: 0.5000 → 0.7500 (+0.2500)\n  ⚠️ mae: 0.2000 → 0.3000 (+0.1000)\n  ≈ tokens: 10.0000 → 20.0000 (+10.0000)\n  Fixed: 2 samples\n  Regressed: 1 samples\n  ⚠️ judge: judges differ; scores are not directly comparable"
    );
    assert_eq!(change_icon(MetricDirection::HigherIsBetter, DeltaSign::Zero), "➖");
}

use rskit_bench::compare::match_metrics;
use rskit_bench::counting::binary_subvalue_directions;

#[test]
fn subvalue_direction_override_classifies_per_key() {
    let dirs = binary_subvalue_directions();
    let fpr_direction = dirs.iter().find(|(k, _)| *k == "fpr").map(|(_, d)| *d).expect("fpr direction");
    assert_eq!(fpr_direction, MetricDirection::LowerIsBetter);
    let c = change("classification.fpr", 0.10, 0.30, fpr_direction);
    assert!(!c.direction.is_improvement(c.delta_sign), "a rising false-positive rate is not an improvement");
    assert!(has_regression(&vec![c], &Vec::new()));
}

#[test]
fn incompatible_metric_change_is_retained_and_summarized() {
    let incompatible = incompatible_judges(&judges(Some("gpt-4o-mini")), &judges(Some("gpt-4o-2024-08-06")));
    let changes = vec![line(JUDGE, 0.90, 0.40, MetricDirection::HigherIsBetter)];
    assert!(changes.iter().any(|c| c.name == JUDGE), "the incompatible metric delta stays in changes for display");
    let summary = diff_summary("base", "target", &changes, 0, 0, &incompatible);
    assert!(summary.contains("judges differ"), "the summary reports the incompatibility");
    assert!(summary.contains(JUDGE));
}

#[test]
fn metrics_are_matched_by_name_in_target_order() {
    let base = vec!["f1".to_string(), "mae".to_string(), "f1".to_string()];
    let target = vec!["mae".to_string(), "new".to_string(), "f1".to_string()];
    assert_eq!(match_metrics(&base, &target), vec![(0, 1), (2, 2)]);
    assert!(match_metrics(&Vec::new(), &target).is_empty());
    assert!(match_metrics(&base, &Vec::new()).is_empty());
}
