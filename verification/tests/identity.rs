use rskit_bench::identity::{escape_component, judge_metric_name, threshold_metric_name};

#[test]
fn escapes_all_identity_delimiters() {
    assert_eq!(escape_component("a\\b"), "a\\\\b");
    assert_eq!(escape_component("a/b"), "a\\/b");
    assert_eq!(escape_component("a@b"), "a\\@b");
    assert_eq!(escape_component("a[b"), "a\\[b");
    assert_eq!(escape_component("a]b"), "a\\]b");
    assert_eq!(escape_component("a#b"), "a\\#b");
    assert_eq!(escape_component("a:b"), "a\\:b");
}

#[test]
fn framing_delimiters_are_backslash_escaped() {
    assert_eq!(escape_component("model]:t0.5#fp"), "model\\]\\:t0.5\\#fp");
}

#[test]
fn plain_components_are_unchanged() {
    assert_eq!(escape_component("gpt-4o-mini"), "gpt-4o-mini");
    assert_eq!(escape_component(""), "");
}

#[test]
fn judge_metric_name_joins_escaped_components() {
    let name = judge_metric_name("openai", "gpt-judge", "rskit.builtin.judge", "1.0.0", "0123456789abcdef", "0.5");
    assert_eq!(name, "llm_judge[openai/gpt-judge@rskit.builtin.judge@1.0.0#0123456789abcdef:t0.5]");
}

#[test]
fn judge_metric_names_of_distinct_components_never_alias() {
    let a = judge_metric_name("a/b", "c", "p", "1.0.0", "f", "0.5");
    let b = judge_metric_name("a", "b/c", "p", "1.0.0", "f", "0.5");
    assert_ne!(a, b);
    assert_eq!(a, "llm_judge[a\\/b/c@p@1.0.0#f:t0.5]");
    let c = judge_metric_name("p", "m]:t0.9#x", "id", "1.0.0", "f", "0.5");
    assert_eq!(c, "llm_judge[p/m\\]\\:t0.9\\#x@id@1.0.0#f:t0.5]");
}

#[test]
fn classification_identity_folds_threshold() {
    assert_eq!(threshold_metric_name("classification", "0.3"), "classification[t0.3]");
    assert_eq!(threshold_metric_name("fuzzy_match", "0.9"), "fuzzy_match[t0.9]");
    assert_ne!(threshold_metric_name("classification", "0.3"), threshold_metric_name("classification", "0.7"));
}
