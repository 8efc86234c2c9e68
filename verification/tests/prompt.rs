use sha2::Digest;
use rskit_bench::error::ErrorCode;
use rskit_bench::prompt::{is_valid_judge_template, render_template, JudgePrompt, PromptVersion};
use semver::Version;

#[test]
fn prompt_custom_prompt_rejects_unknown_placeholder() {
    let err = JudgePrompt::parse("custom", "1.0.0", "score {{mystery}}").expect_err("unknown token");
    assert_eq!(err.code(), ErrorCode::InvalidInput);
}

#[test]
fn prompt_custom_prompt_rejects_omitted_reference_placeholder() {
    let err = JudgePrompt::parse("custom", "1.0.0", "rate {{prediction}}").expect_err("omitted reference");
    assert_eq!(err.code(), ErrorCode::InvalidInput);
}

#[test]
fn prompt_custom_prompt_rejects_omitted_prediction_placeholder() {
    let err = JudgePrompt::parse("custom", "1.0.0", "rate against {{reference}}").expect_err("omitted prediction");
    assert_eq!(err.code(), ErrorCode::InvalidInput);
}

#[test]
fn prompt_custom_prompt_rejects_template_without_any_placeholder() {
    let err = JudgePrompt::parse("custom", "1.0.0", "just score it").expect_err("no placeholders");
    assert_eq!(err.code(), ErrorCode::InvalidInput);
}

#[test]
fn prompt_custom_prompt_rejects_non_semver_version() {
    let err = JudgePrompt::parse("custom", "2", "{{prediction}} {{reference}}").expect_err("non-semver version");
    assert_eq!(err.code(), ErrorCode::InvalidInput);
}

#[test]
fn prompt_custom_prompt_renders_both_placeholders() {
    let prompt = JudgePrompt::parse("custom", "2.0.0", "P:{{prediction}} R:{{reference}}").expect("prompt parses");
    assert_eq!(prompt.render("yes", "no"), "P:yes R:no");
    assert_eq!(prompt.version(), &PromptVersion::new(2, 0, 0));
    assert_eq!(prompt.id(), "custom");
}

#[test]
fn prompt_default_prompt_is_built_in_and_renders_both_placeholders() {
    let prompt = JudgePrompt::default();
    assert_eq!(prompt.id(), "rskit.builtin.judge");
    assert_eq!(prompt.version(), &PromptVersion::new(1, 0, 0));
    let rendered = prompt.render("cand", "ref");
    assert!(rendered.contains("cand"));
    assert!(rendered.contains("ref"));
}

#[test]
fn prompt_default_prompt_is_internally_valid() {
    let prompt = JudgePrompt::default();
    assert!(is_valid_judge_template(prompt.template()));
}

#[test]
fn prompt_system_prompt_is_part_of_the_versioned_prompt() {
    let prompt = JudgePrompt::default().with_system_prompt("custom rubric");
    assert_eq!(prompt.system_prompt(), "custom rubric");
    assert_eq!(prompt.id(), "rskit.builtin.judge");
}

#[test]
fn judge_custom_prompt_rejects_unknown_placeholder() {
    let err = JudgePrompt::parse("custom", "1.0.0", "score {{mystery}}").expect_err("unknown token");
    assert_eq!(err.code(), ErrorCode::InvalidInput);
}

#[test]
fn judge_custom_prompt_rejects_omitted_reference_placeholder() {
    let err = JudgePrompt::parse("custom", "1.0.0", "rate {{prediction}}").expect_err("omitted reference");
    assert_eq!(err.code(), ErrorCode::InvalidInput);
}

#[test]
fn judge_custom_prompt_rejects_omitted_prediction_placeholder() {
    let err = JudgePrompt::parse("custom", "1.0.0", "rate against {{reference}}").expect_err("omitted prediction");
    assert_eq!(err.code(), ErrorCode::InvalidInput);
}

#[test]
fn judge_custom_prompt_rejects_template_without_any_placeholder() {
    let err = JudgePrompt::parse("custom", "1.0.0", "just score it").expect_err("no placeholders");
    assert_eq!(err.code(), ErrorCode::InvalidInput);
}

#[test]
fn judge_custom_prompt_rejects_non_semver_version() {
    let err = JudgePrompt::parse("custom", "2", "{{prediction}} {{reference}}").expect_err("non-semver version");
    assert_eq!(err.code(), ErrorCode::InvalidInput);
}

#[test]
fn judge_custom_prompt_renders_both_placeholders() {
    let prompt = JudgePrompt::parse("custom", "2.0.0", "P:{{prediction}} R:{{reference}}").expect("prompt parses");
    assert_eq!(prompt.render("yes", "no"), "P:yes R:no");
    assert_eq!(prompt.version(), &PromptVersion::new(2, 0, 0));
    assert_eq!(prompt.id(), "custom");
}

#[test]
fn judge_default_prompt_is_built_in_and_renders_both_placeholders() {
    let prompt = JudgePrompt::default();
    assert_eq!(prompt.id(), "rskit.builtin.judge");
    assert_eq!(prompt.version(), &PromptVersion::new(1, 0, 0));
    let rendered = prompt.render("cand", "ref");
    assert!(rendered.contains("cand"));
    assert!(rendered.contains("ref"));
}

#[test]
fn judge_default_prompt_is_internally_valid() {
    let prompt = JudgePrompt::default();
    assert!(is_valid_judge_template(prompt.template()));
}

#[test]
fn judge_system_prompt_is_part_of_the_versioned_prompt() {
    let prompt = JudgePrompt::default().with_system_prompt("custom rubric");
    assert_eq!(prompt.system_prompt(), "custom rubric");
    assert_eq!(prompt.id(), "rskit.builtin.judge");
}

#[test]
fn fingerprint_tracks_the_whole_rubric() {
    let a = JudgePrompt::default();
    let b = JudgePrompt::default().with_system_prompt("other rubric");
    assert_eq!(a.fingerprint().len(), 16);
    assert!(a.fingerprint().chars().all(|c| c.is_ascii_hexdigit()));
    assert_eq!(a.fingerprint(), JudgePrompt::default().fingerprint());
    assert_ne!(a.fingerprint(), b.fingerprint());
    let c = JudgePrompt::parse("rskit.builtin.judge", "1.0.0", "{{prediction}} vs {{reference}}").expect("parses");
    assert_ne!(a.fingerprint(), c.fingerprint());
}

#[test]
fn fingerprint_is_the_framed_digest_prefix() {
    let p = JudgePrompt::parse("x", "1.0.0", "{{prediction}}|{{reference}}").expect("parses").with_system_prompt("sys");
    let mut stream = Vec::new();
    for (tag, data) in [(&b"template"[..], p.template().as_bytes()), (&b"system"[..], p.system_prompt().as_bytes())] {
        stream.extend_from_slice(&(tag.len() as u64).to_le_bytes());
        stream.extend_from_slice(tag);
        stream.extend_from_slice(&(data.len() as u64).to_le_bytes());
        stream.extend_from_slice(data);
    }
    let hex: String = sha2::Sha256::digest(&stream).iter().map(|b| format!("{b:02x}")).collect();
    assert_eq!(p.fingerprint(), hex[..16].to_string());
}

#[test]
fn render_keeps_unclosed_and_unknown_placeholders_as_written() {
    assert_eq!(render_template("a {{prediction", "x", "y"), "a {{prediction");
    assert_eq!(render_template("{{other}} {{reference}}", "x", "y"), "{{other}} y");
    assert_eq!(render_template("{{prediction}}{{prediction}}", "x", "y"), "xx");
    assert_eq!(render_template("{{{prediction}}}", "x", "y"), "{{{prediction}}}");
}

#[test]
fn template_validation_requires_exactly_both_placeholders() {
    assert!(is_valid_judge_template("{{reference}} then {{prediction}}"));
    assert!(is_valid_judge_template("{{prediction}}{{reference}}{{prediction}}"));
    assert!(!is_valid_judge_template("{{prediction}} {{reference}} {{extra}}"));
    assert!(!is_valid_judge_template("{{ prediction }} {{reference}}"));
    assert!(!is_valid_judge_template(""));
}

#[test]
fn prompt_errors_explain_the_fault() {
    let err = JudgePrompt::parse("custom", "2", "{{prediction}} {{reference}}").expect_err("non-semver version");
    assert!(err.message().starts_with("llm_judge: invalid prompt version: "));
    assert!(err.message().len() > "llm_judge: invalid prompt version: ".len());
    let err = JudgePrompt::parse("custom", "1.0.0", "just score it").expect_err("no placeholders");
    assert_eq!(
        err.message(),
        "llm_judge: invalid prompt template: template must reference exactly {{prediction}} and {{reference}} (offending placeholder \"prediction\")"
    );
    let err = JudgePrompt::parse("custom", "1.0.0", "{{prediction}} {{reference}} {{mys\"tery}}").expect_err("unknown");
    assert!(err.message().ends_with("(offending placeholder \"mys\\\"tery\")"));
    let err = JudgePrompt::parse("custom", "1.0.0", "rate {{prediction}}").expect_err("omitted reference");
    assert!(err.message().ends_with("(offending placeholder \"reference\")"));
}

#[test]
fn prompt_records_the_parsed_version() {
    let template = "{{prediction}} {{reference}}";
    let prompt = JudgePrompt::parse("custom", "2.1.0-rc.1+b7", template).expect("prompt parses");
    let parsed = Version::parse("2.1.0-rc.1+b7").unwrap();
    let v = prompt.version();
    assert_eq!((v.major, v.minor, v.patch), (parsed.major, parsed.minor, parsed.patch));
    assert_eq!(v.pre.as_str(), "rc.1");
    assert_eq!(v.build.as_str(), "b7");
    assert_eq!(v.to_text(), parsed.to_string());
    assert_eq!(JudgePrompt::default().version().to_text(), "1.0.0");
    assert_eq!(*JudgePrompt::default().version(), PromptVersion::new(1, 0, 0));
    let err = JudgePrompt::parse("custom", "1.x", template).expect_err("not semver");
    let expected = format!("llm_judge: invalid prompt version: {}", Version::parse("1.x").unwrap_err());
    assert_eq!(err.message(), expected);
}
