use rskit_bench::error::ErrorCode;
use rskit_bench::identity::judge_metric_name;
use rskit_bench::judge::{
    check_prompt_size, check_reply_size, screen_reply, check_verdict_keys, ensure_complete_reason, first_duplicate_verdict_key,
    judge_detail, judges_from_details, requested_model, resolve_reported_model, strip_code_fence, validate_judge_config, verdict_body,
    FinishReason, JudgeDetail, VerdictKey, MAX_REPLY_BYTES,
};

fn no_detail() -> JudgeDetail {
    JudgeDetail {
        provider: None,
        model: None,
        prompt_id: None,
        prompt_version: None,
        prompt_fingerprint: None,
        resolved_model: None,
    }
}

fn detail(resolved: Option<&str>) -> JudgeDetail {
    JudgeDetail {
        provider: Some("fake_llm".to_string()),
        model: Some("m".to_string()),
        prompt_id: Some("p".to_string()),
        prompt_version: Some("1.0.0".to_string()),
        prompt_fingerprint: Some("abc123".to_string()),
        resolved_model: resolved.map(str::to_string),
    }
}

fn reads_judge_detail() {
    let results = vec![
        ("exact_match".to_string(), no_detail()),
        ("llm_judge[fake_llm/m@p@1.0.0#abc123]".to_string(), detail(None)),
    ];
    let judges = judges_from_details(&results);
    let judge = judges.get("llm_judge[fake_llm/m@p@1.0.0#abc123]").expect("judge found");
    assert_eq!(judge.provider, "fake_llm");
    assert_eq!(judge.model, "m");
    assert_eq!(judge.prompt_id, "p");
    assert_eq!(judge.prompt_version, "1.0.0");
    assert_eq!(judge.prompt_fingerprint, "abc123");
}

fn empty_without_judge() {
    let results = vec![("exact_match".to_string(), no_detail())];
    assert!(judges_from_details(&results).is_empty());
}

fn captures_resolved_model() {
    let results = vec![("llm_judge[fake_llm/m@p@1.0.0#abc123:t0.5]".to_string(), detail(Some("m-0613")))];
    let judges = judges_from_details(&results);
    let judge = judges.entry(0).1;
    assert_eq!(judge.resolved_model.as_deref(), Some("m-0613"));
}

#[test]
fn judge_judges_from_results_reads_judge_detail() {
    reads_judge_detail();
}

#[test]
fn metric_judges_from_results_reads_judge_detail() {
    reads_judge_detail();
}

#[test]
fn judge_judges_from_results_empty_without_judge() {
    empty_without_judge();
}

#[test]
fn metric_judges_from_results_empty_without_judge() {
    empty_without_judge();
}

#[test]
fn judge_judges_from_results_captures_resolved_model() {
    captures_resolved_model();
}

#[test]
fn metric_judges_from_results_captures_resolved_model() {
    captures_resolved_model();
}

#[test]
fn incomplete_judge_detail_is_skipped_and_later_results_replace_earlier() {
    let mut partial = detail(None);
    partial.prompt_fingerprint = None;
    let mut other = detail(None);
    other.model = Some("m2".to_string());
    let results = vec![
        ("j".to_string(), detail(None)),
        ("k".to_string(), partial),
        ("j".to_string(), other),
    ];
    let judges = judges_from_details(&results);
    assert_eq!(judges.len(), 1);
    assert_eq!(judges.get("j").expect("j").model, "m2");
}

#[test]
fn recorded_detail_round_trips_into_provenance() {
    let d = judge_detail("fake_llm", "m", "p", "1.0.0", "abc123", Some("m-0613"));
    assert_eq!(d.resolved_model.as_deref(), Some("m-0613"));
    let same = judge_detail("fake_llm", "m", "p", "1.0.0", "abc123", Some("m"));
    assert_eq!(same.resolved_model, None);
    let judges = judges_from_details(&vec![("name".to_string(), d)]);
    let j = judges.get("name").expect("lifted");
    assert_eq!(j.provider, "fake_llm");
    assert_eq!(j.resolved_model.as_deref(), Some("m-0613"));
}

#[test]
fn only_a_natural_stop_is_a_complete_reply() {
    assert!(ensure_complete_reason(None).is_ok());
    assert!(ensure_complete_reason(Some(FinishReason::Stop)).is_ok());
    for reason in [
        FinishReason::Length,
        FinishReason::ContentFilter,
        FinishReason::ToolUse,
        FinishReason::Error,
        FinishReason::Cancelled,
    ] {
        let err = ensure_complete_reason(Some(reason)).expect_err("incomplete");
        assert_eq!(err.code(), ErrorCode::ExternalService);
    }
}

#[test]
fn code_fences_are_stripped() {
    assert_eq!(strip_code_fence("```json\n{\"score\": 1}\n```"), "{\"score\": 1}");
    assert_eq!(strip_code_fence("```\n {\"score\": 1} \n```  "), "{\"score\": 1}");
    assert_eq!(strip_code_fence("{\"score\": 1}"), "{\"score\": 1}");
    assert_eq!(strip_code_fence("```json {\"score\": 1}"), "```json {\"score\": 1}");
    assert_eq!(strip_code_fence("```{\"a\":1}```"), "{\"a\":1}");
    assert_eq!(verdict_body("  ```json\n{\"score\": 0.5}\n```\n"), "{\"score\": 0.5}");
}

#[test]
fn duplicate_verdict_keys_are_rejected_case_insensitively() {
    let keys = |ks: &[&str]| ks.iter().map(|k| k.to_string()).collect::<Vec<_>>();
    assert_eq!(first_duplicate_verdict_key(&keys(&["score", "rationale"])), None);
    assert_eq!(first_duplicate_verdict_key(&keys(&["score", "Score"])), Some(VerdictKey::Score));
    assert_eq!(
        first_duplicate_verdict_key(&keys(&["RATIONALE", "score", "rationale", "score"])),
        Some(VerdictKey::Rationale)
    );
    assert_eq!(first_duplicate_verdict_key(&keys(&["meta", "meta", "score"])), None);
    let err = check_verdict_keys(&keys(&["score", "sCoRe"])).expect_err("duplicate");
    assert_eq!(err.code(), ErrorCode::ExternalService);
    assert!(check_verdict_keys(&keys(&["score"])).is_ok());
}

#[test]
fn reported_models_must_be_consistent() {
    let ms = |ks: &[&str]| ks.iter().map(|k| k.to_string()).collect::<Vec<_>>();
    assert_eq!(resolve_reported_model(&ms(&["", ""])).expect("none reported"), None);
    assert_eq!(resolve_reported_model(&ms(&[])).expect("no samples"), None);
    assert_eq!(resolve_reported_model(&ms(&["m", "m"])).expect("same"), Some("m".to_string()));
    let mixed = resolve_reported_model(&ms(&["m", "n"])).expect_err("mixed");
    assert_eq!(mixed.code(), ErrorCode::ExternalService);
    let partial = resolve_reported_model(&ms(&["m", ""])).expect_err("partial");
    assert_eq!(partial.code(), ErrorCode::ExternalService);
    assert!(partial.message().contains("some samples"));
}

#[test]
fn judge_configuration_faults_are_invalid_input() {
    assert!(validate_judge_config(4, "m", false, true, 1024).is_ok());
    for (c, m, retry, timeout, max) in [
        (0, "m", false, true, 1024),
        (4, "", false, true, 1024),
        (4, "m", true, true, 1024),
        (4, "m", false, false, 1024),
        (4, "m", false, true, 0),
    ] {
        let err = validate_judge_config(c, m, retry, timeout, max).expect_err("invalid");
        assert_eq!(err.code(), ErrorCode::InvalidInput);
    }
}

#[test]
fn size_bounds_are_enforced() {
    assert!(check_prompt_size("abcd", 4).is_ok());
    assert_eq!(check_prompt_size("abcde", 4).expect_err("too big").code(), ErrorCode::InvalidInput);
    assert!(check_reply_size(&"x".repeat(MAX_REPLY_BYTES)).is_ok());
    let err = check_reply_size(&"x".repeat(MAX_REPLY_BYTES + 1)).expect_err("too long");
    assert_eq!(err.code(), ErrorCode::ExternalService);
}

#[test]
fn judge_error_messages_name_the_fault() {
    assert_eq!(
        ensure_complete_reason(Some(FinishReason::Length)).expect_err("truncated").message(),
        "llm_judge: judge completion did not finish normally (stop reason Length); its reply is not a trustworthy verdict"
    );
    assert_eq!(
        check_reply_size(&"x".repeat(MAX_REPLY_BYTES + 1)).expect_err("too long").message(),
        "llm_judge: judge reply of 65537 bytes exceeds the 65536-byte bound"
    );
    assert_eq!(
        check_prompt_size("abcde", 4).expect_err("too big").message(),
        "llm_judge: rendered prompt of 5 bytes exceeds the 4-byte bound; the reference/prediction labels are too large to judge"
    );
    assert_eq!(
        validate_judge_config(0, "m", false, true, 1024).expect_err("no concurrency").message(),
        "llm_judge: concurrency must be greater than zero"
    );
    assert!(validate_judge_config(4, "m", true, true, 1024)
        .expect_err("retry")
        .message()
        .contains("a judge call is not idempotent"));
    let keys = vec!["score".to_string(), "Score".to_string()];
    assert_eq!(
        check_verdict_keys(&keys).expect_err("duplicate").message(),
        "llm_judge: judge reply repeats the `score` verdict key; an untrusted judge must not choose its score by duplicating a field"
    );
    let mixed = resolve_reported_model(&vec!["m".to_string(), "n".to_string()]).expect_err("mixed");
    assert_eq!(
        mixed.message(),
        "llm_judge: provider served mixed models within one run (\"m\" and \"n\"); scores are not comparable"
    );
}

#[test]
fn screen_reply_refuses_in_order_and_hands_back_the_unfenced_body() {
    let err = screen_reply(Some(FinishReason::Length), &"x".repeat(MAX_REPLY_BYTES + 1)).expect_err("truncated");
    assert_eq!(err.code(), ErrorCode::ExternalService);
    assert!(err.message().contains("stop reason Length"));
    let err = screen_reply(Some(FinishReason::Stop), &"x".repeat(MAX_REPLY_BYTES + 1)).expect_err("too long");
    assert_eq!(err.code(), ErrorCode::ExternalService);
    assert!(err.message().contains("bytes exceeds the"));
    let body = screen_reply(None, "  ```json\n{\"score\": 0.5}\n```  ").expect("complete reply");
    assert_eq!(body, "{\"score\": 0.5}");
}

#[test]
fn blank_model_is_rejected() {
    for blank in ["", "   ", "\t\n ", "\u{3000}"] {
        let err = validate_judge_config(4, blank, false, true, 1024).expect_err("a blank model must be rejected");
        assert_eq!(err.code(), ErrorCode::InvalidInput);
        assert!(err.message().contains("non-blank identifier"));
    }
    assert!(validate_judge_config(4, "  gpt  ", false, true, 1024).is_ok());
}

#[test]
fn requested_model_is_trimmed_for_identity_and_provenance() {
    let model = requested_model("  gpt  ");
    assert_eq!(model, "gpt");
    assert_eq!(requested_model("\tgpt 4o\n"), "gpt 4o");
    assert_eq!(requested_model("   "), "");
    let name = judge_metric_name("openai", &model, "rskit.builtin.judge", "1.0.0", "0123456789abcdef", "0.5");
    assert!(name.contains("/gpt@"));
    let detail = judge_detail("openai", &model, "rskit.builtin.judge", "1.0.0", "0123456789abcdef", None);
    assert_eq!(detail.model.as_deref(), Some("gpt"));
}
