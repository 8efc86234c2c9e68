use rskit_bench::run_id::run_timestamp;
use rskit_bench::run_id::{format_compact_utc, generate_run_id, random_id_suffix, sanitize_run_name};

#[test]
fn run_id_uses_injected_epoch_seconds_and_suffix() {
    assert_eq!(generate_run_id("eval", 0, "abcd1234"), "eval_19700101-000000_abcd1234");
    assert_eq!(generate_run_id("eval", 86_400, "abcd1234"), "eval_19700102-000000_abcd1234");
}

#[test]
fn run_id_sanitizes_name_for_filename_use() {
    assert_eq!(generate_run_id("../a/b", 0, "s"), "a-b_19700101-000000_s");
    assert_eq!(
        generate_run_id(" spaces and/slashes ", 0, "s"),
        "spaces-and-slashes_19700101-000000_s"
    );
    assert_eq!(generate_run_id("...", 0, "s"), "run_19700101-000000_s");
}

#[test]
fn random_id_suffix_is_eight_hex_chars() {
    let suffix = random_id_suffix();
    assert_eq!(suffix.len(), 8);
    assert!(suffix.chars().all(|c| c.is_ascii_hexdigit()));
}

#[test]
fn compact_utc_formats_calendar_dates() {
    assert_eq!(format_compact_utc(0).as_deref(), Some("19700101-000000"));
    assert_eq!(format_compact_utc(951_782_400).as_deref(), Some("20000229-000000"));
    assert_eq!(format_compact_utc(1_700_000_000).as_deref(), Some("20231114-221320"));
    assert_eq!(format_compact_utc(253_402_300_799).as_deref(), Some("99991231-235959"));
    assert_eq!(format_compact_utc(253_402_300_800), None);
}

#[test]
fn run_id_past_year_9999_has_unknown_time() {
    assert_eq!(generate_run_id("x", 253_402_300_800, "s"), "x_unknown-time_s");
}

#[test]
fn sanitize_keeps_inner_separators_once() {
    assert_eq!(sanitize_run_name("a--b__c"), "a-b_c");
    assert_eq!(sanitize_run_name("_-lead"), "lead");
    assert_eq!(sanitize_run_name("trail-_"), "trail");
    assert_eq!(sanitize_run_name(""), "run");
    assert_eq!(sanitize_run_name("é"), "run");
}

#[test]
fn run_timestamps_are_rfc3339_utc() {
    assert_eq!(run_timestamp(0), "1970-01-01T00:00:00Z");
    assert_eq!(run_timestamp(1_700_000_000), "2023-11-14T22:13:20Z");
    assert_eq!(run_timestamp(951_782_400), "2000-02-29T00:00:00Z");
    assert_eq!(run_timestamp(253_402_300_799), "9999-12-31T23:59:59Z");
    assert_eq!(run_timestamp(253_402_300_800), "1970-01-01T00:00:00Z");
}

#[test]
fn sanitized_names_keep_letters_and_digits_in_order() {
    assert_eq!(sanitize_run_name("a b!!c-9"), "a-b-c-9");
    assert_eq!(sanitize_run_name("__Nightly Run #42__"), "Nightly-Run-42");
    assert_eq!(sanitize_run_name("!!!"), "run");
    assert_eq!(sanitize_run_name(""), "run");
}
