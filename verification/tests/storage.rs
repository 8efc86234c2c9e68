use rskit_bench::error::ErrorCode;
use rskit_bench::storage::{run_file_name, select_runs, FileRunStorage, ListOptions, RunEntry};

fn entry(id: &str, ts: &str, tag: &str, dataset: &str) -> RunEntry {
    RunEntry { id: id.to_string(), timestamp: ts.to_string(), tag: tag.to_string(), dataset: dataset.to_string() }
}

#[test]
fn save_rejects_run_ids_with_path_separators() {
    let storage = FileRunStorage::new("results");
    assert_eq!(storage.dir(), "results");
    let error = run_file_name("../escaped").expect_err("path separator should fail");
    assert_eq!(error.code(), ErrorCode::InvalidInput);
    let error = run_file_name("nested/path").expect_err("nested path should fail");
    assert_eq!(error.code(), ErrorCode::InvalidInput);
    let error = run_file_name("win\\path").expect_err("backslash should fail");
    assert_eq!(error.code(), ErrorCode::InvalidInput);
    assert_eq!(run_file_name("eval_19700101-000000_abcd1234").expect("plain id"), "eval_19700101-000000_abcd1234.json");
}

#[test]
fn list_options_defaults_and_builders() {
    let o = ListOptions::default();
    assert_eq!(o.limit, 100);
    assert_eq!(o.tag, None);
    assert_eq!(o.dataset, None);
    let o = o.with_limit(1).with_tag("main").with_dataset("ds");
    assert_eq!(o.limit, 1);
    assert_eq!(o.tag.as_deref(), Some("main"));
    assert_eq!(o.dataset.as_deref(), Some("ds"));
}

#[test]
fn listing_is_newest_first_filtered_and_limited() {
    let entries = vec![
        entry("old", "2026-01-01T00:00:00Z", "main", "ds"),
        entry("new", "2026-03-01T00:00:00Z", "main", "ds"),
        entry("other-tag", "2026-04-01T00:00:00Z", "dev", "ds"),
        entry("mid", "2026-02-01T00:00:00Z", "main", "ds"),
        entry("tie-first", "2026-02-01T00:00:00Z", "main", "ds"),
        entry("other-ds", "2026-05-01T00:00:00Z", "main", "xx"),
    ];
    let all = select_runs(&entries, &ListOptions::default().with_limit(0));
    assert_eq!(all, vec![5, 2, 1, 3, 4, 0]);
    let main = select_runs(&entries, &ListOptions::default().with_tag("main").with_dataset("ds"));
    assert_eq!(main, vec![1, 3, 4, 0]);
    let latest = select_runs(&entries, &ListOptions::default().with_tag("main").with_dataset("ds").with_limit(1));
    assert_eq!(latest, vec![1]);
    assert!(select_runs(&Vec::new(), &ListOptions::default()).is_empty());
}

#[test]
fn path_separator_error_names_the_run_id() {
    assert_eq!(
        run_file_name("a/b").expect_err("separator").message,
        "run id must not contain path separators: a/b"
    );
}
