use rskit_bench::provenance::{
    dataset_hash, FixedProvenanceProbe, JudgeMap, JudgeProvenance, ProvenanceProbe, RunProvenance,
    SystemProvenanceProbe,
};

fn record(id: &str, label: &str) -> (String, Vec<u8>, String) {
    record_with_input(id, label, b"")
}

fn record_with_input(id: &str, label: &str, input: &[u8]) -> (String, Vec<u8>, String) {
    (id.to_string(), input.to_vec(), label.to_string())
}

#[test]
fn fixed_probe_reports_injected_values() {
    let probe = FixedProvenanceProbe::new()
        .with_git_commit("feedface")
        .with_host("test-host")
        .with_os("linux")
        .with_arch("aarch64");
    assert_eq!(probe.git_commit(), Some("feedface".to_string()));
    assert_eq!(probe.host(), "test-host");
    assert_eq!(probe.os(), "linux");
    assert_eq!(probe.arch(), "aarch64");
}

#[test]
fn fixed_probe_without_commit_reports_none() {
    let probe = FixedProvenanceProbe::new().with_host("h");
    assert_eq!(probe.git_commit(), None);
}

#[test]
fn dataset_hash_is_order_independent() {
    let forward = vec![record("a", "yes"), record("b", "no")];
    let reversed = vec![record("b", "no"), record("a", "yes")];
    assert_eq!(dataset_hash(&forward), dataset_hash(&reversed));
}

#[test]
fn dataset_hash_changes_with_content() {
    let base = vec![record("a", "yes")];
    let changed = vec![record("a", "no")];
    assert_ne!(dataset_hash(&base), dataset_hash(&changed));
}

#[test]
fn dataset_hash_changes_when_only_input_changes() {
    let base = vec![record_with_input("a", "yes", b"first")];
    let changed = vec![record_with_input("a", "yes", b"second")];
    assert_ne!(dataset_hash(&base), dataset_hash(&changed));
}

#[test]
fn dataset_hash_resists_delimiter_collision() {
    let tab = vec![record("a\tb", "c")];
    let split = vec![record("a", "b\tc")];
    assert_ne!(dataset_hash(&tab), dataset_hash(&split));

    let newline = vec![record("a", "b"), record("c", "d")];
    let merged = vec![record("a", "b\nc"), record("", "d")];
    assert_ne!(dataset_hash(&newline), dataset_hash(&merged));
}

#[test]
fn dataset_hash_is_64_lowercase_hex_digits() {
    let h = dataset_hash(&vec![record("a", "yes")]);
    assert_eq!(h.len(), 64);
    assert!(h.chars().all(|c| c.is_ascii_hexdigit() && !c.is_ascii_uppercase()));
}

#[test]
fn dataset_hash_of_duplicates_differs_from_single() {
    let once = vec![record("a", "yes")];
    let twice = vec![record("a", "yes"), record("a", "yes")];
    assert_ne!(dataset_hash(&once), dataset_hash(&twice));
}

#[test]
fn default_provenance_is_empty_with_seed_zero() {
    let p = RunProvenance::default();
    assert_eq!(p.seed, 0);
    assert!(p.rng_algorithm.is_empty());
    assert_eq!(p.git_commit, None);
    assert!(p.branches.is_empty());
    assert!(p.judges.is_empty());
}

#[test]
fn judge_provenance_records_resolved_model() {
    let j = JudgeProvenance::new("openai", "gpt-judge", "rskit.builtin.judge", "1.0.0", "0123456789abcdef");
    assert_eq!(j.resolved_model, None);
    let j = j.with_resolved_model("gpt-judge-0613");
    assert_eq!(j.provider, "openai");
    assert_eq!(j.resolved_model.as_deref(), Some("gpt-judge-0613"));
}

#[test]
fn judge_map_keeps_keys_sorted_and_replaces_values() {
    let mut m = JudgeMap::new();
    let a = JudgeProvenance::new("p", "m1", "id", "1.0.0", "f");
    let b = JudgeProvenance::new("p", "m2", "id", "1.0.0", "f");
    let c = JudgeProvenance::new("p", "m3", "id", "1.0.0", "f");
    m.insert("zeta".to_string(), a.clone());
    m.insert("alpha".to_string(), b.clone());
    m.insert("mid".to_string(), c.clone());
    assert_eq!(m.len(), 3);
    assert_eq!(m.entry(0).0, "alpha");
    assert_eq!(m.entry(1).0, "mid");
    assert_eq!(m.entry(2).0, "zeta");
    m.insert("mid".to_string(), a.clone());
    assert_eq!(m.len(), 3);
    assert_eq!(m.get("mid"), Some(&a));
    assert_eq!(m.get("missing"), None);
}

#[test]
fn system_probe_reads_commit_in_precedence_order() {
    let env = vec![
        ("GIT_COMMIT".to_string(), "second".to_string()),
        ("GITHUB_SHA".to_string(), "  first  ".to_string()),
    ];
    let probe = SystemProvenanceProbe::from_environment(env, "linux", "x86_64");
    assert_eq!(probe.git_commit(), Some("first".to_string()));
    assert_eq!(probe.os(), "linux");
    assert_eq!(probe.arch(), "x86_64");
}

#[test]
fn system_probe_skips_blank_values_and_defaults_host() {
    let env = vec![
        ("GITHUB_SHA".to_string(), "   ".to_string()),
        ("SOURCE_COMMIT".to_string(), "abc".to_string()),
        ("HOSTNAME".to_string(), " ".to_string()),
    ];
    let probe = SystemProvenanceProbe::from_environment(env, "linux", "x86_64");
    assert_eq!(probe.git_commit(), Some("abc".to_string()));
    assert_eq!(probe.host(), "unknown");
    let empty = SystemProvenanceProbe::from_environment(Vec::new(), "", "");
    assert_eq!(empty.git_commit(), None);
    let named = SystemProvenanceProbe::from_environment(vec![("HOST".to_string(), "box".to_string())], "", "");
    assert_eq!(named.host(), "box");
}

#[test]
fn default_provenance_records_the_seed() {
    // The default record holds the seed and nothing else, so its serialized
    // form is only the seed.
    let provenance = RunProvenance::default();
    assert_eq!(provenance.seed, 0);
    assert!(provenance.rng_algorithm.is_empty());
    assert_eq!(provenance.git_commit, None);
    assert!(provenance.tool_version.is_empty());
    assert!(provenance.host.is_empty() && provenance.os.is_empty() && provenance.arch.is_empty());
    assert!(provenance.dataset_hash.is_empty());
    assert!(provenance.dataset_name.is_empty() && provenance.dataset_version.is_empty());
    assert!(provenance.branches.is_empty() && provenance.metrics.is_empty());
    assert!(provenance.judges.is_empty());
}
