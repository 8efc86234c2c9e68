use rskit_bench::cache::EvalCache;
use rskit_bench::dataset::default_version;
use rskit_bench::matching::levenshtein;
use rskit_bench::schema::{schema_url, version, SCHEMA_URL, SCHEMA_VERSION};

#[test]
fn schema_identity() {
    assert_eq!(version(), "1.0");
    assert_eq!(schema_url(), "https://gokit.dev/bench/v1/schema.json");
    assert_eq!(SCHEMA_VERSION, "1.0");
    assert_eq!(SCHEMA_URL, "https://gokit.dev/bench/v1/schema.json");
}

#[test]
fn manifest_default_version() {
    assert_eq!(default_version(), "1.0.0");
}

#[test]
fn levenshtein_distances() {
    assert_eq!(levenshtein("kitten", "sitting"), 3);
    assert_eq!(levenshtein("", "abc"), 3);
    assert_eq!(levenshtein("abc", ""), 3);
    assert_eq!(levenshtein("same", "same"), 0);
    assert_eq!(levenshtein("café", "cafe"), 1);
}

#[test]
fn cache_counts_hits_and_misses() {
    let mut c: EvalCache<String> = EvalCache::new();
    assert_eq!(c.lookup(7), None);
    c.store(7, "p".to_string());
    assert_eq!(c.lookup(7), Some(&"p".to_string()));
    assert_eq!(c.lookup(8), None);
    assert_eq!(c.hit_count(), 1);
    assert_eq!(c.miss_count(), 2);
}

#[test]
fn edit_distance_is_symmetric_and_zero_only_for_equal_texts() {
    let d = levenshtein;
    assert_eq!(d("kitten", "sitting"), 3);
    assert_eq!(d("kitten", "sitting"), d("sitting", "kitten"));
    assert_eq!(d("résumé", "resume"), d("resume", "résumé"));
    assert_eq!(d("same", "same"), 0);
    assert_ne!(d("same", "sane"), 0);
}

#[test]
fn edit_distance_through_a_third_text_is_never_shorter() {
    let (a, b, c) = ("kitten", "mitten", "sitting");
    assert_eq!(levenshtein(a, c), 3);
    assert_eq!(levenshtein(a, b), 1);
    assert_eq!(levenshtein(b, c), 3);
    assert!(levenshtein(a, c) <= levenshtein(a, b) + levenshtein(b, c));
    assert!(levenshtein("abc", "") <= levenshtein("abc", "ab") + levenshtein("ab", ""));
}

#[test]
fn cached_inputs_are_found_again_by_their_bytes() {
    let mut c: EvalCache<String> = EvalCache::new();
    let (key, found) = c.lookup_input(b"prompt one");
    assert_eq!(found, None);
    c.store(key, "p".to_string());
    let (again, found) = c.lookup_input(b"prompt one");
    assert_eq!(again, key);
    assert_eq!(found, Some(&"p".to_string()));
    let (other, found) = c.lookup_input(b"prompt two");
    assert_ne!(other, key);
    assert_eq!(found, None);
    assert_eq!((c.hit_count(), c.miss_count()), (1, 2));
}
