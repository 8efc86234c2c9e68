use rskit_bench::tokens::{token_stats_name, token_totals};

#[test]
fn metric_name_embeds_counter_identity() {
    assert_eq!(token_stats_name("heuristic"), "token_stats[heuristic]");
}

#[test]
fn distinct_counters_produce_distinct_metric_names() {
    assert_ne!(token_stats_name("a"), token_stats_name("b"));
}

#[test]
fn token_totals_sum_predicted_and_reference_counts() {
    // "abcd" -> 1 token, "abcdefgh" -> 2 tokens under a four-characters-per-token counter.
    assert_eq!(token_totals(&vec![(1, 2)]), Some((1, 2)));
    assert_eq!(token_totals(&vec![(1, 1), (2, 1)]), Some((3, 2)));
    assert_eq!(token_totals(&vec![(7, 7)]), Some((7, 7)));
    assert_eq!(token_totals(&Vec::new()), Some((0, 0)));
}

#[test]
fn token_totals_that_overflow_are_refused() {
    assert_eq!(token_totals(&vec![(usize::MAX, 0), (1, 0)]), None);
    assert_eq!(token_totals(&vec![(0, usize::MAX), (0, 1)]), None);
    assert_eq!(token_totals(&vec![(usize::MAX, usize::MAX)]), Some((usize::MAX, usize::MAX)));
}
