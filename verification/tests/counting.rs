use rskit_bench::counting::{binary_counts, confusion_matrix, count_exact_matches, default_orientation, BinaryCounts};

#[test]
fn binary_counts_partition_outcomes() {
    let outcomes = vec![(true, true), (true, false), (false, true), (false, false), (true, true)];
    assert_eq!(binary_counts(&outcomes), BinaryCounts { tp: 2, fp: 1, tn: 1, fn_: 1 });
    assert_eq!(binary_counts(&Vec::new()), BinaryCounts { tp: 0, fp: 0, tn: 0, fn_: 0 });
}

#[test]
fn confusion_matrix_counts_label_pairs() {
    let labels = vec!["cat".to_string(), "dog".to_string()];
    let pairs = vec![
        ("cat".to_string(), "cat".to_string()),
        ("cat".to_string(), "dog".to_string()),
        ("dog".to_string(), "dog".to_string()),
        ("dog".to_string(), "dog".to_string()),
        ("bird".to_string(), "cat".to_string()),
    ];
    let m = confusion_matrix(&labels, &pairs);
    assert_eq!(m.labels, labels);
    assert_eq!(m.matrix, vec![vec![1, 1], vec![0, 2]]);
    assert_eq!(m.orientation, "row=actual, col=predicted");
    assert_eq!(default_orientation(), "row=actual, col=predicted");
}

#[test]
fn exact_matches_are_counted() {
    let pairs = vec![("a".to_string(), "a".to_string()), ("a".to_string(), "b".to_string()), ("".to_string(), "".to_string())];
    assert_eq!(count_exact_matches(&pairs), 2);
}

use rskit_bench::compare::MetricDirection;
use rskit_bench::counting::{binary_subvalue_directions, per_class_counts};

#[test]
fn per_class_counts_follow_the_confusion() {
    let labels = vec!["a".to_string(), "b".to_string(), "c".to_string()];
    let pairs = vec![
        ("a".to_string(), "a".to_string()),
        ("a".to_string(), "b".to_string()),
        ("b".to_string(), "b".to_string()),
        ("c".to_string(), "a".to_string()),
        ("x".to_string(), "a".to_string()),
    ];
    assert_eq!(per_class_counts(&labels, &pairs), vec![(1, 1, 1), (1, 0, 1), (0, 1, 0)]);
}

#[test]
fn binary_classification_subvalue_directions() {
    let d = binary_subvalue_directions();
    for k in ["fpr", "fp", "fn"] {
        assert_eq!(d.iter().find(|(n, _)| *n == k).map(|(_, d)| *d), Some(MetricDirection::LowerIsBetter), "{k}");
    }
    for k in ["tp", "tn"] {
        assert_eq!(d.iter().find(|(n, _)| *n == k).map(|(_, d)| *d), Some(MetricDirection::Neutral), "{k}");
    }
    for k in ["f1", "precision", "recall", "accuracy"] {
        assert!(d.iter().all(|(n, _)| *n != k), "{k} should inherit");
    }
}
