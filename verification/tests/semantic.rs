use rskit_bench::error::ErrorCode;
use rskit_bench::semantic::{
    batch_ranges, check_batch_size, embedding_inputs, check_pair_dimensions, embedding_order, model_identity, semantic_metric_name,
    EmbeddingShape,
};

fn shape(index: usize, len: usize) -> EmbeddingShape {
    EmbeddingShape { index, dimensions: len, len }
}

#[test]
fn semantic_name_embeds_model_identity() {
    let id = model_identity("memory", "embed-test", None);
    assert_eq!(id, "memory/embed-test");
    assert_eq!(semantic_metric_name(&id), "semantic_similarity[memory/embed-test]");
    assert_eq!(model_identity("open_ai", "text-embedding-3-small", Some("2024")), "open_ai/text-embedding-3-small@2024");
}

#[test]
fn semantic_distinct_models_have_distinct_identities() {
    assert_ne!(model_identity("memory", "embed-test", None), model_identity("memory", "embed-large", None));
    assert_ne!(model_identity("memory", "m", None), model_identity("memory", "m", Some("")));
}

#[test]
fn semantic_identity_is_collision_free_across_delimiters() {
    let left = model_identity("a/b", "c", None);
    let right = model_identity("a", "b/c", None);
    assert_eq!(left, "a\\/b/c");
    assert_eq!(right, "a/b\\/c");
    assert_ne!(left, right);
    assert_ne!(model_identity("a", "b@c", None), model_identity("a", "b", Some("c")));
}

#[test]
fn semantic_batches_split_samples_with_a_short_last_batch() {
    assert_eq!(batch_ranges(3, 2), vec![(0, 2), (2, 3)]);
    assert_eq!(batch_ranges(4, 2), vec![(0, 2), (2, 4)]);
    assert!(batch_ranges(0, 64).is_empty());
    assert_eq!(batch_ranges(5, 64), vec![(0, 5)]);
}

#[test]
fn semantic_zero_batch_size_is_rejected() {
    assert_eq!(check_batch_size(0).unwrap_err().code, ErrorCode::InvalidInput);
    assert!(check_batch_size(1).is_ok());
}

#[test]
fn semantic_reply_order_follows_claimed_indices() {
    let order = embedding_order(4, &vec![shape(2, 3), shape(0, 3), shape(3, 3), shape(1, 3)]).expect("valid reply");
    assert_eq!(order, vec![1, 3, 0, 2]);
}

#[test]
fn semantic_reply_with_wrong_length_is_an_internal_error() {
    let err = embedding_order(2, &vec![shape(0, 2)]).unwrap_err();
    assert_eq!(err.code, ErrorCode::Internal);
    assert_eq!(err.message, "semantic_similarity: expected 2 embeddings, provider returned 1");
}

#[test]
fn semantic_duplicate_indices_are_rejected() {
    let err = embedding_order(2, &vec![shape(0, 2), shape(0, 2)]).unwrap_err();
    assert_eq!(err.code, ErrorCode::InvalidInput);
    assert_eq!(err.message, "semantic_similarity: provider returned invalid embedding indices; expected a permutation of 0..2");
    assert_eq!(embedding_order(2, &vec![shape(0, 2), shape(2, 2)]).unwrap_err().code, ErrorCode::InvalidInput);
}

#[test]
fn semantic_empty_vector_is_rejected() {
    let err = embedding_order(2, &vec![shape(0, 0), shape(1, 2)]).unwrap_err();
    assert_eq!(err.code, ErrorCode::InvalidInput);
    assert_eq!(
        err.message,
        "semantic_similarity: embedding at index 0 has an empty or dimension-inconsistent vector (dimensions 0, length 0)"
    );
    let inconsistent = EmbeddingShape { index: 1, dimensions: 3, len: 2 };
    let err = embedding_order(2, &vec![shape(0, 2), inconsistent]).unwrap_err();
    assert!(err.message.contains("index 1") && err.message.contains("(dimensions 3, length 2)"));
}

#[test]
fn semantic_dimension_mismatch_is_typed_error() {
    let err = check_pair_dimensions(3, 2).unwrap_err();
    assert_eq!(err.code, ErrorCode::InvalidInput);
    assert!(err.message.contains("dimension mismatch"));
    assert!(check_pair_dimensions(2, 2).is_ok());
}

#[test]
fn embedding_inputs_interleave_reference_and_prediction() {
    let pairs = vec![
        ("ref-a".to_string(), "pred-a".to_string()),
        ("ref-b".to_string(), "pred-b".to_string()),
    ];
    assert_eq!(embedding_inputs(&pairs), vec!["ref-a", "pred-a", "ref-b", "pred-b"]);
    assert!(embedding_inputs(&Vec::new()).is_empty());
}
