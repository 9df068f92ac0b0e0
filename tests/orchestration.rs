use query_core::batching::{coalesce, ShardSelector};
use query_core::explain::{compute_explanation, Distance};
use query_core::query::{
    complete_core_search, complete_search_batch, discover_shard_selectors,
    extract_dense_vector_from_struct, extract_query_vector, first_of_batch, strip_vectors,
    vectors_requested, vectors_to_fetch, QueryEnum, ScoredPoint, ShardKeySelector, StorageError,
    VectorInternal, VectorStructInternal, WithVector,
};

fn point(id: u64, vector: Option<VectorStructInternal>) -> ScoredPoint<f32> {
    ScoredPoint { id, details: id as f32 * 0.25, vector, score_explanation: None }
}

fn hits() -> Vec<ScoredPoint<f32>> {
    vec![
        point(1, Some(VectorStructInternal::Single(vec![1, 1, 1, 1, 1]))),
        point(2, None),
        point(3, Some(VectorStructInternal::MultiDense(vec![vec![1, 2]]))),
        point(
            4,
            Some(VectorStructInternal::Named(vec![
                ("sparse".to_string(), VectorInternal::Sparse { indices: vec![0], values: vec![9] }),
                ("dense".to_string(), VectorInternal::Dense(vec![0, 0, 0, 2, 0])),
            ])),
        ),
    ]
}

#[test]
fn explained_search_attaches_one_explanation_per_dense_hit() {
    let query = vec![1, 5, 2, 8, 3];
    let out = complete_core_search(vec![hits()], true, Some(query), Some(Distance::Dot), &None).unwrap();
    assert_eq!(out.len(), 4);
    let e = out[0].score_explanation.as_ref().unwrap();
    let dims: Vec<usize> = e.top_dimensions.iter().map(|c| c.dimension).collect();
    assert_eq!(dims, vec![3, 1, 4, 2, 0]);
    assert!(out[1].score_explanation.is_none());
    assert!(out[2].score_explanation.is_none());
    let e = out[3].score_explanation.as_ref().unwrap();
    assert_eq!(e.top_dimensions[0].dimension, 3);
    assert_eq!(e.top_dimensions[0].contribution, 16);
    assert!(out.iter().all(|p| p.vector.is_none()));
    let ids: Vec<u64> = out.iter().map(|p| p.id).collect();
    assert_eq!(ids, vec![1, 2, 3, 4]);
    let scores: Vec<f32> = out.iter().map(|p| p.details).collect();
    assert_eq!(scores, vec![0.25, 0.5, 0.75, 1.0]);
}

#[test]
fn explained_search_keeps_vectors_when_asked() {
    let out = complete_core_search(
        vec![hits()],
        true,
        Some(vec![1, 0, 0, 0, 0]),
        None,
        &Some(WithVector::Bool(true)),
    )
    .unwrap();
    assert!(out[0].vector.is_some());
    assert!(out[0].score_explanation.is_some());
    // cosine is the default metric: numerator of the first coordinate only
    let e = out[0].score_explanation.as_ref().unwrap();
    assert_eq!(e.top_dimensions[0].contribution, 1);
    assert_eq!(e.top_dimensions[1].contribution, 0);
}

#[test]
fn search_without_dense_query_only_strips_vectors() {
    let out = complete_core_search(vec![hits()], true, None, Some(Distance::Dot), &Some(WithVector::Bool(false))).unwrap();
    assert!(out.iter().all(|p| p.score_explanation.is_none() && p.vector.is_none()));
    let out = complete_core_search(vec![hits()], false, Some(vec![1; 5]), None, &None).unwrap();
    assert!(out.iter().all(|p| p.score_explanation.is_none()));
    assert!(out[0].vector.is_some());
}

#[test]
fn empty_batch_is_a_service_error() {
    let r = complete_core_search::<f32>(Vec::new(), true, None, None, &None);
    match r {
        Err(StorageError::ServiceError { description }) => assert_eq!(description, "Empty search result"),
        _ => panic!("expected a service error"),
    }
    let r: Result<Vec<u8>, StorageError> = first_of_batch(Vec::new(), "Empty query result");
    assert!(matches!(r, Err(StorageError::ServiceError { .. })));
    let r = first_of_batch(vec![vec![1u8], vec![2u8]], "unused");
    assert_eq!(r.unwrap(), vec![1u8]);
}

#[test]
fn query_vector_only_from_dense_nearest() {
    assert_eq!(extract_query_vector(&QueryEnum::Nearest(VectorInternal::Dense(vec![3, 4]))), Some(vec![3, 4]));
    assert_eq!(extract_query_vector(&QueryEnum::Nearest(VectorInternal::MultiDense(vec![vec![1]]))), None);
    assert_eq!(extract_query_vector(&QueryEnum::Discover), None);
}

#[test]
fn first_dense_named_vector_is_used() {
    let v = VectorStructInternal::Named(vec![
        ("a".to_string(), VectorInternal::MultiDense(vec![vec![1]])),
        ("b".to_string(), VectorInternal::Dense(vec![5, 6])),
        ("c".to_string(), VectorInternal::Dense(vec![7])),
    ]);
    assert_eq!(extract_dense_vector_from_struct(&v), Some(vec![5, 6]));
    assert_eq!(extract_dense_vector_from_struct(&VectorStructInternal::Named(Vec::new())), None);
    assert_eq!(extract_dense_vector_from_struct(&VectorStructInternal::Single(vec![2])), Some(vec![2]));
}

#[test]
fn vector_selection_for_explanations() {
    assert!(!vectors_requested(&None));
    assert!(!vectors_requested(&Some(WithVector::Bool(false))));
    assert!(vectors_requested(&Some(WithVector::Selector(vec!["a".to_string()]))));
    assert!(matches!(vectors_to_fetch(true, None), Some(WithVector::Bool(true))));
    assert!(vectors_to_fetch(false, None).is_none());
    let kept = strip_vectors(hits(), true);
    assert!(kept[0].vector.is_some());
}

#[test]
fn timeout_on_one_partition_fails_the_batch() {
    let c = coalesce(&vec![ShardSelector::ShardKey(1), ShardSelector::ShardKey(2), ShardSelector::ShardKey(1)]);
    let failed: Result<Vec<Vec<Vec<u64>>>, StorageError> =
        Err(StorageError::Timeout { description: "partition 2".to_string() });
    match complete_search_batch(&c, failed) {
        Err(StorageError::Timeout { description }) => assert_eq!(description, "partition 2"),
        _ => panic!("expected the timeout"),
    }
    let ok = Ok(vec![vec![vec![10u64], vec![30u64]], vec![vec![20u64]]]);
    assert_eq!(complete_search_batch(&c, ok).unwrap(), vec![vec![10], vec![20], vec![30]]);
    let short = Ok(vec![vec![vec![10u64]], vec![vec![20u64]]]);
    assert!(matches!(complete_search_batch(&c, short), Err(StorageError::ServiceError { .. })));
}

#[test]
fn discovery_without_key_targets_all_partitions() {
    let s = discover_shard_selectors(vec![None, Some(ShardKeySelector::ShardKey(4)), Some(ShardKeySelector::ShardKeys(vec![1, 2]))]);
    assert!(s[0] == ShardSelector::All);
    assert!(s[1] == ShardSelector::ShardKey(4));
    assert!(s[2] == ShardSelector::ShardKeys(vec![1, 2]));
}

#[test]
fn search_explanation_equals_direct_computation() {
    let query = vec![2, -7, 1, 0, 4];
    let out = complete_core_search(vec![hits()], true, Some(query.clone()), Some(Distance::Euclid), &None).unwrap();
    let direct = compute_explanation(Distance::Euclid, &query, &[1, 1, 1, 1, 1], Some(10));
    assert_eq!(out[0].score_explanation.as_ref().unwrap().top_dimensions, direct.top_dimensions);
    let direct = compute_explanation(Distance::Euclid, &query, &[0, 0, 0, 2, 0], Some(10));
    assert_eq!(out[3].score_explanation.as_ref().unwrap().top_dimensions, direct.top_dimensions);
}
