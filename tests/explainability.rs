use query_core::explain::{
    compute_contributions, compute_explanation, cosine_contributions, dot_product_contributions,
    euclidean_contributions, manhattan_contributions, Distance, DEFAULT_TOP_DIMENSIONS,
};
use query_core::types::{DetailsLevel, DimensionContribution, ScoreExplanation, TelemetryDetail};

#[test]
fn test_dot_product_contributions() {
    let v1 = vec![1, 2, 3];
    let v2 = vec![4, 5, 6];

    let contributions = dot_product_contributions(&v1, &v2);

    assert_eq!(contributions.len(), 3);
    assert_eq!(contributions[0].dimension, 0);
    assert_eq!(contributions[0].contribution, 4); // 1*4
    assert_eq!(contributions[1].dimension, 1);
    assert_eq!(contributions[1].contribution, 10); // 2*5
    assert_eq!(contributions[2].dimension, 2);
    assert_eq!(contributions[2].contribution, 18); // 3*6

    let total: i128 = contributions.iter().map(|c| c.contribution).sum();
    assert_eq!(total, 32); // 4+10+18
}

#[test]
fn test_euclidean_contributions() {
    let v1 = vec![1, 2, 3];
    let v2 = vec![4, 5, 6];

    let contributions = euclidean_contributions(&v1, &v2);

    assert_eq!(contributions.len(), 3);
    assert!(contributions[0].contribution < 0);
    assert_eq!(contributions[0].contribution, -9); // -(1-4)^2
    assert_eq!(contributions[1].contribution, -9); // -(2-5)^2
    assert_eq!(contributions[2].contribution, -9); // -(3-6)^2
}

#[test]
fn test_cosine_contributions() {
    let v1 = vec![1, 0];
    let v2 = vec![1, 0];

    let contributions = cosine_contributions(&v1, &v2);

    assert_eq!(contributions.len(), 2);
    assert_eq!(contributions[0].contribution, 1); // perfectly aligned, norms 1
    assert_eq!(contributions[1].contribution, 0); // no contribution from dimension 1
}

#[test]
fn test_explanation_top_n() {
    let v1 = vec![1, 5, 2, 8, 3];
    let v2 = vec![1, 1, 1, 1, 1];

    let explanation = compute_explanation(Distance::Dot, &v1, &v2, Some(3));

    assert_eq!(explanation.top_dimensions.len(), 3);
    assert_eq!(explanation.top_dimensions[0].dimension, 3);
    assert_eq!(explanation.top_dimensions[0].contribution, 8);
    assert_eq!(explanation.top_dimensions[1].dimension, 1);
    assert_eq!(explanation.top_dimensions[1].contribution, 5);
    assert_eq!(explanation.top_dimensions[2].dimension, 4);
    assert_eq!(explanation.top_dimensions[2].contribution, 3);
}

#[test]
fn contributions_sum_to_scores() {
    let v1 = vec![3, -1, 4, 0];
    let v2 = vec![-2, 7, 1, 5];
    let dot: i128 = dot_product_contributions(&v1, &v2).iter().map(|c| c.contribution).sum();
    assert_eq!(dot, -6 - 7 + 4);
    let euclid: i128 = euclidean_contributions(&v1, &v2).iter().map(|c| c.contribution).sum();
    assert_eq!(euclid, -(25 + 64 + 9 + 25));
    let manhattan: i128 = manhattan_contributions(&v1, &v2).iter().map(|c| c.contribution).sum();
    assert_eq!(manhattan, -(5 + 8 + 3 + 5));
}

#[test]
fn manhattan_contributions_are_negated_gaps() {
    let c = manhattan_contributions(&[1, 10, -3], &[4, 10, 2]);
    let values: Vec<i128> = c.iter().map(|x| x.contribution).collect();
    assert_eq!(values, vec![-3, 0, -5]);
}

#[test]
fn extreme_coordinates_do_not_overflow() {
    let c = euclidean_contributions(&[i32::MIN], &[i32::MAX]);
    assert_eq!(c[0].contribution, -(((1i128 << 32) - 1) * ((1i128 << 32) - 1)));
    let d = dot_product_contributions(&[i32::MIN], &[i32::MIN]);
    assert_eq!(d[0].contribution, 1i128 << 62);
}

#[test]
fn cosine_with_zero_vector_is_all_zero() {
    let c = cosine_contributions(&[0, 0, 0], &[1, 2, 3]);
    assert_eq!(c.len(), 3);
    assert!(c.iter().all(|x| x.contribution == 0));
    let c = cosine_contributions(&[4, 5, 6], &[0, 0]);
    assert_eq!(c.len(), 2);
    assert!(c.iter().all(|x| x.contribution == 0));
    assert_eq!(c[1].dimension, 1);
    let c = cosine_contributions(&[0, 0], &[1]);
    assert_eq!(c.len(), 1);
    let e = compute_explanation(Distance::Cosine, &[0, 0], &[1], None);
    assert_eq!(e.top_dimensions.len(), 1);
}

#[test]
fn cosine_numerators_when_norms_are_nonzero() {
    let c = cosine_contributions(&[2, -3], &[5, 7]);
    let values: Vec<i128> = c.iter().map(|x| x.contribution).collect();
    assert_eq!(values, vec![10, -21]);
}

#[test]
fn mismatched_lengths_truncate() {
    let c = dot_product_contributions(&[1, 2, 3], &[4, 5]);
    assert_eq!(c.len(), 2);
    assert!(dot_product_contributions(&[], &[]).is_empty());
}

#[test]
fn euclidean_example_from_three_coordinates() {
    let c = compute_contributions(Distance::Euclid, &[1, 2, 3], &[4, 5, 6]);
    let values: Vec<i128> = c.iter().map(|x| x.contribution).collect();
    assert_eq!(values, vec![-9, -9, -9]);
}

#[test]
fn explanation_keeps_ties_in_input_order() {
    let contributions = vec![
        DimensionContribution { dimension: 0, contribution: -4 },
        DimensionContribution { dimension: 1, contribution: 7 },
        DimensionContribution { dimension: 2, contribution: 4 },
        DimensionContribution { dimension: 3, contribution: -7 },
        DimensionContribution { dimension: 4, contribution: 1 },
    ];
    let e = ScoreExplanation::new(contributions, 10);
    let dims: Vec<usize> = e.top_dimensions.iter().map(|c| c.dimension).collect();
    assert_eq!(dims, vec![1, 3, 0, 2, 4]);
}

#[test]
fn explanation_length_is_min_of_n_and_dimensions() {
    let v: Vec<i32> = (0..25).map(|x| x - 12).collect();
    let ones = vec![1; 25];
    let e = compute_explanation(Distance::Dot, &v, &ones, None);
    assert_eq!(e.top_dimensions.len(), DEFAULT_TOP_DIMENSIONS);
    for w in e.top_dimensions.windows(2) {
        assert!(w[0].contribution.abs() >= w[1].contribution.abs());
    }
    assert_eq!(e.top_dimensions[0].dimension, 0);
    assert_eq!(e.top_dimensions[1].dimension, 24);
    let e = compute_explanation(Distance::Manhattan, &[1, 2], &[3, 3], Some(5));
    assert_eq!(e.top_dimensions.len(), 2);
    let e = compute_explanation(Distance::Cosine, &[1, 2], &[3, 3], Some(0));
    assert!(e.top_dimensions.is_empty());
}

#[test]
fn details_level_clamps_to_the_last_tier() {
    assert_eq!(DetailsLevel::from(0usize), DetailsLevel::Level0);
    assert_eq!(DetailsLevel::from(3usize), DetailsLevel::Level3);
    assert_eq!(DetailsLevel::from(4usize), DetailsLevel::Level4);
    assert_eq!(DetailsLevel::from(99usize), DetailsLevel::Level4);
    assert!(DetailsLevel::Level1 < DetailsLevel::Level2);
}

#[test]
fn telemetry_detail_defaults_and_new() {
    let d = TelemetryDetail::default();
    assert_eq!(d.level, DetailsLevel::Level0);
    assert!(!d.histograms);
    let d = TelemetryDetail::new(DetailsLevel::Level3, true);
    assert_eq!(d.level, DetailsLevel::Level3);
    assert!(d.histograms);
}
