use mobilebert_embeddings::error::{EmbeddingError, InputConflict};
use mobilebert_embeddings::normalizer::{standard_scores, NormalizationVariant, Normalizer, MAX_WIDTH};
use mobilebert_embeddings::tensor::Tensor3;

const ONE: i32 = 65536;

fn one_vector(v: Vec<i32>) -> Tensor3 {
    Tensor3::from_nested(vec![vec![v]]).unwrap()
}

#[test]
fn full_variant_scales_and_shifts_the_standard_scores() {
    // mean 2, deviations -1 and 1, root of (1 + one unit) rounded up: 65537 units
    let normalizer = Normalizer::new(NormalizationVariant::Full, vec![2 * ONE, ONE / 2], Some(vec![ONE, -ONE])).unwrap();
    let y = normalizer.normalize(&one_vector(vec![ONE, 3 * ONE])).unwrap();
    assert_eq!(y.into_nested(), vec![vec![vec![-65534, -32769]]]);
}

#[test]
fn scale_only_variant_adds_no_shift() {
    let normalizer = Normalizer::new(NormalizationVariant::ScaleOnly, vec![2 * ONE, ONE / 2], None).unwrap();
    let y = normalizer.normalize(&one_vector(vec![ONE, 3 * ONE])).unwrap();
    assert_eq!(y.into_nested(), vec![vec![vec![-131070, 32767]]]);
}

#[test]
fn scale_only_variant_does_not_read_a_shift() {
    let normalizer = Normalizer::new(NormalizationVariant::ScaleOnly, vec![ONE, ONE], Some(vec![7, 7])).unwrap();
    assert_eq!(normalizer.variant(), NormalizationVariant::ScaleOnly);
    let y = normalizer.normalize(&one_vector(vec![ONE, 3 * ONE])).unwrap();
    assert_eq!(y.into_nested(), vec![vec![vec![-65535, 65535]]]);
}

#[test]
fn full_variant_needs_a_shift() {
    let result = Normalizer::new(NormalizationVariant::Full, vec![ONE], None);
    assert_eq!(result.err(), Some(EmbeddingError::ValueError(InputConflict::NoShift)));
}

#[test]
fn constant_vector_has_zero_scores() {
    let normalizer = Normalizer::new(NormalizationVariant::Full, vec![ONE, ONE, ONE], Some(vec![1, 2, 3])).unwrap();
    let y = normalizer.normalize(&one_vector(vec![5 * ONE, 5 * ONE, 5 * ONE])).unwrap();
    assert_eq!(y.into_nested(), vec![vec![vec![1, 2, 3]]]);
}

#[test]
fn each_vector_is_normalized_on_its_own() {
    let normalizer = Normalizer::new(NormalizationVariant::ScaleOnly, vec![ONE, ONE], None).unwrap();
    let x = Tensor3::from_nested(vec![
        vec![vec![ONE, 3 * ONE], vec![7 * ONE, 2 * ONE]],
        vec![vec![3 * ONE, 7 * ONE], vec![0, 0]],
    ])
    .unwrap();
    let y = normalizer.normalize(&x).unwrap();
    assert_eq!(
        y.into_nested(),
        vec![vec![vec![-65535, 65535], vec![65535, -65535]], vec![vec![-65535, 65535], vec![0, 0]]]
    );
}

#[test]
fn normalize_fails_on_vectors_of_another_width() {
    let normalizer = Normalizer::new(NormalizationVariant::ScaleOnly, vec![ONE, ONE], None).unwrap();
    let result = normalizer.normalize(&one_vector(vec![1, 2, 3]));
    assert_eq!(result.err(), Some(EmbeddingError::ShapeError { expected: 2, found: 3 }));
}

#[test]
fn normalize_fails_where_scale_and_shift_differ_in_length() {
    let normalizer = Normalizer::Full { scale: vec![ONE, ONE], shift: vec![0] };
    let result = normalizer.normalize(&one_vector(vec![1, 2]));
    assert_eq!(result.err(), Some(EmbeddingError::ShapeError { expected: 2, found: 1 }));
}

#[test]
fn vectors_above_the_widest_are_refused() {
    let width = MAX_WIDTH + 1;
    let normalizer = Normalizer::ScaleOnly { scale: vec![ONE; width] };
    assert_eq!(normalizer.accepts(width), Err(EmbeddingError::ShapeError { expected: MAX_WIDTH, found: width }));
    let normalizer = Normalizer::ScaleOnly { scale: vec![ONE; 4] };
    assert_eq!(normalizer.accepts(4), Ok(()));
}

#[test]
fn normalize_of_empty_vectors_is_empty() {
    let normalizer = Normalizer::new(NormalizationVariant::ScaleOnly, Vec::new(), None).unwrap();
    let y = normalizer.normalize(&Tensor3::zeros(1, 2, 0)).unwrap();
    assert_eq!(y.into_nested(), vec![vec![Vec::<i32>::new(), Vec::<i32>::new()]]);
}

#[test]
fn standard_scores_of_two_numbers() {
    assert_eq!(standard_scores(&vec![ONE, 3 * ONE]), Ok(vec![-65535, 65535]));
    // deviations -1, -1, -1, 3 in quarters of a stored unit: the variance rounds to zero
    assert_eq!(standard_scores(&vec![0, 0, 0, 1]), Ok(vec![-16384, -16384, -16384, 49152]));
    assert_eq!(standard_scores(&vec![]), Ok(vec![]));
    assert_eq!(standard_scores(&vec![77]), Ok(vec![0]));
}

#[test]
fn standard_scores_have_mean_near_zero_and_variance_near_one() {
    let vectors = vec![
        vec![ONE, 2 * ONE, 3 * ONE, 4 * ONE, 5 * ONE],
        vec![-7 * ONE, 12 * ONE, 3, -90000, 4 * ONE, 250000, -1],
        vec![i32::MAX, i32::MIN, 0, i32::MAX, i32::MIN, 17],
        (0..512).map(|k| (k * 7919) % 100003 - 50000).collect(),
    ];
    for v in vectors {
        let n = v.len() as i128;
        let z = standard_scores(&v).unwrap();
        let sum: i128 = z.iter().map(|score| *score as i128).sum();
        let squares: i128 = z.iter().map(|score| (*score as i128) * (*score as i128)).sum();
        let one = (ONE as i128) * (ONE as i128);
        assert!(-n < sum && sum < n);
        assert!(squares <= n * one);
        // these vectors are spread far wider than the stability constant
        assert!(squares * 1000 >= n * one * 999);
    }
}

#[test]
fn standard_scores_refuse_a_vector_above_the_widest() {
    let result = standard_scores(&vec![0; MAX_WIDTH + 1]);
    assert_eq!(result, Err(EmbeddingError::ShapeError { expected: MAX_WIDTH, found: MAX_WIDTH + 1 }));
}
