use mobilebert_embeddings::error::EmbeddingError;
use mobilebert_embeddings::projector::Projector;
use mobilebert_embeddings::tensor::Tensor3;

const ONE: i32 = 65536;

#[test]
fn project_computes_the_weighted_sum_plus_bias() {
    // 0.5 * 1.0 + 1.0 * 2.0 + 0.25 = 2.75
    let projector = Projector::new(vec![vec![ONE / 2, ONE]], vec![ONE / 4], 2).unwrap();
    let x = Tensor3::from_nested(vec![vec![vec![ONE, 2 * ONE]]]).unwrap();
    let y = projector.project(&x).unwrap();
    assert_eq!(y.into_nested(), vec![vec![vec![180224]]]);
}

#[test]
fn project_maps_every_vector_to_the_output_width() {
    let projector = Projector::new(vec![vec![ONE, 0], vec![0, ONE], vec![ONE, ONE]], vec![0, 0, ONE], 2).unwrap();
    assert_eq!(projector.in_features(), 2);
    assert_eq!(projector.out_features(), 3);
    let x = Tensor3::from_nested(vec![vec![vec![3, 4], vec![5, 6]], vec![vec![-7, 8], vec![0, 0]]]).unwrap();
    let y = projector.project(&x).unwrap();
    assert_eq!(y.batch_size(), 2);
    assert_eq!(y.seq_len(), 2);
    assert_eq!(y.width(), 3);
    assert_eq!(
        y.into_nested(),
        vec![
            vec![vec![3, 4, 7 + ONE], vec![5, 6, 11 + ONE]],
            vec![vec![-7, 8, 1 + ONE], vec![0, 0, ONE]],
        ]
    );
}

#[test]
fn project_rounds_toward_zero() {
    // 3 * 0.5 = 1.5 stored units, and -3 * 0.5 = -1.5
    let projector = Projector::new(vec![vec![ONE / 2]], vec![0], 1).unwrap();
    let x = Tensor3::from_nested(vec![vec![vec![3], vec![-3]]]).unwrap();
    assert_eq!(projector.project(&x).unwrap().into_nested(), vec![vec![vec![1], vec![-1]]]);
}

#[test]
fn project_pins_results_to_the_range() {
    let projector = Projector::new(vec![vec![i32::MAX, i32::MAX], vec![i32::MIN, i32::MIN]], vec![0, 0], 2).unwrap();
    let x = Tensor3::from_nested(vec![vec![vec![i32::MAX, i32::MAX]]]).unwrap();
    assert_eq!(projector.project(&x).unwrap().into_nested(), vec![vec![vec![i32::MAX, i32::MIN]]]);
}

#[test]
fn project_fails_on_vectors_of_another_width() {
    let projector = Projector::new(vec![vec![ONE, 0]], vec![0], 2).unwrap();
    let x = Tensor3::from_nested(vec![vec![vec![1, 2, 3]]]).unwrap();
    assert_eq!(projector.project(&x).err(), Some(EmbeddingError::ShapeError { expected: 2, found: 3 }));
}

#[test]
fn new_wants_one_row_of_weights_for_each_bias() {
    let result = Projector::new(vec![vec![1, 2]], vec![0, 0], 2);
    assert_eq!(result.err(), Some(EmbeddingError::ShapeError { expected: 2, found: 1 }));
}

#[test]
fn new_reports_the_first_row_of_weights_of_the_wrong_width() {
    let result = Projector::new(vec![vec![1, 2], vec![1, 2, 3], vec![1]], vec![0, 0, 0], 2);
    assert_eq!(result.err(), Some(EmbeddingError::ShapeError { expected: 2, found: 3 }));
}
