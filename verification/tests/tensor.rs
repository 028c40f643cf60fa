use mobilebert_embeddings::error::EmbeddingError;
use mobilebert_embeddings::tensor::Tensor3;

#[test]
fn from_nested_records_the_extents() {
    let t = Tensor3::from_nested(vec![vec![vec![1, 2, 3], vec![4, 5, 6]]]).unwrap();
    assert_eq!(t.batch_size(), 1);
    assert_eq!(t.seq_len(), 2);
    assert_eq!(t.width(), 3);
    assert_eq!(t.get(0, 1, 2), Some(6));
    assert_eq!(t.get(0, 2, 0), None);
    assert_eq!(t.get(1, 0, 0), None);
    assert_eq!(t.get(0, 0, 3), None);
    assert_eq!(t.into_nested(), vec![vec![vec![1, 2, 3], vec![4, 5, 6]]]);
}

#[test]
fn from_nested_refuses_rows_of_different_lengths() {
    let result = Tensor3::from_nested(vec![vec![vec![1], vec![2]], vec![vec![3]]]);
    assert_eq!(result.err(), Some(EmbeddingError::ShapeError { expected: 2, found: 1 }));
}

#[test]
fn from_nested_refuses_vectors_of_different_widths() {
    let result = Tensor3::from_nested(vec![vec![vec![1, 2], vec![3]]]);
    assert_eq!(result.err(), Some(EmbeddingError::ShapeError { expected: 2, found: 1 }));
}

#[test]
fn zeros_holds_only_zeros() {
    let t = Tensor3::zeros(2, 1, 3);
    assert_eq!(t.into_nested(), vec![vec![vec![0, 0, 0]], vec![vec![0, 0, 0]]]);
}

#[test]
fn same_shape_reports_the_first_extent_that_differs() {
    let t = Tensor3::zeros(2, 3, 4);
    assert_eq!(t.same_shape(&Tensor3::zeros(2, 3, 4)), Ok(()));
    assert_eq!(t.same_shape(&Tensor3::zeros(1, 3, 4)), Err(EmbeddingError::ShapeError { expected: 2, found: 1 }));
    assert_eq!(t.same_shape(&Tensor3::zeros(2, 9, 9)), Err(EmbeddingError::ShapeError { expected: 3, found: 9 }));
    assert_eq!(t.same_shape(&Tensor3::zeros(2, 3, 5)), Err(EmbeddingError::ShapeError { expected: 4, found: 5 }));
}
