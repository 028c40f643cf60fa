use mobilebert_embeddings::batch::{Batch, BatchBuilder};
use mobilebert_embeddings::error::EmbeddingError;

#[test]
fn build_pads_to_the_longest_sequence() {
    let sequences = vec![vec![101, 7, 8, 102], vec![101, 9, 102], vec![101, 1, 2, 3, 4, 102]];
    let batch = BatchBuilder::new(0).build(&sequences).unwrap();
    assert_eq!(batch.num_rows(), 3);
    assert_eq!(batch.num_cols(), 6);
    assert_eq!(
        batch.into_rows(),
        vec![vec![101, 7, 8, 102, 0, 0], vec![101, 9, 102, 0, 0, 0], vec![101, 1, 2, 3, 4, 102]]
    );
}

#[test]
fn build_keeps_each_sequence_as_the_prefix_of_its_row() {
    let sequences = vec![vec![5, 6], vec![], vec![9, 8, 7]];
    let batch = BatchBuilder::new(42).build(&sequences).unwrap();
    let rows = batch.into_rows();
    assert_eq!(rows.len(), sequences.len());
    for (row, sequence) in rows.iter().zip(sequences.iter()) {
        assert_eq!(row.len(), 3);
        assert_eq!(&row[..sequence.len()], &sequence[..]);
        assert!(row[sequence.len()..].iter().all(|id| *id == 42));
    }
}

#[test]
fn build_keeps_the_order_of_the_sequences() {
    let sequences = vec![vec![3], vec![1], vec![2]];
    let batch = BatchBuilder::new(0).build(&sequences).unwrap();
    assert_eq!(batch.get(0, 0), Some(3));
    assert_eq!(batch.get(1, 0), Some(1));
    assert_eq!(batch.get(2, 0), Some(2));
    assert_eq!(batch.get(3, 0), None);
    assert_eq!(batch.get(0, 1), None);
}

#[test]
fn build_of_one_sequence_adds_no_padding() {
    let sequences = vec![vec![4, 5, 6]];
    let batch = BatchBuilder::new(0).build(&sequences).unwrap();
    assert_eq!(batch.into_rows(), vec![vec![4, 5, 6]]);
}

#[test]
fn build_of_empty_sequences_has_no_columns() {
    let sequences: Vec<Vec<usize>> = vec![vec![], vec![]];
    let batch = BatchBuilder::new(0).build(&sequences).unwrap();
    assert_eq!(batch.num_rows(), 2);
    assert_eq!(batch.num_cols(), 0);
}

#[test]
fn build_fails_on_an_empty_list() {
    let sequences: Vec<Vec<usize>> = Vec::new();
    let result = BatchBuilder::new(0).build(&sequences);
    assert_eq!(result.err(), Some(EmbeddingError::ShapeError { expected: 1, found: 0 }));
}

#[test]
fn from_rows_takes_a_rectangle() {
    let batch = Batch::from_rows(vec![vec![0, 1, 2], vec![0, 1, 2]]).unwrap();
    assert_eq!(batch.num_rows(), 2);
    assert_eq!(batch.num_cols(), 3);
    assert_eq!(batch.get(1, 2), Some(2));
}

#[test]
fn from_rows_reports_the_first_row_of_another_length() {
    let result = Batch::from_rows(vec![vec![0, 1, 2], vec![0, 1], vec![0]]);
    assert_eq!(result.err(), Some(EmbeddingError::ShapeError { expected: 3, found: 2 }));
}

#[test]
fn from_rows_of_nothing_is_an_empty_batch() {
    let batch = Batch::from_rows(Vec::new()).unwrap();
    assert_eq!(batch.num_rows(), 0);
    assert_eq!(batch.num_cols(), 0);
}
