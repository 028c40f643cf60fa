use mobilebert_embeddings::decoder::{first_maximum, DecodeResult, MaskPosition, MaskedTokenDecoder};
use mobilebert_embeddings::error::EmbeddingError;
use mobilebert_embeddings::tensor::Tensor3;

fn at(batch_index: usize, sequence_index: usize) -> MaskPosition {
    MaskPosition { batch_index, sequence_index }
}

#[test]
fn decode_breaks_a_tie_in_favour_of_the_lowest_id() {
    let scores = Tensor3::from_nested(vec![vec![vec![1, 0, -4, 9, 2, 9, 8]]]).unwrap();
    let winners = MaskedTokenDecoder::decode(&scores, &vec![at(0, 0)]).unwrap();
    assert_eq!(winners, vec![DecodeResult { token_id: 3, score: 9 }]);
}

#[test]
fn decode_reports_the_score_as_it_stands() {
    let scores = Tensor3::from_nested(vec![
        vec![vec![-7, -3, -5], vec![100, 200, 300]],
        vec![vec![659034, 1, 2], vec![0, 0, 0]],
    ])
    .unwrap();
    let winners = MaskedTokenDecoder::decode(&scores, &vec![at(1, 0), at(0, 0), at(0, 1), at(1, 1)]).unwrap();
    assert_eq!(
        winners,
        vec![
            DecodeResult { token_id: 0, score: 659034 },
            DecodeResult { token_id: 1, score: -3 },
            DecodeResult { token_id: 2, score: 300 },
            DecodeResult { token_id: 0, score: 0 },
        ]
    );
}

#[test]
fn decode_of_no_positions_is_empty() {
    let scores = Tensor3::from_nested(vec![vec![vec![1, 2]]]).unwrap();
    assert_eq!(MaskedTokenDecoder::decode(&scores, &Vec::new()), Ok(Vec::new()));
}

#[test]
fn decode_fails_on_a_row_out_of_bounds() {
    let scores = Tensor3::from_nested(vec![vec![vec![1, 2], vec![3, 4]]]).unwrap();
    let result = MaskedTokenDecoder::decode(&scores, &vec![at(0, 1), at(1, 0)]);
    assert_eq!(result, Err(EmbeddingError::IndexError { index: 1, bound: 1 }));
}

#[test]
fn decode_fails_on_a_position_out_of_bounds() {
    let scores = Tensor3::from_nested(vec![vec![vec![1, 2], vec![3, 4]]]).unwrap();
    let result = MaskedTokenDecoder::decode(&scores, &vec![at(0, 2), at(5, 0)]);
    assert_eq!(result, Err(EmbeddingError::IndexError { index: 2, bound: 2 }));
}

#[test]
fn decode_fails_where_there_is_no_id_to_choose() {
    let scores = Tensor3::zeros(1, 1, 0);
    let result = MaskedTokenDecoder::decode(&scores, &vec![at(0, 0)]);
    assert_eq!(result, Err(EmbeddingError::ShapeError { expected: 1, found: 0 }));
}

#[test]
fn first_maximum_scans_ids_in_increasing_order() {
    assert_eq!(first_maximum(&vec![]), None);
    assert_eq!(first_maximum(&vec![5]), Some(0));
    assert_eq!(first_maximum(&vec![5, 5, 5]), Some(0));
    assert_eq!(first_maximum(&vec![i32::MIN, i32::MAX, i32::MAX]), Some(1));
    assert_eq!(first_maximum(&vec![-3, -2, -1]), Some(2));
}
