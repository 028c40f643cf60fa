use mobilebert_embeddings::batch::{Batch, BatchBuilder};
use mobilebert_embeddings::decoder::{DecodeResult, MaskPosition, MaskedTokenDecoder};
use mobilebert_embeddings::embeddings::{EmbeddingConfig, EmbeddingWeights, MobileBertEmbeddings};
use mobilebert_embeddings::error::{EmbeddingError, InputConflict};
use mobilebert_embeddings::normalizer::NormalizationVariant;
use mobilebert_embeddings::tensor::Tensor3;

const ONE: i32 = 65536;

/// One embedding feature, two hidden features, trigram fusion: the first
/// hidden feature is the sum of the three fused numbers, the second the
/// position's own number.
fn trigram_model() -> MobileBertEmbeddings {
    let config = EmbeddingConfig {
        vocab_size: 5,
        embedding_size: 1,
        hidden_size: 2,
        max_position_embeddings: 4,
        type_vocab_size: 2,
        pad_token_id: None,
        trigram_input: None,
        normalization_variant: NormalizationVariant::Full,
        dropout_probability: 32768,
    };
    let weights = EmbeddingWeights {
        word_embeddings: vec![vec![9 * ONE], vec![ONE], vec![2 * ONE], vec![3 * ONE], vec![4 * ONE]],
        position_embeddings: vec![vec![0, 0], vec![ONE, 0], vec![2 * ONE, 0], vec![3 * ONE, 0]],
        token_type_embeddings: vec![vec![0, 0], vec![0, 0]],
        transformation_weight: vec![vec![ONE, ONE, ONE], vec![0, ONE, 0]],
        transformation_bias: vec![0, 0],
        norm_scale: vec![ONE, ONE / 2],
        norm_shift: Some(vec![ONE, 2 * ONE]),
    };
    MobileBertEmbeddings::new(weights, &config).unwrap()
}

/// Two features throughout, no fusion: the projection is not applied.
fn plain_config() -> EmbeddingConfig {
    EmbeddingConfig {
        vocab_size: 3,
        embedding_size: 2,
        hidden_size: 2,
        max_position_embeddings: 2,
        type_vocab_size: 1,
        pad_token_id: Some(2),
        trigram_input: Some(false),
        normalization_variant: NormalizationVariant::ScaleOnly,
        dropout_probability: 0,
    }
}

fn plain_weights() -> EmbeddingWeights {
    EmbeddingWeights {
        word_embeddings: vec![vec![ONE, 3 * ONE], vec![7 * ONE, 2 * ONE], vec![5, 5]],
        position_embeddings: vec![vec![0, 0], vec![0, 4 * ONE]],
        token_type_embeddings: vec![vec![0, 0]],
        transformation_weight: vec![vec![9 * ONE, 9 * ONE], vec![9 * ONE, 9 * ONE]],
        transformation_bias: vec![ONE, ONE],
        norm_scale: vec![ONE, ONE],
        norm_shift: None,
    }
}

fn rows(values: Vec<Vec<usize>>) -> Batch {
    Batch::from_rows(values).unwrap()
}

#[test]
fn forward_fuses_projects_adds_and_normalizes() {
    let model = trigram_model();
    let ids = rows(vec![vec![1, 2, 3]]);
    let types = rows(vec![vec![0, 1, 0]]);
    let positions = rows(vec![vec![0, 1, 2]]);
    // fused: [0,1,2] [1,2,3] [2,3,0]; projected: [3,1] [6,2] [5,3];
    // with positions: [3,1] [7,2] [7,3]; standard scores: 65535 and -65535 in each
    let out = model.forward_t(Some(&ids), &types, &positions, None, false, None).unwrap();
    assert_eq!(out.batch_size(), 1);
    assert_eq!(out.seq_len(), 3);
    assert_eq!(out.width(), 2);
    assert_eq!(out.into_nested(), vec![vec![vec![131071, 98305], vec![131071, 98305], vec![131071, 98305]]]);
}

#[test]
fn forward_takes_precomputed_embeddings_in_place_of_ids() {
    let model = trigram_model();
    let types = rows(vec![vec![0, 0, 0]]);
    let positions = rows(vec![vec![0, 1, 2]]);
    let ids = rows(vec![vec![1, 2, 3]]);
    let embeds = Tensor3::from_nested(vec![vec![vec![ONE], vec![2 * ONE], vec![3 * ONE]]]).unwrap();
    let from_embeds = model.forward_t(None, &types, &positions, Some(embeds), false, None).unwrap();
    let from_ids = model.forward_t(Some(&ids), &types, &positions, None, false, None).unwrap();
    assert_eq!(from_embeds, from_ids);
}

#[test]
fn forward_with_both_inputs_fails() {
    let model = trigram_model();
    let ids = rows(vec![vec![1, 2, 3]]);
    let embeds = Tensor3::from_nested(vec![vec![vec![ONE], vec![2 * ONE], vec![3 * ONE]]]).unwrap();
    let result = model.forward_t(Some(&ids), &ids, &ids, Some(embeds), false, None);
    assert_eq!(result, Err(EmbeddingError::ValueError(InputConflict::BothInputs)));
    assert!(result.unwrap_err().is_value_error());
}

#[test]
fn forward_with_neither_input_fails() {
    let model = trigram_model();
    let ids = rows(vec![vec![1, 2, 3]]);
    let result = model.forward_t(None, &ids, &ids, None, false, None);
    assert_eq!(result, Err(EmbeddingError::ValueError(InputConflict::NoInput)));
    assert!(result.unwrap_err().is_value_error());
}

#[test]
fn forward_skips_the_projection_without_fusion_and_with_equal_widths() {
    let model = MobileBertEmbeddings::new(plain_weights(), &plain_config()).unwrap();
    let ids = rows(vec![vec![0, 1]]);
    let types = rows(vec![vec![0, 0]]);
    let positions = rows(vec![vec![0, 0]]);
    let out = model.forward_t(Some(&ids), &types, &positions, None, false, None).unwrap();
    assert_eq!(out.into_nested(), vec![vec![vec![-65535, 65535], vec![65535, -65535]]]);
}

#[test]
fn forward_adds_position_and_type_vectors() {
    let model = MobileBertEmbeddings::new(plain_weights(), &plain_config()).unwrap();
    let ids = rows(vec![vec![0, 0]]);
    let types = rows(vec![vec![0, 0]]);
    // [1, 3] + [0, 4] = [1, 7]: deviations of 3 on both sides of the mean
    let positions = rows(vec![vec![0, 1]]);
    let out = model.forward_t(Some(&ids), &types, &positions, None, false, None).unwrap();
    assert_eq!(out.into_nested(), vec![vec![vec![-65535, 65535], vec![-65535, 65535]]]);
}

#[test]
fn forward_embeds_the_padding_id_as_zero() {
    let model = MobileBertEmbeddings::new(plain_weights(), &plain_config()).unwrap();
    let ids = rows(vec![vec![2, 2]]);
    let types = rows(vec![vec![0, 0]]);
    let positions = rows(vec![vec![0, 0]]);
    let out = model.forward_t(Some(&ids), &types, &positions, None, false, None).unwrap();
    assert_eq!(out, Tensor3::zeros(1, 2, 2));
}

#[test]
fn forward_fails_on_a_word_id_outside_the_vocabulary() {
    let model = trigram_model();
    let ids = rows(vec![vec![1, 5, 7]]);
    let other = rows(vec![vec![0, 0, 0]]);
    let result = model.forward_t(Some(&ids), &other, &other, None, false, None);
    assert_eq!(result, Err(EmbeddingError::IndexError { index: 5, bound: 5 }));
}

#[test]
fn forward_fails_on_a_position_id_outside_the_table() {
    let model = trigram_model();
    let ids = rows(vec![vec![1, 2, 3]]);
    let types = rows(vec![vec![0, 0, 0]]);
    let positions = rows(vec![vec![0, 1, 4]]);
    let result = model.forward_t(Some(&ids), &types, &positions, None, false, None);
    assert_eq!(result, Err(EmbeddingError::IndexError { index: 4, bound: 4 }));
}

#[test]
fn forward_fails_on_a_type_id_outside_the_table() {
    let model = trigram_model();
    let ids = rows(vec![vec![1, 2, 3]]);
    let types = rows(vec![vec![0, 2, 0]]);
    let positions = rows(vec![vec![0, 1, 2]]);
    let result = model.forward_t(Some(&ids), &types, &positions, None, false, None);
    assert_eq!(result, Err(EmbeddingError::IndexError { index: 2, bound: 2 }));
}

#[test]
fn forward_fails_on_ids_of_other_extents() {
    let model = trigram_model();
    let ids = rows(vec![vec![1, 2, 3]]);
    let good = rows(vec![vec![0, 0, 0]]);
    let short = rows(vec![vec![0, 0]]);
    let tall = rows(vec![vec![0, 0, 0], vec![0, 0, 0]]);
    assert_eq!(
        model.forward_t(Some(&ids), &short, &good, None, false, None),
        Err(EmbeddingError::ShapeError { expected: 3, found: 2 })
    );
    assert_eq!(
        model.forward_t(Some(&ids), &good, &tall, None, false, None),
        Err(EmbeddingError::ShapeError { expected: 1, found: 2 })
    );
}

#[test]
fn forward_fails_on_precomputed_embeddings_of_another_width() {
    let model = trigram_model();
    let other = rows(vec![vec![0, 0]]);
    let embeds = Tensor3::zeros(1, 2, 3);
    let result = model.forward_t(None, &other, &other, Some(embeds), false, None);
    assert_eq!(result, Err(EmbeddingError::ShapeError { expected: 1, found: 3 }));
}

#[test]
fn forward_twice_at_inference_gives_the_same() {
    let model = trigram_model();
    let ids = rows(vec![vec![4, 0, 2], vec![3, 3, 1]]);
    let types = rows(vec![vec![0, 1, 1], vec![1, 0, 0]]);
    let positions = rows(vec![vec![0, 1, 2], vec![3, 2, 1]]);
    let first = model.forward_t(Some(&ids), &types, &positions, None, false, None).unwrap();
    let keep = Tensor3::zeros(2, 3, 2);
    let second = model.forward_t(Some(&ids), &types, &positions, None, false, Some(&keep)).unwrap();
    assert_eq!(first, second);
    assert_eq!(first.into_nested(), second.into_nested());
}

#[test]
fn forward_in_training_applies_dropout_with_the_given_draw() {
    let model = trigram_model();
    let ids = rows(vec![vec![1, 2, 3]]);
    let types = rows(vec![vec![0, 0, 0]]);
    let positions = rows(vec![vec![0, 1, 2]]);
    let keep = Tensor3::from_nested(vec![vec![vec![1, 0], vec![0, 1], vec![1, 1]]]).unwrap();
    let out = model.forward_t(Some(&ids), &types, &positions, None, true, Some(&keep)).unwrap();
    assert_eq!(out.into_nested(), vec![vec![vec![262142, 0], vec![0, 196610], vec![262142, 196610]]]);
}

#[test]
fn forward_in_training_needs_the_draw() {
    let model = trigram_model();
    let ids = rows(vec![vec![1, 2, 3]]);
    let types = rows(vec![vec![0, 0, 0]]);
    let positions = rows(vec![vec![0, 1, 2]]);
    let result = model.forward_t(Some(&ids), &types, &positions, None, true, None);
    assert_eq!(result, Err(EmbeddingError::ValueError(InputConflict::NoKeepMask)));
    let keep = Tensor3::zeros(1, 3, 5);
    let result = model.forward_t(Some(&ids), &types, &positions, None, true, Some(&keep));
    assert_eq!(result, Err(EmbeddingError::ShapeError { expected: 2, found: 5 }));
}

#[test]
fn new_reports_a_word_table_of_the_wrong_size() {
    let mut weights = plain_weights();
    weights.word_embeddings.pop();
    let result = MobileBertEmbeddings::new(weights, &plain_config());
    assert_eq!(result.err(), Some(EmbeddingError::ShapeError { expected: 3, found: 2 }));
}

#[test]
fn new_reports_a_padding_id_outside_the_vocabulary() {
    let mut config = plain_config();
    config.pad_token_id = Some(3);
    let result = MobileBertEmbeddings::new(plain_weights(), &config);
    assert_eq!(result.err(), Some(EmbeddingError::IndexError { index: 3, bound: 3 }));
}

#[test]
fn new_reports_tables_of_the_wrong_width() {
    let mut weights = plain_weights();
    weights.position_embeddings = vec![vec![0, 0], vec![0, 0, 0]];
    let result = MobileBertEmbeddings::new(weights, &plain_config());
    assert_eq!(result.err(), Some(EmbeddingError::ShapeError { expected: 2, found: 3 }));
    let mut weights = plain_weights();
    weights.token_type_embeddings = vec![vec![0]];
    let result = MobileBertEmbeddings::new(weights, &plain_config());
    assert_eq!(result.err(), Some(EmbeddingError::ShapeError { expected: 2, found: 1 }));
}

#[test]
fn new_wants_projection_weights_as_wide_as_the_fused_vectors() {
    let mut config = plain_config();
    config.trigram_input = None;
    let result = MobileBertEmbeddings::new(plain_weights(), &config);
    assert_eq!(result.err(), Some(EmbeddingError::ShapeError { expected: 6, found: 2 }));
}

#[test]
fn new_wants_one_bias_for_each_hidden_feature() {
    let mut weights = plain_weights();
    weights.transformation_bias = vec![0, 0, 0];
    let result = MobileBertEmbeddings::new(weights, &plain_config());
    assert_eq!(result.err(), Some(EmbeddingError::ShapeError { expected: 2, found: 3 }));
}

#[test]
fn new_wants_a_shift_for_the_full_variant() {
    let mut config = plain_config();
    config.normalization_variant = NormalizationVariant::Full;
    let result = MobileBertEmbeddings::new(plain_weights(), &config);
    assert_eq!(result.err(), Some(EmbeddingError::ValueError(InputConflict::NoShift)));
}

#[test]
fn new_wants_one_scale_for_each_hidden_feature() {
    let mut weights = plain_weights();
    weights.norm_scale = vec![ONE];
    let result = MobileBertEmbeddings::new(weights, &plain_config());
    assert_eq!(result.err(), Some(EmbeddingError::ShapeError { expected: 1, found: 2 }));
}

#[test]
fn new_refuses_a_probability_above_one() {
    let mut config = plain_config();
    config.dropout_probability = 65537;
    let result = MobileBertEmbeddings::new(plain_weights(), &config);
    assert_eq!(result.err(), Some(EmbeddingError::ValueError(InputConflict::Probability)));
}

/// A fixed sequence of numbers between -32768 and 32767 that looks random.
fn next_number(state: &mut u64) -> i32 {
    *state = state.wrapping_mul(6364136223846793005).wrapping_add(1442695040888963407);
    ((*state >> 33) % 65536) as i32 - 32768
}

fn table(rows: usize, width: usize, state: &mut u64) -> Vec<Vec<i32>> {
    (0..rows).map(|_| (0..width).map(|_| next_number(state)).collect()).collect()
}

#[test]
fn two_sequences_end_to_end() {
    let vocab_size = 30522;
    let sequences = vec![vec![101, 3504, 2066, 103, 2003, 102], vec![101, 2009, 2001, 1037, 2200, 3835, 1998, 103, 102]];
    let batch = BatchBuilder::new(0).build(&sequences).unwrap();
    assert_eq!((batch.num_rows(), batch.num_cols()), (2, 9));
    assert_eq!(batch.get(0, 5), Some(102));
    assert_eq!(batch.get(0, 6), Some(0));
    assert_eq!(batch.get(1, 8), Some(102));

    let mut state = 7;
    let config = EmbeddingConfig {
        vocab_size,
        embedding_size: 128,
        hidden_size: 512,
        max_position_embeddings: 512,
        type_vocab_size: 2,
        pad_token_id: None,
        trigram_input: Some(true),
        normalization_variant: NormalizationVariant::Full,
        dropout_probability: 0,
    };
    let weights = EmbeddingWeights {
        word_embeddings: table(vocab_size, 128, &mut state),
        position_embeddings: table(512, 512, &mut state),
        token_type_embeddings: table(2, 512, &mut state),
        transformation_weight: table(512, 384, &mut state),
        transformation_bias: table(1, 512, &mut state).remove(0),
        norm_scale: vec![ONE; 512],
        norm_shift: Some(vec![0; 512]),
    };
    let model = MobileBertEmbeddings::new(weights, &config).unwrap();
    let types = rows(vec![vec![0; 9], vec![0; 9]]);
    let positions = rows(vec![(0..9).collect(), (0..9).collect()]);
    let out = model.forward_t(Some(&batch), &types, &positions, None, false, None).unwrap();
    assert_eq!((out.batch_size(), out.seq_len(), out.width()), (2, 9, 512));
    let again = model.forward_t(Some(&batch), &types, &positions, None, false, None).unwrap();
    assert_eq!(out, again);

    let scores: Vec<Vec<Vec<i32>>> = (0..2).map(|_| table(9, vocab_size, &mut state)).collect();
    let matrix = Tensor3::from_nested(scores.clone()).unwrap();
    assert_eq!((matrix.batch_size(), matrix.seq_len(), matrix.width()), (2, 9, vocab_size));
    let positions = vec![
        MaskPosition { batch_index: 0, sequence_index: 4 },
        MaskPosition { batch_index: 1, sequence_index: 7 },
    ];
    let winners = MaskedTokenDecoder::decode(&matrix, &positions).unwrap();
    let mut expected = Vec::new();
    for (b, i) in [(0usize, 4usize), (1, 7)] {
        let cell = &scores[b][i];
        let best = *cell.iter().max().unwrap();
        let id = cell.iter().position(|score| *score == best).unwrap();
        expected.push(DecodeResult { token_id: id, score: cell[id] });
    }
    assert_eq!(winners, expected);
}
