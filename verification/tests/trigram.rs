use mobilebert_embeddings::tensor::Tensor3;
use mobilebert_embeddings::trigram::TrigramFuser;

#[test]
fn fuse_joins_each_vector_with_its_neighbours() {
    let x = Tensor3::from_nested(vec![vec![vec![1, 2], vec![3, 4], vec![5, 6], vec![7, 8]]]).unwrap();
    let fusion = TrigramFuser::fuse(&x);
    assert_eq!(fusion.batch_size(), 1);
    assert_eq!(fusion.seq_len(), 4);
    assert_eq!(fusion.width(), 6);
    assert_eq!(
        fusion.into_nested(),
        vec![vec![
            vec![0, 0, 1, 2, 3, 4],
            vec![1, 2, 3, 4, 5, 6],
            vec![3, 4, 5, 6, 7, 8],
            vec![5, 6, 7, 8, 0, 0],
        ]]
    );
}

#[test]
fn fuse_fills_both_sides_of_a_single_position_with_zeros() {
    let x = Tensor3::from_nested(vec![vec![vec![4, 5, 6]]]).unwrap();
    assert_eq!(TrigramFuser::fuse(&x).into_nested(), vec![vec![vec![0, 0, 0, 4, 5, 6, 0, 0, 0]]]);
}

#[test]
fn fuse_treats_each_row_on_its_own() {
    let x = Tensor3::from_nested(vec![vec![vec![1], vec![2], vec![3]], vec![vec![4], vec![5], vec![6]]]).unwrap();
    assert_eq!(
        TrigramFuser::fuse(&x).into_nested(),
        vec![
            vec![vec![0, 1, 2], vec![1, 2, 3], vec![2, 3, 0]],
            vec![vec![0, 4, 5], vec![4, 5, 6], vec![5, 6, 0]],
        ]
    );
}

#[test]
fn fuse_of_rows_without_positions_keeps_the_extents() {
    let x = Tensor3::zeros(2, 0, 5);
    let fusion = TrigramFuser::fuse(&x);
    assert_eq!(fusion.batch_size(), 2);
    assert_eq!(fusion.seq_len(), 0);
    assert_eq!(fusion.width(), 15);
}
