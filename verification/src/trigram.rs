//! Trigram fusion: each position's vector joined with those of its neighbours.
use vstd::prelude::*;
use crate::tensor::{Tensor3, has_shape, zero_vector};

verus! {

/// The vector before position `i` of `row`: zeros at the start of the row.
pub open spec fn previous_vector(row: Seq<Seq<i32>>, i: int, width: nat) -> Seq<i32> {
    if i == 0 {
        zero_vector(width)
    } else {
        row[i - 1]
    }
}

/// The vector after position `i` of `row`: zeros at the end of the row.
pub open spec fn next_vector(row: Seq<Seq<i32>>, i: int, width: nat) -> Seq<i32> {
    if i == row.len() - 1 {
        zero_vector(width)
    } else {
        row[i + 1]
    }
}

/// The vectors before, at and after position `i` of `row`, joined in that order.
pub open spec fn fused_vector(row: Seq<Seq<i32>>, i: int, width: nat) -> Seq<i32> {
    previous_vector(row, i, width) + row[i] + next_vector(row, i, width)
}

/// Every vector of `e` joined with its two neighbours in its row.
pub open spec fn fused(e: Seq<Seq<Seq<i32>>>, width: nat) -> Seq<Seq<Seq<i32>>> {
    Seq::new(e.len(), |b: int| Seq::new(e[b].len(), |i: int| fused_vector(e[b], i, width)))
}

/// Fusion keeps the number of rows and positions and triples the width. At
/// each position the middle third is the position's own vector, the first
/// third the vector before it and the last third the vector after it, with
/// zeros where the row has no such neighbour.
pub proof fn lemma_fused_thirds(e: Seq<Seq<Seq<i32>>>, batch: nat, len: nat, width: nat, b: int, i: int)
    requires
        has_shape(e, batch, len, width),
        0 <= b < batch,
        0 <= i < len,
    ensures
        has_shape(fused(e, width), batch, len, 3 * width),
        fused(e, width)[b][i].subrange(width as int, 2 * width as int) == e[b][i],
        fused(e, width)[b][i].subrange(0, width as int) == (if i == 0 {
            zero_vector(width)
        } else {
            e[b][i - 1]
        }),
        fused(e, width)[b][i].subrange(2 * width as int, 3 * width as int) == (if i == len - 1 {
            zero_vector(width)
        } else {
            e[b][i + 1]
        }),
{
    lemma_fused_shape(e, batch, len, width);
    let joined = fused(e, width)[b][i];
    let before = previous_vector(e[b], i, width);
    let after = next_vector(e[b], i, width);
    assert(e[b].len() == len);
    assert(e[b][i].len() == width);
    if i > 0 {
        assert(e[b][i - 1].len() == width);
    }
    if i < len - 1 {
        assert(e[b][i + 1].len() == width);
    }
    assert(joined == before + e[b][i] + after);
    assert(joined.subrange(width as int, 2 * width as int) =~= e[b][i]);
    assert(joined.subrange(0, width as int) =~= before);
    assert(joined.subrange(2 * width as int, 3 * width as int) =~= after);
}

/// Fusion keeps the number of rows and positions and triples the width.
pub proof fn lemma_fused_shape(e: Seq<Seq<Seq<i32>>>, batch: nat, len: nat, width: nat)
    requires
        has_shape(e, batch, len, width),
    ensures
        has_shape(fused(e, width), batch, len, 3 * width),
{
    let f = fused(e, width);
    assert forall|b: int, i: int| 0 <= b < f.len() && 0 <= i < f[b].len() implies (#[trigger] f[b][i]).len() == 3
        * width by {
        assert(e[b].len() == len);
        assert(e[b][i].len() == width);
        if i > 0 {
            assert(e[b][i - 1].len() == width);
        }
        if i < len - 1 {
            assert(e[b][i + 1].len() == width);
        }
    }
}

/// Joins each position's vector with those of its two neighbours.
#[derive(Debug, Clone, Copy)]
pub struct TrigramFuser;

impl TrigramFuser {
    /// For every position the vector before it, its own and the one after it,
    /// joined along the feature axis; zeros stand in at the ends of a row.
    ///
    /// The work is done on whole arrays: the input shifted right behind a
    /// column of zeros, the input itself, and the input shifted left before a
    /// column of zeros are joined feature by feature.
    pub fn fuse(x: &Tensor3) -> (fusion: Tensor3)
        requires
            3 * x.dims().2 <= usize::MAX,
        ensures
            fusion@ == fused(x@, x.dims().2),
            fusion.dims() == (x.dims().0, x.dims().1, 3 * x.dims().2),
            fusion.wf(),
    {
        let batch: usize = x.batch_size();
        let len: usize = x.seq_len();
        let width: usize = x.width();
        if len == 0 {
            let empty = Tensor3::zeros(batch, 0, 3 * width);
            assert(empty@ =~= fused(x@, width as nat)) by {
                assert forall|b: int| 0 <= b < batch implies #[trigger] empty@[b] == fused(x@, width as nat)[b] by {
                    assert(x@[b].len() == 0);
                    assert(empty@[b] =~= fused(x@, width as nat)[b]);
                }
            }
            return empty;
        }
        let column = Tensor3::zeros(batch, 1, width);
        let head = x.slice_positions(0, len - 1);
        let tail = x.slice_positions(1, len);
        let shifted_right = column.cat_positions(&head);
        let shifted_left = tail.cat_positions(&column);
        let fusion = shifted_right.cat_features(x, &shifted_left);
        proof {
            let goal = fused(x@, width as nat);
            assert forall|b: int| 0 <= b < batch implies #[trigger] fusion@[b] == goal[b] by {
                assert(x@[b].len() == len);
                assert(shifted_right@[b] == column@[b] + head@[b]);
                assert(shifted_left@[b] == tail@[b] + column@[b]);
                assert forall|i: int| 0 <= i < len implies #[trigger] fusion@[b][i] == goal[b][i] by {
                    assert(shifted_right@[b][i] == previous_vector(x@[b], i, width as nat));
                    assert(shifted_left@[b][i] == next_vector(x@[b], i, width as nat));
                }
                assert(fusion@[b] =~= goal[b]);
            }
            assert(fusion@ =~= goal);
        }
        fusion
    }
}

} // verus!
