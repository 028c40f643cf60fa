//! Decoding of masked positions: the best-scoring id and its score.
use vstd::prelude::*;
use crate::error::{EmbeddingError, index_error, shape_error};
use crate::tensor::{Tensor3, has_shape};

verus! {

/// A cell of a score array: a row of the batch and a position in it.
#[derive(Debug, Clone, Copy, PartialEq, Eq, Structural)]
pub struct MaskPosition {
    pub batch_index: usize,
    pub sequence_index: usize,
}

/// The id that won at a mask position, and its score as it stands in the
/// score array.
#[derive(Debug, Clone, Copy, PartialEq, Eq, Structural)]
pub struct DecodeResult {
    pub token_id: usize,
    pub score: i32,
}

/// `id` has the highest of `scores`, and no lower id has a score as high.
pub open spec fn is_first_maximum(scores: Seq<i32>, id: int) -> bool {
    &&& 0 <= id < scores.len()
    &&& forall|j: int| 0 <= j < scores.len() ==> scores[j] <= scores[id]
    &&& forall|j: int| 0 <= j < id ==> scores[j] < scores[id]
}

/// The lowest id with the highest of `scores`.
pub open spec fn argmax(scores: Seq<i32>) -> int {
    choose|id: int| is_first_maximum(scores, id)
}

/// Why `position` cannot be decoded in a score array of extents `dims`, if it
/// cannot: an index is out of bounds, or there is no id to choose from.
pub open spec fn position_fault(dims: (nat, nat, nat), position: MaskPosition) -> Option<EmbeddingError> {
    if position.batch_index >= dims.0 {
        Some(index_error(position.batch_index, dims.0 as usize))
    } else if position.sequence_index >= dims.1 {
        Some(index_error(position.sequence_index, dims.1 as usize))
    } else if dims.2 == 0 {
        Some(shape_error(1, 0))
    } else {
        None
    }
}

/// The first of `positions` that cannot be decoded.
pub open spec fn first_fault(dims: (nat, nat, nat), positions: Seq<MaskPosition>) -> int {
    choose|p: int|
        0 <= p < positions.len() && position_fault(dims, #[trigger] positions[p]) is Some && forall|q: int|
            0 <= q < p ==> position_fault(dims, #[trigger] positions[q]) is None
}

/// The winner at `position`: the lowest id with the highest score there.
pub open spec fn decoded(scores: Seq<Seq<Seq<i32>>>, position: MaskPosition) -> DecodeResult {
    let cell = scores[position.batch_index as int][position.sequence_index as int];
    DecodeResult { token_id: argmax(cell) as usize, score: cell[argmax(cell)] }
}

/// What decoding gives: the winner at each position in order, or the failure
/// of the first position that cannot be decoded.
pub open spec fn decode_of(scores: Seq<Seq<Seq<i32>>>, dims: (nat, nat, nat), positions: Seq<MaskPosition>) -> Result<
    Seq<DecodeResult>,
    EmbeddingError,
> {
    if forall|p: int| 0 <= p < positions.len() ==> position_fault(dims, #[trigger] positions[p]) is None {
        Ok(Seq::new(positions.len(), |p: int| decoded(scores, positions[p])))
    } else {
        Err(position_fault(dims, positions[first_fault(dims, positions)]).unwrap())
    }
}

/// Only one id is the first maximum.
pub proof fn lemma_argmax_unique(scores: Seq<i32>, id: int)
    requires
        is_first_maximum(scores, id),
    ensures
        argmax(scores) == id,
{
    let other = argmax(scores);
    assert(is_first_maximum(scores, other));
    if other < id {
        assert(scores[other] < scores[id]);
    } else if id < other {
        assert(scores[id] < scores[other]);
    }
}

/// Where two ids share the highest score, the lower one wins: the winner is
/// never above an id that holds the highest score.
pub proof fn lemma_tie_goes_to_lowest(scores: Seq<i32>, id: int)
    requires
        0 <= id < scores.len(),
        forall|j: int| 0 <= j < scores.len() ==> scores[j] <= scores[id],
    ensures
        is_first_maximum(scores, argmax(scores)),
        argmax(scores) <= id,
        scores[argmax(scores)] == scores[id],
{
    lemma_first_maximum_exists(scores, scores.len());
    assert(scores.take(scores.len() as int) =~= scores);
    let winner = argmax(scores);
    assert(is_first_maximum(scores, winner));
    if id < winner {
        assert(scores[id] < scores[winner]);
    }
}

/// Among the first `k` scores there is a first maximum.
proof fn lemma_first_maximum_exists(scores: Seq<i32>, k: nat)
    requires
        0 < k <= scores.len(),
    ensures
        exists|id: int| #[trigger] is_first_maximum(scores.take(k as int), id),
    decreases k,
{
    let head = scores.take(k as int);
    if k == 1 {
        assert(is_first_maximum(head, 0));
    } else {
        lemma_first_maximum_exists(scores, (k - 1) as nat);
        let shorter = scores.take(k - 1);
        let id = choose|id: int| #[trigger] is_first_maximum(shorter, id);
        assert(forall|j: int| 0 <= j < k - 1 ==> shorter[j] == head[j]);
        if head[k - 1] > head[id] {
            assert(is_first_maximum(head, k - 1));
        } else {
            assert(is_first_maximum(head, id));
        }
    }
}

/// The lowest id with the highest score of `scores`; none where `scores` is
/// empty.
pub fn first_maximum(scores: &Vec<i32>) -> (winner: Option<usize>)
    ensures
        scores@.len() == 0 <==> winner is None,
        winner matches Some(id) ==> is_first_maximum(scores@, id as int) && id == argmax(scores@),
{
    if scores.len() == 0 {
        return None;
    }
    let mut best: usize = 0;
    let mut j: usize = 1;
    while j < scores.len()
        invariant
            1 <= j <= scores.len(),
            best < j,
            forall|q: int| 0 <= q < j ==> scores@[q] <= scores@[best as int],
            forall|q: int| 0 <= q < best ==> scores@[q] < scores@[best as int],
        decreases scores.len() - j,
    {
        if scores[j] > scores[best] {
            best = j;
        }
        j = j + 1;
    }
    proof {
        lemma_argmax_unique(scores@, best as int);
    }
    Some(best)
}

/// Picks the best-scoring id at mask positions of a score array.
#[derive(Debug, Clone, Copy)]
pub struct MaskedTokenDecoder;

impl MaskedTokenDecoder {
    /// For each of `positions`, in order, the id with the highest score in
    /// that cell of `scores` and that score as it stands. Where ids tie for
    /// the highest score, the lowest id wins. Nothing is returned unless every
    /// position can be decoded: the first that cannot is reported.
    pub fn decode(scores: &Tensor3, positions: &Vec<MaskPosition>) -> (result: Result<
        Vec<DecodeResult>,
        EmbeddingError,
    >)
        ensures
            match result {
                Ok(winners) => decode_of(scores@, scores.dims(), positions@) == Ok::<
                    Seq<DecodeResult>,
                    EmbeddingError,
                >(winners@),
                Err(e) => decode_of(scores@, scores.dims(), positions@) == Err::<Seq<DecodeResult>, EmbeddingError>(e),
            },
            result matches Ok(winners) ==> winners@.len() == positions@.len() && forall|p: int|
                0 <= p < positions@.len() ==> {
                    let cell = scores@[positions@[p].batch_index as int][positions@[p].sequence_index as int];
                    &&& is_first_maximum(cell, (#[trigger] winners@[p]).token_id as int)
                    &&& winners@[p].score == cell[winners@[p].token_id as int]
                },
    {
        let batch: usize = scores.batch_size();
        let len: usize = scores.seq_len();
        let width: usize = scores.width();
        let ghost dims = scores.dims();
        let mut winners: Vec<DecodeResult> = Vec::with_capacity(positions.len());
        let mut p: usize = 0;
        while p < positions.len()
            invariant
                p <= positions.len(),
                dims == scores.dims(),
                dims == (batch as nat, len as nat, width as nat),
                has_shape(scores@, batch as nat, len as nat, width as nat),
                winners@.len() == p,
                forall|q: int| 0 <= q < p ==> position_fault(dims, #[trigger] positions@[q]) is None,
                forall|q: int| 0 <= q < p ==> #[trigger] winners@[q] == decoded(scores@, positions@[q]),
                forall|q: int|
                    0 <= q < p ==> {
                        let cell = scores@[positions@[q].batch_index as int][positions@[q].sequence_index as int];
                        &&& is_first_maximum(cell, (#[trigger] winners@[q]).token_id as int)
                        &&& winners@[q].score == cell[winners@[q].token_id as int]
                    },
            decreases positions.len() - p,
        {
            let position: MaskPosition = positions[p];
            let fault: Option<EmbeddingError> = if position.batch_index >= batch {
                Some(EmbeddingError::IndexError { index: position.batch_index, bound: batch })
            } else if position.sequence_index >= len {
                Some(EmbeddingError::IndexError { index: position.sequence_index, bound: len })
            } else if width == 0 {
                Some(EmbeddingError::ShapeError { expected: 1, found: 0 })
            } else {
                None
            };
            assert(fault == position_fault(dims, position));
            match fault {
                Some(e) => {
                    proof {
                        let first = first_fault(dims, positions@);
                        assert(0 <= first < positions@.len() && position_fault(dims, positions@[first]) is Some
                            && forall|q: int| 0 <= q < first ==> position_fault(dims, #[trigger] positions@[q]) is None) by {
                            assert(position_fault(dims, positions@[p as int]) is Some);
                        }
                        assert(first == p);
                    }
                    return Err(e);
                },
                None => {},
            }
            let cell = scores.vector(position.batch_index, position.sequence_index);
            let id: usize = match first_maximum(cell) {
                Some(id) => id,
                None => {
                    assert(false);
                    0
                },
            };
            winners.push(DecodeResult { token_id: id, score: cell[id] });
            p = p + 1;
        }
        proof {
            assert(winners@ =~= Seq::new(positions@.len(), |p: int| decoded(scores@, positions@[p])));
        }
        Ok(winners)
    }
}

} // verus!
