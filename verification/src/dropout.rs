//! Dropout: in training, some numbers are set to zero and the others scaled
//! up; at inference, nothing happens.
use vstd::prelude::*;
use crate::error::{EmbeddingError, InputConflict, value_error};
use crate::fixed::{ONE, div_toward_zero, narrow, saturate, trunc_div};
use crate::tensor::{Tensor3, has_shape, lemma_flat_view, shape_mismatch};

verus! {

/// What dropout with probability `p` makes of the number `x`: zero where it
/// is not kept, and `x / (1 - p)` where it is.
pub open spec fn dropped_value(x: i32, keep: i32, p: u32) -> i32 {
    if keep == 0 || p >= ONE {
        0
    } else {
        saturate(trunc_div(x * ONE, ONE - p))
    }
}

/// Dropout applied to every number of `x`; a number is kept where `keep` is
/// not zero.
pub open spec fn dropped(x: Seq<Seq<Seq<i32>>>, keep: Seq<Seq<Seq<i32>>>, p: u32) -> Seq<Seq<Seq<i32>>> {
    Seq::new(
        x.len(),
        |b: int|
            Seq::new(
                x[b].len(),
                |i: int| Seq::new(x[b][i].len(), |k: int| dropped_value(x[b][i][k], keep[b][i][k], p)),
            ),
    )
}

/// Why dropout cannot be applied, if it cannot: training needs keep
/// decisions of the input's shape.
pub open spec fn dropout_fault(dims: (nat, nat, nat), train: bool, keep: Option<(nat, nat, nat)>) -> Option<
    EmbeddingError,
> {
    if !train {
        None
    } else if keep is None {
        Some(value_error(InputConflict::NoKeepMask))
    } else {
        shape_mismatch(dims, keep.unwrap())
    }
}

/// Dropout with a fixed probability, a stored number between zero and one.
#[derive(Debug, Clone, Copy)]
pub struct Dropout {
    probability: u32,
}

impl Dropout {
    /// The probability is at most one.
    #[verifier::type_invariant]
    pub closed spec fn wf(&self) -> bool {
        self.probability <= ONE
    }

    /// The probability with which a number is dropped, as a stored number.
    pub closed spec fn p(&self) -> u32 {
        self.probability
    }

    /// Dropout with the given probability, which may not exceed one.
    pub fn new(probability: u32) -> (result: Result<Dropout, EmbeddingError>)
        ensures
            probability > ONE ==> result == Err::<Dropout, EmbeddingError>(value_error(InputConflict::Probability)),
            probability <= ONE ==> result is Ok && result.unwrap().p() == probability && result.unwrap().wf(),
    {
        if probability > 65536 {
            Err(EmbeddingError::ValueError(InputConflict::Probability))
        } else {
            Ok(Dropout { probability })
        }
    }

    /// The probability with which a number is dropped.
    pub fn probability(&self) -> (p: u32)
        ensures
            p == self.p(),
            p <= ONE,
    {
        proof {
            use_type_invariant(self);
        }
        self.probability
    }

    /// At inference, `x` as it is. In training, `x` with the numbers zeroed
    /// that `keep` marks with a zero, and the others divided by one minus the
    /// probability. The keep decisions are the caller's random draw.
    pub fn apply(&self, x: Tensor3, train: bool, keep: Option<&Tensor3>) -> (result: Result<Tensor3, EmbeddingError>)
        ensures
            match result {
                Ok(y) => dropout_fault(
                    x.dims(),
                    train,
                    match keep {
                        Some(k) => Some(k.dims()),
                        None => None,
                    },
                ) is None && y.dims() == x.dims() && y.wf() && y@ == (if train {
                    dropped(x@, keep.unwrap()@, self.p())
                } else {
                    x@
                }),
                Err(e) => dropout_fault(
                    x.dims(),
                    train,
                    match keep {
                        Some(k) => Some(k.dims()),
                        None => None,
                    },
                ) == Some(e),
            },
    {
        proof {
            use_type_invariant(self);
            use_type_invariant(&x);
        }
        if !train {
            return Ok(x);
        }
        let keep: &Tensor3 = match keep {
            Some(k) => k,
            None => {
                return Err(EmbeddingError::ValueError(InputConflict::NoKeepMask));
            },
        };
        match x.same_shape(keep) {
            Err(e) => {
                return Err(e);
            },
            Ok(_) => {},
        }
        let batch: usize = x.batch_size();
        let len: usize = x.seq_len();
        let width: usize = x.width();
        proof {
            use_type_invariant(keep);
            keep.lemma_wf_shape();
        }
        let p: u32 = self.probability;
        let mut data: Vec<Vec<Vec<i32>>> = Vec::with_capacity(batch);
        let mut b: usize = 0;
        while b < batch
            invariant
                b <= batch,
                p == self.p(),
                p <= ONE,
                x.dims() == (batch as nat, len as nat, width as nat),
                keep.dims() == x.dims(),
                has_shape(x@, batch as nat, len as nat, width as nat),
                has_shape(keep@, batch as nat, len as nat, width as nat),
                data@.len() == b,
                forall|q: int| 0 <= q < b ==> (#[trigger] data@[q]).deep_view() == dropped(x@, keep@, p)[q],
            decreases batch - b,
        {
            let mut row: Vec<Vec<i32>> = Vec::with_capacity(len);
            let mut i: usize = 0;
            while i < len
                invariant
                    i <= len,
                    b < batch,
                    p <= ONE,
                    x.dims() == (batch as nat, len as nat, width as nat),
                    keep.dims() == x.dims(),
                    has_shape(x@, batch as nat, len as nat, width as nat),
                    has_shape(keep@, batch as nat, len as nat, width as nat),
                    row@.len() == i,
                    forall|j: int| 0 <= j < i ==> (#[trigger] row@[j]).deep_view() == dropped(x@, keep@, p)[b as int][j],
                decreases len - i,
            {
                let values = x.vector(b, i);
                let marks = keep.vector(b, i);
                let mut vector: Vec<i32> = Vec::with_capacity(width);
                let mut k: usize = 0;
                while k < width
                    invariant
                        k <= width,
                        p <= ONE,
                        values@.len() == width,
                        marks@.len() == width,
                        vector@.len() == k,
                        forall|j: int| 0 <= j < k ==> vector@[j] == dropped_value(values@[j], marks@[j], p),
                    decreases width - k,
                {
                    if marks[k] == 0 || p >= 65536 {
                        vector.push(0i32);
                    } else {
                        let scaled: i128 = div_toward_zero(values[k] as i128 * 65536, 65536 - p as i128);
                        vector.push(narrow(scaled));
                    }
                    k = k + 1;
                }
                proof {
                    lemma_flat_view(&vector);
                    assert(x@[b as int].len() == len);
                    assert(vector@ =~= dropped(x@, keep@, p)[b as int][i as int]);
                }
                row.push(vector);
                i = i + 1;
            }
            proof {
                assert(x@[b as int].len() == len);
                assert(row.deep_view() =~= dropped(x@, keep@, p)[b as int]);
            }
            data.push(row);
            b = b + 1;
        }
        proof {
            let goal = dropped(x@, keep@, p);
            assert(data.deep_view() =~= goal);
            assert forall|q: int| 0 <= q < goal.len() implies (#[trigger] goal[q]).len() == len by {
                assert(x@[q].len() == len);
            }
            assert forall|q: int, i: int| 0 <= q < goal.len() && 0 <= i < goal[q].len() implies (#[trigger] goal[q][i]).len()
                == width by {
                assert(x@[q].len() == len);
                assert(x@[q][i].len() == width);
            }
        }
        Ok(Tensor3::from_parts(data, len, width))
    }
}

} // verus!
