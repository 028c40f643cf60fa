//! The linear map from the embedding width to the hidden width.
use vstd::prelude::*;
use crate::error::{EmbeddingError, shape_error};
use crate::fixed::{ONE, dot, dot_product, div_toward_zero, narrow, saturate, trunc_div};
use crate::tensor::{Tensor3, first_misfit_row, has_shape, lemma_flat_view, rows_of_width};

verus! {

/// Output `j` of the linear map: the inner product of `x` with row `j` of
/// `weight`, brought back to stored units, plus `bias[j]`.
pub open spec fn linear_output(x: Seq<i32>, weight: Seq<Seq<i32>>, bias: Seq<i32>, j: int) -> i32 {
    saturate(trunc_div(dot(weight[j], x), ONE as int) + bias[j])
}

/// The linear map applied to one vector.
pub open spec fn linear_vector(x: Seq<i32>, weight: Seq<Seq<i32>>, bias: Seq<i32>) -> Seq<i32> {
    Seq::new(bias.len(), |j: int| linear_output(x, weight, bias, j))
}

/// The linear map applied to every vector of `x`.
pub open spec fn projected(x: Seq<Seq<Seq<i32>>>, weight: Seq<Seq<i32>>, bias: Seq<i32>) -> Seq<Seq<Seq<i32>>> {
    Seq::new(x.len(), |b: int| Seq::new(x[b].len(), |i: int| linear_vector(x[b][i], weight, bias)))
}

/// Why `weight` and `bias` do not make a linear map from `inputs` numbers, if
/// they do not: there must be one row of `inputs` weights for each bias.
pub open spec fn projector_fault(weight: Seq<Seq<i32>>, bias: Seq<i32>, inputs: nat) -> Option<EmbeddingError> {
    if weight.len() != bias.len() {
        Some(shape_error(bias.len() as usize, weight.len() as usize))
    } else if !rows_of_width(weight, inputs) {
        Some(shape_error(inputs as usize, weight[first_misfit_row(weight, inputs)].len() as usize))
    } else {
        None
    }
}

/// A dense linear map with a bias: `y = W x + b`.
#[derive(Debug)]
pub struct Projector {
    weight: Vec<Vec<i32>>,
    bias: Vec<i32>,
    inputs: usize,
}

impl Projector {
    /// There is one row of weights for each output, as wide as the input.
    #[verifier::type_invariant]
    pub closed spec fn wf(&self) -> bool {
        &&& self.weight@.len() == self.bias@.len()
        &&& rows_of_width(self.weight.deep_view(), self.inputs as nat)
    }

    /// The weights: one row for each output.
    pub closed spec fn weights(&self) -> Seq<Seq<i32>> {
        self.weight.deep_view()
    }

    /// The biases: one for each output.
    pub closed spec fn biases(&self) -> Seq<i32> {
        self.bias@
    }

    /// The width of the vectors that the map takes.
    pub closed spec fn inputs(&self) -> nat {
        self.inputs as nat
    }

    /// The width of the vectors that the map gives.
    pub open spec fn outputs(&self) -> nat {
        self.biases().len()
    }

    /// A well-formed map has one row of weights of the input's width for each
    /// bias.
    pub proof fn lemma_wf_shape(&self)
        requires
            self.wf(),
        ensures
            projector_fault(self.weights(), self.biases(), self.inputs()) is None,
    {
    }

    /// The linear map with the rows of `weight` and with `bias`, on vectors of
    /// `in_features` numbers.
    pub fn new(weight: Vec<Vec<i32>>, bias: Vec<i32>, in_features: usize) -> (result: Result<
        Projector,
        EmbeddingError,
    >)
        ensures
            match result {
                Ok(p) => projector_fault(weight.deep_view(), bias@, in_features as nat) is None && p.wf()
                    && p.weights() == weight.deep_view() && p.biases() == bias@ && p.inputs() == in_features,
                Err(e) => projector_fault(weight.deep_view(), bias@, in_features as nat) == Some(e),
            },
    {
        if weight.len() != bias.len() {
            return Err(EmbeddingError::ShapeError { expected: bias.len(), found: weight.len() });
        }
        let ghost view = weight.deep_view();
        let mut r: usize = 0;
        while r < weight.len()
            invariant
                r <= weight.len(),
                weight.len() == bias.len(),
                view == weight.deep_view(),
                forall|q: int| 0 <= q < r ==> (#[trigger] view[q]).len() == in_features,
            decreases weight.len() - r,
        {
            if weight[r].len() != in_features {
                proof {
                    assert(view[r as int].len() != in_features);
                    let first = first_misfit_row(view, in_features as nat);
                    assert(0 <= first < view.len() && view[first].len() != in_features && forall|q: int|
                        0 <= q < first ==> (#[trigger] view[q]).len() == in_features);
                    assert(first == r);
                }
                return Err(EmbeddingError::ShapeError { expected: in_features, found: weight[r].len() });
            }
            r = r + 1;
        }
        Ok(Projector { weight, bias, inputs: in_features })
    }

    /// The width of the vectors that the map takes.
    pub fn in_features(&self) -> (n: usize)
        ensures
            n == self.inputs(),
    {
        self.inputs
    }

    /// The width of the vectors that the map gives.
    pub fn out_features(&self) -> (n: usize)
        ensures
            n == self.outputs(),
    {
        self.bias.len()
    }

    /// The map applied to one vector of the input's width.
    fn linear(&self, x: &Vec<i32>) -> (y: Vec<i32>)
        requires
            x@.len() == self.inputs(),
        ensures
            y@ == linear_vector(x@, self.weights(), self.biases()),
    {
        proof {
            use_type_invariant(self);
        }
        let outputs: usize = self.bias.len();
        let mut y: Vec<i32> = Vec::with_capacity(outputs);
        let mut j: usize = 0;
        while j < outputs
            invariant
                j <= outputs,
                outputs == self.bias@.len(),
                self.wf(),
                x@.len() == self.inputs,
                y@.len() == j,
                forall|q: int| 0 <= q < j ==> y@[q] == linear_output(x@, self.weights(), self.biases(), q),
            decreases outputs - j,
        {
            proof {
                assert(self.weight.deep_view()[j as int].len() == self.inputs);
                lemma_flat_view(&self.weight@[j as int]);
            }
            let acc: i128 = dot_product(&self.weight[j], x);
            let scaled: i128 = div_toward_zero(acc, 65536);
            let bias: i128 = self.bias[j] as i128;
            y.push(narrow(scaled + bias));
            j = j + 1;
        }
        assert(y@ =~= linear_vector(x@, self.weights(), self.biases()));
        y
    }

    /// The map applied to every vector of `x`, whose width must be the
    /// input's.
    pub fn project(&self, x: &Tensor3) -> (result: Result<Tensor3, EmbeddingError>)
        ensures
            x.dims().2 != self.inputs() ==> result == Err::<Tensor3, EmbeddingError>(
                shape_error(self.inputs() as usize, x.dims().2 as usize),
            ),
            x.dims().2 == self.inputs() ==> result is Ok,
            result matches Ok(y) ==> y@ == projected(x@, self.weights(), self.biases()) && y.wf() && y.dims() == (
                x.dims().0,
                x.dims().1,
                self.outputs(),
            ),
    {
        let batch: usize = x.batch_size();
        let len: usize = x.seq_len();
        let width: usize = x.width();
        if width != self.inputs {
            return Err(EmbeddingError::ShapeError { expected: self.inputs, found: width });
        }
        let outputs: usize = self.bias.len();
        let mut data: Vec<Vec<Vec<i32>>> = Vec::with_capacity(batch);
        let mut b: usize = 0;
        while b < batch
            invariant
                b <= batch,
                x.dims() == (batch as nat, len as nat, width as nat),
                has_shape(x@, batch as nat, len as nat, width as nat),
                width == self.inputs,
                outputs == self.bias@.len(),
                data@.len() == b,
                forall|q: int| 0 <= q < b ==> (#[trigger] data@[q]).deep_view() == projected(x@, self.weights(), self.biases())[q],
            decreases batch - b,
        {
            let mut row: Vec<Vec<i32>> = Vec::with_capacity(len);
            let mut i: usize = 0;
            while i < len
                invariant
                    i <= len,
                    b < batch,
                    x.dims() == (batch as nat, len as nat, width as nat),
                    has_shape(x@, batch as nat, len as nat, width as nat),
                    width == self.inputs,
                    row@.len() == i,
                    forall|j: int| 0 <= j < i ==> (#[trigger] row@[j]).deep_view() == linear_vector(x@[b as int][j], self.weights(), self.biases()),
                decreases len - i,
            {
                let y = self.linear(x.vector(b, i));
                proof {
                    lemma_flat_view(&y);
                }
                row.push(y);
                i = i + 1;
            }
            proof {
                assert(x@[b as int].len() == len);
                assert(row.deep_view() =~= projected(x@, self.weights(), self.biases())[b as int]);
            }
            data.push(row);
            b = b + 1;
        }
        proof {
            let goal = projected(x@, self.weights(), self.biases());
            assert(data.deep_view() =~= goal);
            assert forall|q: int| 0 <= q < goal.len() implies (#[trigger] goal[q]).len() == len by {
                assert(x@[q].len() == len);
            }
        }
        Ok(Tensor3::from_parts(data, len, outputs))
    }
}

} // verus!
