//! Embedding tables: one vector of fixed width for each id.
use vstd::prelude::*;
use crate::batch::{Batch, rectangular};
use crate::error::{EmbeddingError, index_error, shape_error};
use crate::tensor::{Tensor3, first_misfit_row, lemma_flat_view, rows_of_width, zero_vec, zero_vector};

verus! {

/// `weights` with the row of the padding id, if there is one, set to zeros.
pub open spec fn with_zero_row(weights: Seq<Seq<i32>>, width: nat, padding: Option<usize>) -> Seq<Seq<i32>> {
    match padding {
        Some(p) => weights.update(p as int, zero_vector(width)),
        None => weights,
    }
}

/// What a table made of `weights` holds, or why it cannot be made.
pub open spec fn table_of(weights: Seq<Seq<i32>>, width: nat, padding: Option<usize>) -> Result<
    Seq<Seq<i32>>,
    EmbeddingError,
> {
    if !rows_of_width(weights, width) {
        Err(shape_error(width as usize, weights[first_misfit_row(weights, width)].len() as usize))
    } else if padding is Some && padding.unwrap() >= weights.len() {
        Err(index_error(padding.unwrap(), weights.len() as usize))
    } else {
        Ok(with_zero_row(weights, width, padding))
    }
}

/// The id at row `r`, column `c` of `ids` exists and is not below `bound`.
pub open spec fn out_of_range_at(ids: Seq<Seq<usize>>, bound: nat, r: int, c: int) -> bool {
    0 <= r < ids.len() && 0 <= c < ids[r].len() && ids[r][c] >= bound
}

/// Every id of `ids` is below `bound`.
pub open spec fn all_in_range(ids: Seq<Seq<usize>>, bound: nat) -> bool {
    forall|r: int, c: int| !out_of_range_at(ids, bound, r, c)
}

/// Where the first id of `ids` that is not below `bound` stands, reading row
/// after row.
pub open spec fn first_out_of_range(ids: Seq<Seq<usize>>, bound: nat) -> (int, int) {
    choose|r: int, c: int|
        out_of_range_at(ids, bound, r, c) && forall|q: int, d: int| #[trigger]
            out_of_range_at(ids, bound, q, d) ==> (r < q || (r == q && c <= d))
}

/// For each id of `ids`, the row of `table` that it names.
pub open spec fn gather(table: Seq<Seq<i32>>, ids: Seq<Seq<usize>>) -> Seq<Seq<Seq<i32>>> {
    Seq::new(ids.len(), |r: int| Seq::new(ids[r].len(), |c: int| table[ids[r][c] as int]))
}

/// What looking `ids` up in `table` gives: the gathered rows, or the first id
/// that the table does not hold.
pub open spec fn lookup_of(table: Seq<Seq<i32>>, ids: Seq<Seq<usize>>) -> Result<
    Seq<Seq<Seq<i32>>>,
    EmbeddingError,
> {
    if all_in_range(ids, table.len()) {
        Ok(gather(table, ids))
    } else {
        let (r, c) = first_out_of_range(ids, table.len());
        Err(index_error(ids[r][c], table.len() as usize))
    }
}

/// A table that maps each id below its size to a vector of fixed width. The
/// vector of the padding id, where the table has one, is zero at all times.
#[derive(Debug)]
pub struct EmbeddingTable {
    rows: Vec<Vec<i32>>,
    width: usize,
    padding: Option<usize>,
}

impl View for EmbeddingTable {
    type V = Seq<Seq<i32>>;

    closed spec fn view(&self) -> Seq<Seq<i32>> {
        self.rows.deep_view()
    }
}

impl EmbeddingTable {
    /// All vectors have the table's width, and the padding id names a row of
    /// zeros.
    #[verifier::type_invariant]
    pub closed spec fn wf(&self) -> bool {
        &&& rows_of_width(self.rows.deep_view(), self.width as nat)
        &&& self.padding matches Some(p) ==> p < self.rows@.len() && self.rows.deep_view()[p as int]
            == zero_vector(self.width as nat)
    }

    /// The width of every vector.
    pub closed spec fn dim(&self) -> nat {
        self.width as nat
    }

    /// The padding id, if the table has one.
    pub closed spec fn padding_id(&self) -> Option<usize> {
        self.padding
    }

    /// In a well-formed table every vector has the table's width, and the
    /// vector of the padding id holds only zeros.
    pub proof fn lemma_padding_is_zero(&self)
        requires
            self.wf(),
        ensures
            rows_of_width(self@, self.dim()),
            self.padding_id() matches Some(p) ==> p < self@.len() && self@[p as int] == zero_vector(self.dim()),
    {
    }

    /// Wherever `ids` holds the padding id, the looked-up vector is zero.
    pub proof fn lemma_padding_embeds_to_zero(&self, ids: Seq<Seq<usize>>, r: int, c: int)
        requires
            self.wf(),
            0 <= r < ids.len(),
            0 <= c < ids[r].len(),
            self.padding_id() == Some(ids[r][c]),
        ensures
            lookup_of(self@, ids) matches Ok(e) ==> e[r][c] == zero_vector(self.dim()),
    {
    }

    /// A table of the rows of `weights`, each of `embedding_dim` numbers. The
    /// row of `padding_idx`, if one is given, is set to zeros.
    pub fn new(weights: Vec<Vec<i32>>, embedding_dim: usize, padding_idx: Option<usize>) -> (result: Result<
        EmbeddingTable,
        EmbeddingError,
    >)
        ensures
            match result {
                Ok(table) => table_of(weights.deep_view(), embedding_dim as nat, padding_idx) == Ok::<
                    Seq<Seq<i32>>,
                    EmbeddingError,
                >(table@) && table.wf() && table.dim() == embedding_dim && table.padding_id() == padding_idx,
                Err(e) => table_of(weights.deep_view(), embedding_dim as nat, padding_idx) == Err::<
                    Seq<Seq<i32>>,
                    EmbeddingError,
                >(e),
            },
    {
        let ghost view = weights.deep_view();
        let mut r: usize = 0;
        while r < weights.len()
            invariant
                r <= weights.len(),
                view == weights.deep_view(),
                forall|q: int| 0 <= q < r ==> (#[trigger] view[q]).len() == embedding_dim,
            decreases weights.len() - r,
        {
            if weights[r].len() != embedding_dim {
                proof {
                    assert(view[r as int].len() != embedding_dim);
                    let first = first_misfit_row(view, embedding_dim as nat);
                    assert(0 <= first < view.len() && view[first].len() != embedding_dim && forall|q: int|
                        0 <= q < first ==> (#[trigger] view[q]).len() == embedding_dim);
                    assert(first == r);
                }
                return Err(EmbeddingError::ShapeError { expected: embedding_dim, found: weights[r].len() });
            }
            r = r + 1;
        }
        let mut rows = weights;
        match padding_idx {
            Some(p) => {
                if p >= rows.len() {
                    return Err(EmbeddingError::IndexError { index: p, bound: rows.len() });
                }
                let zero = zero_vec(embedding_dim);
                rows.set(p, zero);
                assert(rows.deep_view() =~= view.update(p as int, zero_vector(embedding_dim as nat)));
            },
            None => {},
        }
        Ok(EmbeddingTable { rows, width: embedding_dim, padding: padding_idx })
    }

    /// The number of ids that the table holds.
    pub fn num_embeddings(&self) -> (n: usize)
        ensures
            n == self@.len(),
    {
        self.rows.len()
    }

    /// The width of every vector.
    pub fn embedding_dim(&self) -> (n: usize)
        ensures
            n == self.dim(),
            rows_of_width(self@, n as nat),
    {
        proof {
            use_type_invariant(self);
        }
        self.width
    }

    /// The padding id, if the table has one; its vector holds only zeros.
    pub fn padding_idx(&self) -> (p: Option<usize>)
        ensures
            p == self.padding_id(),
            p matches Some(id) ==> id < self@.len() && self@[id as int] == zero_vector(self.dim()),
    {
        proof {
            use_type_invariant(self);
        }
        self.padding
    }

    /// A copy of the vector of `id`, if the table holds that id.
    pub fn row(&self, id: usize) -> (row: Option<Vec<i32>>)
        ensures
            id < self@.len() ==> row is Some && row.unwrap()@ == self@[id as int],
            id >= self@.len() ==> row is None,
    {
        if id < self.rows.len() {
            let copy = self.rows[id].clone();
            proof {
                lemma_flat_view(&copy);
                assert(copy.deep_view() == self.rows@[id as int].deep_view());
            }
            Some(copy)
        } else {
            None
        }
    }

    /// Replaces the vector of `id` by `values`. The vector of the padding id
    /// stays zero whatever is written to it. On failure the table is unchanged.
    pub fn set_row(&mut self, id: usize, values: &Vec<i32>) -> (result: Result<(), EmbeddingError>)
        ensures
            final(self).wf(),
            final(self).dim() == old(self).dim(),
            final(self).padding_id() == old(self).padding_id(),
            final(self).padding_id() matches Some(p) ==> p < final(self)@.len() && final(self)@[p as int]
                == zero_vector(final(self).dim()),
            id >= old(self)@.len() ==> result == Err::<(), EmbeddingError>(
                index_error(id, old(self)@.len() as usize),
            ),
            id < old(self)@.len() && values@.len() != old(self).dim() ==> result == Err::<(), EmbeddingError>(
                shape_error(old(self).dim() as usize, values.len()),
            ),
            id < old(self)@.len() && values@.len() == old(self).dim() ==> result is Ok,
            result is Err ==> final(self)@ == old(self)@,
            result is Ok ==> final(self)@ == old(self)@.update(
                id as int,
                if old(self).padding_id() == Some(id) {
                    zero_vector(old(self).dim())
                } else {
                    values@
                },
            ),
    {
        proof {
            use_type_invariant(&*self);
        }
        if id >= self.rows.len() {
            return Err(EmbeddingError::IndexError { index: id, bound: self.rows.len() });
        }
        if values.len() != self.width {
            return Err(EmbeddingError::ShapeError { expected: self.width, found: values.len() });
        }
        let is_padding = match self.padding {
            Some(p) => p == id,
            None => false,
        };
        if is_padding {
            assert(self.rows.deep_view() =~= self.rows.deep_view().update(id as int, zero_vector(self.width as nat)));
            return Ok(());
        }
        let copy = values.clone();
        proof {
            lemma_flat_view(&copy);
            lemma_flat_view(values);
        }
        let ghost before = self.rows.deep_view();
        replace_row(&mut self.rows, id, copy);
        assert(self.rows.deep_view() =~= before.update(id as int, values@));
        Ok(())
    }

    /// For each id of `ids`, a copy of its vector. Fails on the first id,
    /// reading row after row, that the table does not hold.
    pub fn lookup(&self, ids: &Batch) -> (result: Result<Tensor3, EmbeddingError>)
        ensures
            match result {
                Ok(e) => lookup_of(self@, ids@) == Ok::<Seq<Seq<Seq<i32>>>, EmbeddingError>(e@) && e.wf()
                    && e.dims() == (ids@.len(), ids.width(), self.dim()),
                Err(e) => lookup_of(self@, ids@) == Err::<Seq<Seq<Seq<i32>>>, EmbeddingError>(e),
            },
    {
        proof {
            use_type_invariant(self);
        }
        let bound: usize = self.rows.len();
        let batch: usize = ids.num_rows();
        let len: usize = ids.num_cols();
        let mut data: Vec<Vec<Vec<i32>>> = Vec::with_capacity(batch);
        let mut r: usize = 0;
        while r < batch
            invariant
                r <= batch,
                batch == ids@.len(),
                len == ids.width(),
                rectangular(ids@, len as nat),
                bound == self.rows@.len(),
                self.wf(),
                data@.len() == r,
                forall|q: int, d: int| 0 <= q < r ==> !out_of_range_at(ids@, bound as nat, q, d),
                forall|q: int| 0 <= q < r ==> (#[trigger] data@[q]).deep_view() == gather(self@, ids@)[q],
            decreases batch - r,
        {
            let id_row = ids.row(r);
            let mut row: Vec<Vec<i32>> = Vec::with_capacity(len);
            let mut c: usize = 0;
            while c < len
                invariant
                    c <= len,
                    r < batch,
                    batch == ids@.len(),
                    id_row@ == ids@[r as int],
                    id_row@.len() == len,
                    bound == self.rows@.len(),
                    self.wf(),
                    row@.len() == c,
                    forall|q: int, d: int| 0 <= q < r ==> !out_of_range_at(ids@, bound as nat, q, d),
                    forall|d: int| 0 <= d < c ==> !out_of_range_at(ids@, bound as nat, r as int, d),
                    forall|d: int| 0 <= d < c ==> (#[trigger] row@[d]).deep_view() == self@[ids@[r as int][d] as int],
                decreases len - c,
            {
                let id: usize = id_row[c];
                if id >= bound {
                    proof {
                        assert(out_of_range_at(ids@, bound as nat, r as int, c as int));
                        let (fr, fc) = first_out_of_range(ids@, bound as nat);
                        assert(out_of_range_at(ids@, bound as nat, fr, fc) && forall|q: int, d: int| #[trigger]
                            out_of_range_at(ids@, bound as nat, q, d) ==> (fr < q || (fr == q && fc <= d))) by {
                            assert(forall|q: int, d: int| #[trigger]
                                out_of_range_at(ids@, bound as nat, q, d) ==> (r < q || (r == q && c <= d)));
                        }
                        assert(fr == r && fc == c);
                    }
                    return Err(EmbeddingError::IndexError { index: id, bound });
                }
                let vector = self.rows[id].clone();
                assert(vector.deep_view() == self.rows@[id as int].deep_view());
                row.push(vector);
                c = c + 1;
            }
            assert(row.deep_view() =~= gather(self@, ids@)[r as int]);
            data.push(row);
            r = r + 1;
        }
        proof {
            assert(data.deep_view() =~= gather(self@, ids@));
            assert(all_in_range(ids@, bound as nat)) by {
                assert forall|q: int, d: int| !out_of_range_at(ids@, bound as nat, q, d) by {
                    if 0 <= q < batch {
                        assert(!out_of_range_at(ids@, bound as nat, q, d));
                    }
                }
            }
            assert forall|q: int, d: int| 0 <= q < data.deep_view().len() && 0 <= d < data.deep_view()[q].len() implies (#[trigger] data.deep_view()[q][d]).len()
                == self.width by {
                assert(ids@[q].len() == len);
                assert(!out_of_range_at(ids@, bound as nat, q, d));
                assert(self.rows.deep_view()[ids@[q][d] as int].len() == self.width);
            }
            assert forall|q: int| 0 <= q < data.deep_view().len() implies (#[trigger] data.deep_view()[q]).len() == len by {
                assert(ids@[q].len() == len);
            }
        }
        Ok(Tensor3::from_parts(data, len, self.width))
    }
}

/// Puts `row` in the place of row `id`.
fn replace_row(rows: &mut Vec<Vec<i32>>, id: usize, row: Vec<i32>)
    requires
        id < old(rows)@.len(),
    ensures
        final(rows)@ == old(rows)@.update(id as int, row),
        final(rows).deep_view() == old(rows).deep_view().update(id as int, row@),
    no_unwind
{
    proof {
        lemma_flat_view(&row);
    }
    rows[id] = row;
    assert(rows.deep_view() =~= old(rows).deep_view().update(id as int, row@));
}

} // verus!
