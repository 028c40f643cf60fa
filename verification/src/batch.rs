//! Rectangular arrays of token ids, and the padding that makes them.
use vstd::prelude::*;
use crate::error::{EmbeddingError, shape_error};

verus! {

/// Every row of `ids` has `cols` entries.
pub open spec fn rectangular(ids: Seq<Seq<usize>>, cols: nat) -> bool {
    forall|r: int| 0 <= r < ids.len() ==> (#[trigger] ids[r]).len() == cols
}

/// The length of the longest of `seqs`; zero where there is none.
pub open spec fn longest(seqs: Seq<Seq<usize>>) -> nat
    decreases seqs.len(),
{
    if seqs.len() == 0 {
        0
    } else {
        let rest = longest(seqs.drop_last());
        if seqs.last().len() > rest {
            seqs.last().len()
        } else {
            rest
        }
    }
}

/// `seq` followed by as many `pad` as it takes to reach `width` entries.
pub open spec fn pad_row(seq: Seq<usize>, width: nat, pad: usize) -> Seq<usize> {
    Seq::new(
        width,
        |c: int|
            if c < seq.len() {
                seq[c]
            } else {
                pad
            },
    )
}

/// Each of `seqs`, in order, padded on the right to the length of the longest.
pub open spec fn padded(seqs: Seq<Seq<usize>>, pad: usize) -> Seq<Seq<usize>> {
    Seq::new(seqs.len(), |r: int| pad_row(seqs[r], longest(seqs), pad))
}

/// The first row of `rows` that is not as long as row zero.
pub open spec fn first_ragged_row(rows: Seq<Seq<usize>>) -> int {
    choose|r: int|
        0 <= r < rows.len() && (#[trigger] rows[r]).len() != rows[0].len() && forall|q: int|
            0 <= q < r ==> (#[trigger] rows[q]).len() == rows[0].len()
}

/// No sequence is longer than `longest`, and one of them is that long.
pub proof fn lemma_longest_is_max(seqs: Seq<Seq<usize>>)
    ensures
        forall|r: int| 0 <= r < seqs.len() ==> (#[trigger] seqs[r]).len() <= longest(seqs),
        seqs.len() > 0 ==> exists|r: int| 0 <= r < seqs.len() && (#[trigger] seqs[r]).len() == longest(seqs),
    decreases seqs.len(),
{
    if seqs.len() > 0 {
        let front = seqs.drop_last();
        lemma_longest_is_max(front);
        assert forall|r: int| 0 <= r < seqs.len() implies (#[trigger] seqs[r]).len() <= longest(seqs) by {
            if r < front.len() {
                assert(front[r] == seqs[r]);
            }
        }
        if seqs.last().len() > longest(front) || front.len() == 0 {
            assert(seqs[seqs.len() - 1].len() == longest(seqs));
        } else {
            let r = choose|r: int| 0 <= r < front.len() && (#[trigger] front[r]).len() == longest(front);
            assert(seqs[r] == front[r]);
        }
    }
}

/// A padded batch has one row for each sequence, every row is as long as the
/// longest sequence, and each row starts with its sequence, unchanged.
pub proof fn lemma_padded_shape(seqs: Seq<Seq<usize>>, pad: usize)
    ensures
        padded(seqs, pad).len() == seqs.len(),
        rectangular(padded(seqs, pad), longest(seqs)),
        forall|r: int|
            0 <= r < seqs.len() ==> (#[trigger] padded(seqs, pad)[r]).subrange(0, seqs[r].len() as int)
                == seqs[r],
        forall|r: int, c: int|
            0 <= r < seqs.len() && seqs[r].len() <= c < longest(seqs) ==> (#[trigger] padded(
                seqs,
                pad,
            )[r][c]) == pad,
{
    lemma_longest_is_max(seqs);
    assert forall|r: int| 0 <= r < seqs.len() implies (#[trigger] padded(seqs, pad)[r]).subrange(
        0,
        seqs[r].len() as int,
    ) == seqs[r] by {
        assert(seqs[r].len() <= longest(seqs));
        assert(padded(seqs, pad)[r].subrange(0, seqs[r].len() as int) =~= seqs[r]);
    }
}

/// A rectangular array of token ids: `[batch_size, max_len]`.
#[derive(Debug, PartialEq, Eq)]
pub struct Batch {
    rows: Vec<Vec<usize>>,
    cols: usize,
}

impl View for Batch {
    type V = Seq<Seq<usize>>;

    closed spec fn view(&self) -> Seq<Seq<usize>> {
        self.rows.deep_view()
    }
}

impl Batch {
    /// Every row has `width` entries.
    #[verifier::type_invariant]
    pub closed spec fn wf(&self) -> bool {
        rectangular(self.rows.deep_view(), self.cols as nat)
    }

    /// The number of columns.
    pub closed spec fn width(&self) -> nat {
        self.cols as nat
    }

    /// A well-formed batch is a rectangle of its width.
    pub proof fn lemma_wf_rectangular(&self)
        requires
            self.wf(),
        ensures
            rectangular(self@, self.width()),
    {
    }

    /// Takes `rows` as a batch if they are all of one length.
    ///
    /// The width of a batch without rows is zero. Otherwise the first row
    /// sets the width, and the first row of another length is reported.
    pub fn from_rows(rows: Vec<Vec<usize>>) -> (result: Result<Batch, EmbeddingError>)
        ensures
            match result {
                Ok(batch) => batch@ == rows.deep_view() && batch.wf() && batch.width() == (if rows.len()
                    == 0 {
                    0
                } else {
                    rows.deep_view()[0].len()
                }),
                Err(e) => rows.len() > 0 && !rectangular(
                    rows.deep_view(),
                    rows.deep_view()[0].len(),
                ) && e == shape_error(
                    rows.deep_view()[0].len() as usize,
                    rows.deep_view()[first_ragged_row(rows.deep_view())].len() as usize,
                ),
            },
    {
        if rows.len() == 0 {
            return Ok(Batch { rows, cols: 0 });
        }
        let cols: usize = rows[0].len();
        let mut r: usize = 1;
        while r < rows.len()
            invariant
                1 <= r <= rows.len(),
                cols == rows@[0]@.len(),
                forall|q: int| 0 <= q < r ==> (#[trigger] rows.deep_view()[q]).len() == cols,
            decreases rows.len() - r,
        {
            if rows[r].len() != cols {
                proof {
                    let view = rows.deep_view();
                    assert(view[r as int].len() != view[0].len());
                    let first = first_ragged_row(view);
                    assert(0 <= first < view.len() && view[first].len() != view[0].len() && forall|q: int|
                        0 <= q < first ==> (#[trigger] view[q]).len() == view[0].len());
                    assert(first == r);
                }
                return Err(EmbeddingError::ShapeError { expected: cols, found: rows[r].len() });
            }
            r = r + 1;
        }
        Ok(Batch { rows, cols })
    }

    /// The number of rows.
    pub fn num_rows(&self) -> (n: usize)
        ensures
            n == self@.len(),
    {
        self.rows.len()
    }

    /// The number of columns, which every row has.
    pub fn num_cols(&self) -> (n: usize)
        ensures
            n == self.width(),
            rectangular(self@, n as nat),
    {
        proof {
            use_type_invariant(self);
        }
        self.cols
    }

    /// The id at row `r` and column `c`, if there is one.
    pub fn get(&self, r: usize, c: usize) -> (id: Option<usize>)
        ensures
            id == (if r < self@.len() && c < self@[r as int].len() {
                Some(self@[r as int][c as int])
            } else {
                None
            }),
    {
        if r < self.rows.len() {
            if c < self.rows[r].len() {
                return Some(self.rows[r][c]);
            }
        }
        None
    }

    /// Row `r`.
    pub(crate) fn row(&self, r: usize) -> (row: &Vec<usize>)
        requires
            r < self@.len(),
        ensures
            row@ == self@[r as int],
            row@.len() == self.width(),
    {
        proof {
            use_type_invariant(self);
            assert(self.rows.deep_view()[r as int].len() == self.cols);
        }
        &self.rows[r]
    }

    /// The rows, as plain vectors.
    pub fn into_rows(self) -> (rows: Vec<Vec<usize>>)
        ensures
            rows.deep_view() == self@,
    {
        self.rows
    }
}

/// Pads token-id sequences of any lengths into one batch.
#[derive(Debug, Clone, Copy)]
pub struct BatchBuilder {
    pub pad_token_id: usize,
}

impl BatchBuilder {
    /// A builder that pads with `pad_token_id`.
    pub fn new(pad_token_id: usize) -> (builder: BatchBuilder)
        ensures
            builder.pad_token_id == pad_token_id,
    {
        BatchBuilder { pad_token_id }
    }

    /// Stacks `sequences` in their order, each padded on the right with the
    /// padding id to the length of the longest. Fails on an empty list.
    pub fn build(&self, sequences: &Vec<Vec<usize>>) -> (result: Result<Batch, EmbeddingError>)
        ensures
            sequences.len() == 0 ==> result == Err::<Batch, EmbeddingError>(shape_error(1, 0)),
            sequences.len() > 0 ==> result is Ok,
            result matches Ok(batch) ==> {
                &&& batch@ == padded(sequences.deep_view(), self.pad_token_id)
                &&& batch.wf()
                &&& batch.width() == longest(sequences.deep_view())
                &&& batch@.len() == sequences.len()
                &&& rectangular(batch@, longest(sequences.deep_view()))
                &&& forall|r: int|
                    0 <= r < sequences.len() ==> (#[trigger] batch@[r]).subrange(
                        0,
                        sequences.deep_view()[r].len() as int,
                    ) == sequences.deep_view()[r]
            },
    {
        if sequences.len() == 0 {
            return Err(EmbeddingError::ShapeError { expected: 1, found: 0 });
        }
        let ghost seqs = sequences.deep_view();
        let max_len: usize = longest_len(sequences);
        let mut rows: Vec<Vec<usize>> = Vec::with_capacity(sequences.len());
        let mut r: usize = 0;
        while r < sequences.len()
            invariant
                r <= sequences.len(),
                seqs == sequences.deep_view(),
                max_len == longest(seqs),
                rows@.len() == r,
                forall|q: int| 0 <= q < r ==> (#[trigger] rows@[q])@ == pad_row(seqs[q], max_len as nat, self.pad_token_id),
            decreases sequences.len() - r,
        {
            let row = pad_to(&sequences[r], max_len, self.pad_token_id);
            assert(seqs[r as int] == sequences@[r as int]@);
            rows.push(row);
            r = r + 1;
        }
        proof {
            assert forall|q: int| 0 <= q < rows@.len() implies #[trigger] rows.deep_view()[q] == padded(
                seqs,
                self.pad_token_id,
            )[q] by {
                assert(rows.deep_view()[q] =~= rows@[q]@);
            }
            assert(rows.deep_view() =~= padded(seqs, self.pad_token_id));
            lemma_padded_shape(seqs, self.pad_token_id);
        }
        Ok(Batch { rows, cols: max_len })
    }
}

/// The length of the longest of `sequences`.
fn longest_len(sequences: &Vec<Vec<usize>>) -> (max_len: usize)
    ensures
        max_len == longest(sequences.deep_view()),
{
    let ghost seqs = sequences.deep_view();
    let mut max_len: usize = 0;
    let mut r: usize = 0;
    while r < sequences.len()
        invariant
            r <= sequences.len(),
            seqs == sequences.deep_view(),
            max_len == longest(seqs.take(r as int)),
        decreases sequences.len() - r,
    {
        proof {
            assert(seqs.take(r + 1).drop_last() =~= seqs.take(r as int));
            assert(seqs.take(r + 1).last() == sequences@[r as int]@);
        }
        if sequences[r].len() > max_len {
            max_len = sequences[r].len();
        }
        r = r + 1;
    }
    proof {
        assert(seqs.take(sequences.len() as int) =~= seqs);
    }
    max_len
}

/// A copy of `seq` with `pad` added on the right up to `width` entries.
fn pad_to(seq: &Vec<usize>, width: usize, pad: usize) -> (row: Vec<usize>)
    ensures
        row@ == pad_row(seq@, width as nat, pad),
{
    let mut row: Vec<usize> = Vec::with_capacity(width);
    let mut c: usize = 0;
    while c < width
        invariant
            c <= width,
            row@.len() == c,
            forall|k: int| 0 <= k < c ==> row@[k] == pad_row(seq@, width as nat, pad)[k],
        decreases width - c,
    {
        if c < seq.len() {
            row.push(seq[c]);
        } else {
            row.push(pad);
        }
        c = c + 1;
    }
    assert(row@ =~= pad_row(seq@, width as nat, pad));
    row
}

} // verus!
