//! Three-dimensional arrays of fixed-point numbers: `[batch, position, feature]`.
use vstd::prelude::*;
use crate::error::{EmbeddingError, shape_error};
use crate::fixed::{narrow, saturate};

verus! {

/// `t` holds `batch` rows of `len` vectors of `width` numbers each.
pub open spec fn has_shape(t: Seq<Seq<Seq<i32>>>, batch: nat, len: nat, width: nat) -> bool {
    &&& t.len() == batch
    &&& forall|b: int| 0 <= b < t.len() ==> (#[trigger] t[b]).len() == len
    &&& forall|b: int, i: int| 0 <= b < t.len() && 0 <= i < t[b].len() ==> (#[trigger] t[b][i]).len() == width
}

/// The length of row zero; zero where there is no row.
pub open spec fn first_len(t: Seq<Seq<Seq<i32>>>) -> nat {
    if t.len() > 0 {
        t[0].len()
    } else {
        0
    }
}

/// The length of the first vector of row zero; zero where there is none.
pub open spec fn first_width(t: Seq<Seq<Seq<i32>>>) -> nat {
    if t.len() > 0 && t[0].len() > 0 {
        t[0][0].len()
    } else {
        0
    }
}

/// All rows of `t` are of one length and all its vectors of one width.
pub open spec fn cuboid(t: Seq<Seq<Seq<i32>>>) -> bool {
    has_shape(t, t.len(), first_len(t), first_width(t))
}

/// Every row of `rows` has `width` entries.
pub open spec fn rows_of_width(rows: Seq<Seq<i32>>, width: nat) -> bool {
    forall|r: int| 0 <= r < rows.len() ==> (#[trigger] rows[r]).len() == width
}

/// The first row of `rows` whose length is not `width`.
pub open spec fn first_misfit_row(rows: Seq<Seq<i32>>, width: nat) -> int {
    choose|r: int|
        0 <= r < rows.len() && (#[trigger] rows[r]).len() != width && forall|q: int|
            0 <= q < r ==> (#[trigger] rows[q]).len() == width
}

/// Row `b` of `t` holds `len` vectors of `width` numbers each.
pub open spec fn row_fits(t: Seq<Seq<Seq<i32>>>, b: int, len: nat, width: nat) -> bool {
    t[b].len() == len && rows_of_width(t[b], width)
}

/// The first row of `t` that does not hold `len` vectors of `width` numbers.
pub open spec fn first_misfit(t: Seq<Seq<Seq<i32>>>, len: nat, width: nat) -> int {
    choose|b: int|
        0 <= b < t.len() && !row_fits(t, b, len, width) && forall|q: int|
            0 <= q < b ==> #[trigger] row_fits(t, q, len, width)
}

/// Why `t` is no array, if it is none: reading row after row, the first row
/// that is not as long as row zero, or the first vector that is not as wide
/// as the first vector of row zero.
pub open spec fn nesting_fault(t: Seq<Seq<Seq<i32>>>) -> Option<EmbeddingError> {
    let len = first_len(t);
    let width = first_width(t);
    if cuboid(t) {
        None
    } else {
        let row = t[first_misfit(t, len, width)];
        if row.len() != len {
            Some(shape_error(len as usize, row.len() as usize))
        } else {
            Some(shape_error(width as usize, row[first_misfit_row(row, width)].len() as usize))
        }
    }
}

/// `width` zeros.
pub open spec fn zero_vector(width: nat) -> Seq<i32> {
    Seq::new(width, |k: int| 0i32)
}

/// The array of the given shape that holds only zeros.
pub open spec fn zeros(batch: nat, len: nat, width: nat) -> Seq<Seq<Seq<i32>>> {
    Seq::new(batch, |b: int| Seq::new(len, |i: int| zero_vector(width)))
}

/// The positions `start` up to `end` of every row.
pub open spec fn slice_positions(t: Seq<Seq<Seq<i32>>>, start: int, end: int) -> Seq<Seq<Seq<i32>>> {
    Seq::new(t.len(), |b: int| t[b].subrange(start, end))
}

/// Row by row, the positions of `x` followed by those of `y`.
pub open spec fn cat_positions(x: Seq<Seq<Seq<i32>>>, y: Seq<Seq<Seq<i32>>>) -> Seq<Seq<Seq<i32>>> {
    Seq::new(x.len(), |b: int| x[b] + y[b])
}

/// Position by position, the features of `x`, then of `y`, then of `z`.
pub open spec fn cat_features(
    x: Seq<Seq<Seq<i32>>>,
    y: Seq<Seq<Seq<i32>>>,
    z: Seq<Seq<Seq<i32>>>,
) -> Seq<Seq<Seq<i32>>> {
    Seq::new(x.len(), |b: int| Seq::new(x[b].len(), |i: int| x[b][i] + y[b][i] + z[b][i]))
}

/// Number by number, the sum of `x`, `y` and `z`, pinned to the range of `i32`.
pub open spec fn sum_of_three(
    x: Seq<Seq<Seq<i32>>>,
    y: Seq<Seq<Seq<i32>>>,
    z: Seq<Seq<Seq<i32>>>,
) -> Seq<Seq<Seq<i32>>> {
    Seq::new(
        x.len(),
        |b: int|
            Seq::new(
                x[b].len(),
                |i: int| Seq::new(x[b][i].len(), |k: int| saturate(x[b][i][k] + y[b][i][k] + z[b][i][k])),
            ),
    )
}

/// The first extent in which `found` differs from `expected`, as a failure.
pub open spec fn shape_mismatch(expected: (nat, nat, nat), found: (nat, nat, nat)) -> Option<EmbeddingError> {
    if found.0 != expected.0 {
        Some(shape_error(expected.0 as usize, found.0 as usize))
    } else if found.1 != expected.1 {
        Some(shape_error(expected.1 as usize, found.1 as usize))
    } else if found.2 != expected.2 {
        Some(shape_error(expected.2 as usize, found.2 as usize))
    } else {
        None
    }
}

/// The view of a vector of numbers is the vector's contents.
pub proof fn lemma_flat_view(v: &Vec<i32>)
    ensures
        v.deep_view() == v@,
{
    assert(v.deep_view() =~= v@);
}

/// A three-dimensional array of fixed-point numbers.
#[derive(Debug, PartialEq, Eq)]
pub struct Tensor3 {
    data: Vec<Vec<Vec<i32>>>,
    len: usize,
    width: usize,
}

impl View for Tensor3 {
    type V = Seq<Seq<Seq<i32>>>;

    closed spec fn view(&self) -> Seq<Seq<Seq<i32>>> {
        self.data.deep_view()
    }
}

impl Tensor3 {
    /// The contents have the shape that the array records.
    #[verifier::type_invariant]
    pub closed spec fn wf(&self) -> bool {
        has_shape(self.data.deep_view(), self.data@.len(), self.len as nat, self.width as nat)
    }

    /// The extents: rows, positions in a row, features at a position.
    pub closed spec fn dims(&self) -> (nat, nat, nat) {
        (self.data@.len(), self.len as nat, self.width as nat)
    }

    /// A well-formed array has the shape that it records.
    pub proof fn lemma_wf_shape(&self)
        requires
            self.wf(),
        ensures
            has_shape(self@, self.dims().0, self.dims().1, self.dims().2),
    {
    }

    /// Takes `data` as an array if its rows are of one length and its vectors
    /// of one width: those of the first row and of its first vector.
    pub fn from_nested(data: Vec<Vec<Vec<i32>>>) -> (result: Result<Tensor3, EmbeddingError>)
        ensures
            cuboid(data.deep_view()) <==> result is Ok,
            result matches Ok(t) ==> t@ == data.deep_view() && t.wf() && t.dims() == (
                data.deep_view().len(),
                first_len(data.deep_view()),
                first_width(data.deep_view()),
            ),
            result matches Err(e) ==> nesting_fault(data.deep_view()) == Some(e),
    {
        let ghost view = data.deep_view();
        let batch: usize = data.len();
        let len: usize = if batch > 0 {
            data[0].len()
        } else {
            0
        };
        let width: usize = if len > 0 {
            data[0][0].len()
        } else {
            0
        };
        let mut b: usize = 0;
        while b < batch
            invariant
                b <= batch,
                batch == data.len(),
                view == data.deep_view(),
                len == first_len(view),
                width == first_width(view),
                forall|q: int| 0 <= q < b ==> (#[trigger] view[q]).len() == len,
                forall|q: int, i: int| 0 <= q < b && 0 <= i < view[q].len() ==> (#[trigger] view[q][i]).len() == width,
                forall|q: int| 0 <= q < b ==> #[trigger] row_fits(view, q, len as nat, width as nat),
            decreases batch - b,
        {
            if data[b].len() != len {
                proof {
                    assert(view[b as int].len() != len);
                    assert(!row_fits(view, b as int, len as nat, width as nat));
                    assert(!cuboid(view));
                    let first = first_misfit(view, len as nat, width as nat);
                    assert(first == b);
                }
                return Err(EmbeddingError::ShapeError { expected: len, found: data[b].len() });
            }
            let mut i: usize = 0;
            while i < len
                invariant
                    i <= len,
                    b < batch,
                    batch == data.len(),
                    view == data.deep_view(),
                    data@[b as int]@.len() == len,
                    len == first_len(view),
                    width == first_width(view),
                    forall|j: int| 0 <= j < i ==> (#[trigger] view[b as int][j]).len() == width,
                    forall|q: int| 0 <= q < b ==> #[trigger] row_fits(view, q, len as nat, width as nat),
                decreases len - i,
            {
                if data[b][i].len() != width {
                    proof {
                        let row = view[b as int];
                        assert(row.len() == len);
                        assert(row[i as int].len() != width);
                        assert(!row_fits(view, b as int, len as nat, width as nat));
                        assert(!cuboid(view));
                        let first = first_misfit(view, len as nat, width as nat);
                        assert(first == b);
                        let vector = first_misfit_row(row, width as nat);
                        assert(0 <= vector < row.len() && row[vector].len() != width && forall|j: int|
                            0 <= j < vector ==> (#[trigger] row[j]).len() == width);
                        assert(vector == i);
                    }
                    return Err(EmbeddingError::ShapeError { expected: width, found: data[b][i].len() });
                }
                i = i + 1;
            }
            assert(row_fits(view, b as int, len as nat, width as nat));
            b = b + 1;
        }
        Ok(Tensor3 { data, len, width })
    }

    /// The array of the given shape that holds only zeros.
    pub fn zeros(batch: usize, len: usize, width: usize) -> (t: Tensor3)
        ensures
            t@ == zeros(batch as nat, len as nat, width as nat),
            t.dims() == (batch as nat, len as nat, width as nat),
            t.wf(),
    {
        let mut data: Vec<Vec<Vec<i32>>> = Vec::with_capacity(batch);
        let mut b: usize = 0;
        while b < batch
            invariant
                b <= batch,
                data@.len() == b,
                forall|q: int| 0 <= q < b ==> (#[trigger] data@[q]).deep_view() == Seq::new(len as nat, |i: int| zero_vector(width as nat)),
            decreases batch - b,
        {
            let mut row: Vec<Vec<i32>> = Vec::with_capacity(len);
            let mut i: usize = 0;
            while i < len
                invariant
                    i <= len,
                    row@.len() == i,
                    forall|j: int| 0 <= j < i ==> (#[trigger] row@[j]).deep_view() == zero_vector(width as nat),
                decreases len - i,
            {
                let vector = zero_vec(width);
                row.push(vector);
                i = i + 1;
            }
            assert(row.deep_view() =~= Seq::new(len as nat, |i: int| zero_vector(width as nat)));
            data.push(row);
            b = b + 1;
        }
        assert(data.deep_view() =~= zeros(batch as nat, len as nat, width as nat));
        Tensor3 { data, len, width }
    }

    /// The number of rows.
    pub fn batch_size(&self) -> (n: usize)
        ensures
            n == self.dims().0,
            n == self@.len(),
    {
        self.data.len()
    }

    /// The number of positions in every row.
    pub fn seq_len(&self) -> (n: usize)
        ensures
            n == self.dims().1,
            has_shape(self@, self.dims().0, self.dims().1, self.dims().2),
    {
        proof {
            use_type_invariant(self);
        }
        self.len
    }

    /// The number of features at every position.
    pub fn width(&self) -> (n: usize)
        ensures
            n == self.dims().2,
            has_shape(self@, self.dims().0, self.dims().1, self.dims().2),
    {
        proof {
            use_type_invariant(self);
        }
        self.width
    }

    /// The number at row `b`, position `i`, feature `k`, if there is one.
    pub fn get(&self, b: usize, i: usize, k: usize) -> (value: Option<i32>)
        ensures
            value == (if b < self.dims().0 && i < self.dims().1 && k < self.dims().2 {
                Some(self@[b as int][i as int][k as int])
            } else {
                None
            }),
    {
        proof {
            use_type_invariant(self);
        }
        if b < self.data.len() && i < self.len && k < self.width {
            assert(self.data.deep_view()[b as int].len() == self.len);
            assert(self.data.deep_view()[b as int][i as int].len() == self.width);
            Some(self.data[b][i][k])
        } else {
            None
        }
    }

    /// The contents, as plain vectors.
    pub fn into_nested(self) -> (data: Vec<Vec<Vec<i32>>>)
        ensures
            data.deep_view() == self@,
    {
        self.data
    }

    /// The vector at row `b`, position `i`.
    pub(crate) fn vector(&self, b: usize, i: usize) -> (v: &Vec<i32>)
        requires
            b < self.dims().0,
            i < self.dims().1,
        ensures
            v@ == self@[b as int][i as int],
            v@.len() == self.dims().2,
    {
        proof {
            use_type_invariant(self);
            assert(self.data.deep_view()[b as int].len() == self.len);
            assert(self.data.deep_view()[b as int][i as int].len() == self.width);
            lemma_flat_view(&self.data@[b as int]@[i as int]);
        }
        &self.data[b][i]
    }

    /// Takes `data` as an array whose shape is known.
    pub(crate) fn from_parts(data: Vec<Vec<Vec<i32>>>, len: usize, width: usize) -> (t: Tensor3)
        requires
            has_shape(data.deep_view(), data@.len(), len as nat, width as nat),
        ensures
            t@ == data.deep_view(),
            t.dims() == (data@.len(), len as nat, width as nat),
            t.wf(),
    {
        Tensor3 { data, len, width }
    }

    /// Whether `other` has the shape of this array, and if not, the first
    /// extent in which it differs.
    pub fn same_shape(&self, other: &Tensor3) -> (result: Result<(), EmbeddingError>)
        ensures
            match result {
                Ok(_) => other.dims() == self.dims(),
                Err(e) => shape_mismatch(self.dims(), other.dims()) == Some(e),
            },
    {
        proof {
            use_type_invariant(self);
            use_type_invariant(other);
        }
        if other.data.len() != self.data.len() {
            Err(EmbeddingError::ShapeError { expected: self.data.len(), found: other.data.len() })
        } else if other.len != self.len {
            Err(EmbeddingError::ShapeError { expected: self.len, found: other.len })
        } else if other.width != self.width {
            Err(EmbeddingError::ShapeError { expected: self.width, found: other.width })
        } else {
            Ok(())
        }
    }

    /// Number by number, the sum of three arrays of one shape, pinned to the
    /// range of `i32`.
    pub(crate) fn add3(&self, y: &Tensor3, z: &Tensor3) -> (t: Tensor3)
        requires
            y.dims() == self.dims(),
            z.dims() == self.dims(),
        ensures
            t@ == sum_of_three(self@, y@, z@),
            t.dims() == self.dims(),
            t.wf(),
    {
        proof {
            use_type_invariant(self);
            use_type_invariant(y);
            use_type_invariant(z);
        }
        let batch: usize = self.data.len();
        let len: usize = self.len;
        let width: usize = self.width;
        let mut data: Vec<Vec<Vec<i32>>> = Vec::with_capacity(batch);
        let mut b: usize = 0;
        while b < batch
            invariant
                b <= batch,
                self.dims() == (batch as nat, len as nat, width as nat),
                y.dims() == self.dims(),
                z.dims() == self.dims(),
                self.wf(),
                y.wf(),
                z.wf(),
                data@.len() == b,
                forall|q: int| 0 <= q < b ==> (#[trigger] data@[q]).deep_view() == sum_of_three(self@, y@, z@)[q],
            decreases batch - b,
        {
            let mut row: Vec<Vec<i32>> = Vec::with_capacity(len);
            let mut i: usize = 0;
            while i < len
                invariant
                    i <= len,
                    b < batch,
                    self.dims() == (batch as nat, len as nat, width as nat),
                    y.dims() == self.dims(),
                    z.dims() == self.dims(),
                    self.wf(),
                    y.wf(),
                    z.wf(),
                    row@.len() == i,
                    forall|j: int| 0 <= j < i ==> (#[trigger] row@[j]).deep_view() == sum_of_three(self@, y@, z@)[b as int][j],
                decreases len - i,
            {
                let first = self.vector(b, i);
                let second = y.vector(b, i);
                let third = z.vector(b, i);
                let mut vector: Vec<i32> = Vec::with_capacity(width);
                let mut k: usize = 0;
                while k < width
                    invariant
                        k <= width,
                        first@.len() == width,
                        second@.len() == width,
                        third@.len() == width,
                        vector@.len() == k,
                        forall|j: int| 0 <= j < k ==> vector@[j] == saturate(first@[j] + second@[j] + third@[j]),
                    decreases width - k,
                {
                    vector.push(narrow(first[k] as i128 + second[k] as i128 + third[k] as i128));
                    k = k + 1;
                }
                proof {
                    lemma_flat_view(&vector);
                    assert(self@[b as int].len() == len);
                    assert(vector@ =~= sum_of_three(self@, y@, z@)[b as int][i as int]);
                }
                row.push(vector);
                i = i + 1;
            }
            proof {
                assert(self@[b as int].len() == len);
                assert(row.deep_view() =~= sum_of_three(self@, y@, z@)[b as int]);
            }
            data.push(row);
            b = b + 1;
        }
        proof {
            let goal = sum_of_three(self@, y@, z@);
            assert(data.deep_view() =~= goal);
            assert forall|q: int| 0 <= q < goal.len() implies (#[trigger] goal[q]).len() == len by {
                assert(self@[q].len() == len);
            }
            assert forall|q: int, i: int| 0 <= q < goal.len() && 0 <= i < goal[q].len() implies (#[trigger] goal[q][i]).len()
                == width by {
                assert(self@[q].len() == len);
                assert(self@[q][i].len() == width);
            }
        }
        Tensor3 { data, len, width }
    }

    /// The positions `start` up to `end` of every row.
    pub(crate) fn slice_positions(&self, start: usize, end: usize) -> (t: Tensor3)
        requires
            start <= end <= self.dims().1,
        ensures
            t@ == slice_positions(self@, start as int, end as int),
            t.dims() == (self.dims().0, (end - start) as nat, self.dims().2),
            t.wf(),
    {
        proof {
            use_type_invariant(self);
        }
        let batch: usize = self.data.len();
        let mut data: Vec<Vec<Vec<i32>>> = Vec::with_capacity(batch);
        let mut b: usize = 0;
        while b < batch
            invariant
                b <= batch,
                batch == self.data@.len(),
                start <= end <= self.len,
                self.wf(),
                data@.len() == b,
                forall|q: int| 0 <= q < b ==> (#[trigger] data@[q]).deep_view() == self@[q].subrange(start as int, end as int),
            decreases batch - b,
        {
            assert(self.data.deep_view()[b as int].len() == self.len);
            let mut row: Vec<Vec<i32>> = Vec::with_capacity(end - start);
            let mut i: usize = start;
            while i < end
                invariant
                    start <= i <= end,
                    end <= self.len,
                    b < self.data@.len(),
                    self.data@[b as int]@.len() == self.len,
                    row@.len() == i - start,
                    forall|j: int| 0 <= j < i - start ==> (#[trigger] row@[j]).deep_view() == self@[b as int][start + j],
                decreases end - i,
            {
                let vector = self.data[b][i].clone();
                assert(vector.deep_view() == self.data@[b as int]@[i as int].deep_view());
                row.push(vector);
                i = i + 1;
            }
            assert(row.deep_view() =~= self@[b as int].subrange(start as int, end as int));
            data.push(row);
            b = b + 1;
        }
        assert(data.deep_view() =~= slice_positions(self@, start as int, end as int));
        Tensor3 { data, len: end - start, width: self.width }
    }

    /// Row by row, the positions of `self` followed by those of `other`.
    pub(crate) fn cat_positions(&self, other: &Tensor3) -> (t: Tensor3)
        requires
            self.dims().0 == other.dims().0,
            self.dims().2 == other.dims().2,
            self.dims().1 + other.dims().1 <= usize::MAX,
        ensures
            t@ == cat_positions(self@, other@),
            t.dims() == (self.dims().0, self.dims().1 + other.dims().1, self.dims().2),
            t.wf(),
    {
        proof {
            use_type_invariant(self);
            use_type_invariant(other);
        }
        let batch: usize = self.data.len();
        let mut data: Vec<Vec<Vec<i32>>> = Vec::with_capacity(batch);
        let mut b: usize = 0;
        while b < batch
            invariant
                b <= batch,
                batch == self.data@.len(),
                batch == other.data@.len(),
                self.wf(),
                other.wf(),
                self.width == other.width,
                self.len + other.len <= usize::MAX,
                data@.len() == b,
                forall|q: int| 0 <= q < b ==> (#[trigger] data@[q]).deep_view() == self@[q] + other@[q],
            decreases batch - b,
        {
            assert(self.data.deep_view()[b as int].len() == self.len);
            assert(other.data.deep_view()[b as int].len() == other.len);
            let mut row: Vec<Vec<i32>> = Vec::with_capacity(self.len + other.len);
            let mut i: usize = 0;
            while i < self.len
                invariant
                    i <= self.len,
                    b < self.data@.len(),
                    self.data@[b as int]@.len() == self.len,
                    row@.len() == i,
                    forall|j: int| 0 <= j < i ==> (#[trigger] row@[j]).deep_view() == self@[b as int][j],
                decreases self.len - i,
            {
                let vector = self.data[b][i].clone();
                assert(vector.deep_view() == self.data@[b as int]@[i as int].deep_view());
                row.push(vector);
                i = i + 1;
            }
            let mut j: usize = 0;
            while j < other.len
                invariant
                    j <= other.len,
                    b < other.data@.len(),
                    other.data@[b as int]@.len() == other.len,
                    self.data.deep_view()[b as int].len() == self.len,
                    row@.len() == self.len + j,
                    forall|p: int| 0 <= p < self.len ==> (#[trigger] row@[p]).deep_view() == self@[b as int][p],
                    forall|p: int| 0 <= p < j ==> (#[trigger] row@[self.len + p]).deep_view() == other@[b as int][p],
                decreases other.len - j,
            {
                let vector = other.data[b][j].clone();
                assert(vector.deep_view() == other.data@[b as int]@[j as int].deep_view());
                row.push(vector);
                j = j + 1;
            }
            assert(row.deep_view() =~= self@[b as int] + other@[b as int]) by {
                assert forall|p: int| 0 <= p < row@.len() implies #[trigger] row.deep_view()[p] == (self@[b as int]
                    + other@[b as int])[p] by {
                    if p >= self.len {
                        assert(row@[self.len + (p - self.len)].deep_view() == other@[b as int][p - self.len]);
                    }
                }
            }
            data.push(row);
            b = b + 1;
        }
        assert(data.deep_view() =~= cat_positions(self@, other@));
        Tensor3 { data, len: self.len + other.len, width: self.width }
    }

    /// Position by position, the features of `self`, then of `y`, then of `z`.
    pub(crate) fn cat_features(&self, y: &Tensor3, z: &Tensor3) -> (t: Tensor3)
        requires
            self.dims().0 == y.dims().0 == z.dims().0,
            self.dims().1 == y.dims().1 == z.dims().1,
            self.dims().2 + y.dims().2 + z.dims().2 <= usize::MAX,
        ensures
            t@ == cat_features(self@, y@, z@),
            t.dims() == (self.dims().0, self.dims().1, self.dims().2 + y.dims().2 + z.dims().2),
            t.wf(),
    {
        proof {
            use_type_invariant(self);
            use_type_invariant(y);
            use_type_invariant(z);
        }
        let batch: usize = self.data.len();
        let len: usize = self.len;
        let mut data: Vec<Vec<Vec<i32>>> = Vec::with_capacity(batch);
        let mut b: usize = 0;
        while b < batch
            invariant
                b <= batch,
                batch == self.data@.len() == y.data@.len() == z.data@.len(),
                len == self.len == y.len == z.len,
                self.wf(),
                y.wf(),
                z.wf(),
                self.width + y.width + z.width <= usize::MAX,
                data@.len() == b,
                forall|q: int| 0 <= q < b ==> (#[trigger] data@[q]).deep_view() == Seq::new(len as nat, |i: int| self@[q][i] + y@[q][i] + z@[q][i]),
            decreases batch - b,
        {
            assert(self.data.deep_view()[b as int].len() == len);
            assert(y.data.deep_view()[b as int].len() == len);
            assert(z.data.deep_view()[b as int].len() == len);
            let mut row: Vec<Vec<i32>> = Vec::with_capacity(len);
            let mut i: usize = 0;
            while i < len
                invariant
                    i <= len,
                    b < batch,
                    batch == self.data@.len() == y.data@.len() == z.data@.len(),
                    len == self.len == y.len == z.len,
                    self.wf(),
                    y.wf(),
                    z.wf(),
                    self.width + y.width + z.width <= usize::MAX,
                    row@.len() == i,
                    forall|j: int| 0 <= j < i ==> (#[trigger] row@[j]).deep_view() == self@[b as int][j] + y@[b as int][j] + z@[b as int][j],
                    forall|j: int| 0 <= j < i ==> (#[trigger] row@[j])@.len() == self.width + y.width + z.width,
                decreases len - i,
            {
                let first = self.vector(b, i);
                let second = y.vector(b, i);
                let third = z.vector(b, i);
                let mut vector: Vec<i32> = Vec::with_capacity(self.width + y.width + z.width);
                append_copy(&mut vector, first);
                append_copy(&mut vector, second);
                append_copy(&mut vector, third);
                proof {
                    lemma_flat_view(&vector);
                }
                row.push(vector);
                i = i + 1;
            }
            assert(row.deep_view() =~= Seq::new(len as nat, |i: int| self@[b as int][i] + y@[b as int][i] + z@[b as int][i]));
            data.push(row);
            b = b + 1;
        }
        assert(data.deep_view() =~= cat_features(self@, y@, z@));
        proof {
            assert forall|q: int, i: int| 0 <= q < data.deep_view().len() && 0 <= i < data.deep_view()[q].len() implies (#[trigger] data.deep_view()[q][i]).len()
                == self.width + y.width + z.width by {
                assert(self.data.deep_view()[q].len() == len);
                assert(y.data.deep_view()[q].len() == len);
                assert(z.data.deep_view()[q].len() == len);
                assert(self.data.deep_view()[q][i].len() == self.width);
                assert(y.data.deep_view()[q][i].len() == y.width);
                assert(z.data.deep_view()[q][i].len() == z.width);
            }
        }
        Tensor3 { data, len, width: self.width + y.width + z.width }
    }
}

/// A vector of `width` zeros.
pub(crate) fn zero_vec(width: usize) -> (v: Vec<i32>)
    ensures
        v@ == zero_vector(width as nat),
        v.deep_view() == zero_vector(width as nat),
{
    let mut v: Vec<i32> = Vec::with_capacity(width);
    let mut k: usize = 0;
    while k < width
        invariant
            k <= width,
            v@.len() == k,
            forall|j: int| 0 <= j < k ==> v@[j] == 0i32,
        decreases width - k,
    {
        v.push(0i32);
        k = k + 1;
    }
    assert(v@ =~= zero_vector(width as nat));
    proof {
        lemma_flat_view(&v);
    }
    v
}

/// Adds a copy of the numbers of `source` at the end of `target`.
pub(crate) fn append_copy(target: &mut Vec<i32>, source: &Vec<i32>)
    ensures
        final(target)@ == old(target)@ + source@,
{
    let mut k: usize = 0;
    while k < source.len()
        invariant
            k <= source.len(),
            target@ == old(target)@ + source@.take(k as int),
        decreases source.len() - k,
    {
        target.push(source[k]);
        assert(target@ =~= old(target)@ + source@.take(k + 1));
        k = k + 1;
    }
    assert(source@.take(source.len() as int) =~= source@);
}

} // verus!
