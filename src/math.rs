use vstd::prelude::*;

use crate::error::TensorError;
use vstd::std_specs::ops::{AddSpec, MulSpec};
use std::ops::{Add, Mul};

verus! {

/// Where the coordinate `(i, j)` of a row-major `rows x cols` buffer lies.
proof fn lemma_row_major_index(i: int, j: int, rows: int, cols: int)
    requires
        0 <= i < rows,
        0 <= j < cols,
    ensures
        0 <= i * cols + j < rows * cols,
        (i * cols + j) / cols == i,
        (i * cols + j) % cols == j,
{
    assert(0 <= i * cols + j < rows * cols) by (nonlinear_arith)
        requires 0 <= i < rows, 0 <= j < cols;
    assert((i * cols + j) / cols == i && (i * cols + j) % cols == j) by (nonlinear_arith)
        requires 0 <= i, 0 <= j < cols;
}

/// Which coordinate the `k`-th value of a row-major `rows x cols` buffer has.
pub proof fn lemma_flat_index(k: int, rows: int, cols: int)
    requires
        0 <= k < rows * cols,
        rows >= 0,
        cols >= 0,
    ensures
        cols > 0,
        0 <= k / cols < rows,
        0 <= k % cols < cols,
        (k / cols) * cols + k % cols == k,
{
    assert(cols > 0) by (nonlinear_arith)
        requires 0 <= k < rows * cols, rows >= 0, cols >= 0;
    assert((k / cols) * cols + k % cols == k && 0 <= k % cols < cols) by (nonlinear_arith)
        requires cols > 0;
    assert(0 <= k / cols < rows) by (nonlinear_arith)
        requires cols > 0, 0 <= k < rows * cols, (k / cols) * cols + k % cols == k, 0 <= k % cols < cols;
}

/// A pair of coordinates: rows first, then columns.
#[derive(Clone, Copy, Debug, PartialEq, Eq, Structural)]
pub struct Vec2(pub usize, pub usize);

/// A dense 2-D buffer with row-major storage and a stride pair, so that a
/// transpose swaps the strides and copies nothing.
pub struct Matrix<T> {
    dim: Vec2,
    vec_length: Vec2,
    buffer: Vec<T>,
}

impl<T> Matrix<T> {
    pub open spec fn rows(&self) -> nat {
        self.dim_spec().0 as nat
    }

    pub open spec fn cols(&self) -> nat {
        self.dim_spec().1 as nat
    }

    /// The buffer holds exactly rows x cols values, and the strides address
    /// it either row-major or as the transpose of a row-major buffer.
    pub closed spec fn wf(&self) -> bool {
        &&& self.buffer@.len() == self.dim.0 * self.dim.1
        &&& self.dim.0 * self.dim.1 <= usize::MAX
        &&& ((self.vec_length.0 == self.dim.1 && self.vec_length.1 == 1) || (
        self.vec_length.0 == 1 && self.vec_length.1 == self.dim.0))
    }

    /// Position in the buffer of the logical coordinate (i, j).
    pub closed spec fn offset(&self, i: int, j: int) -> int {
        i * self.vec_length.0 + j * self.vec_length.1
    }

    /// The value at the logical coordinate (i, j).
    pub closed spec fn at(&self, i: int, j: int) -> T {
        self.buffer@[self.offset(i, j)]
    }

    /// The buffer in storage order.
    pub closed spec fn storage(&self) -> Seq<T> {
        self.buffer@
    }

    /// Whether storage order is the logical row-major order (no transpose
    /// is pending).
    pub closed spec fn row_major(&self) -> bool {
        self.vec_length.0 == self.dim.1 && self.vec_length.1 == 1
    }

    proof fn lemma_row_major_flat(&self)
        requires
            self.wf(),
            self.row_major(),
        ensures
            self.flat() == self.buffer@,
    {
        let c = self.dim.1 as int;
        assert forall|k: int| 0 <= k < self.flat().len() implies self.flat()[k] == self.buffer@[k] by {
            assert((k / c) * c + k % c == k) by (nonlinear_arith) requires c > 0;
        }
        assert(self.flat() =~= self.buffer@);
    }

    /// The values in logical row-major order.
    pub open spec fn flat(&self) -> Seq<T> {
        Seq::new(self.rows() * self.cols(), |k: int| self.at(k / self.cols() as int, k % self.cols() as int))
    }

    proof fn lemma_offset_in_bounds(&self, i: int, j: int)
        requires
            self.wf(),
            0 <= i < self.rows(),
            0 <= j < self.cols(),
        ensures
            0 <= self.offset(i, j) < self.buffer@.len(),
    {
        let r = self.dim.0 as int;
        let c = self.dim.1 as int;
        if self.row_major() {
            assert(0 <= i * c + j < r * c) by (nonlinear_arith)
                requires 0 <= i < r, 0 <= j < c;
        } else {
            assert(0 <= i + j * r < r * c) by (nonlinear_arith)
                requires 0 <= i < r, 0 <= j < c;
            assert(self.offset(i, j) == i + j * r);
        }
    }

    /// A row-major matrix over `buffer`; fails when the buffer does not hold
    /// exactly rows x cols values.
    pub fn new(dimensions: Vec2, buffer: Vec<T>) -> (r: Result<Matrix<T>, TensorError>)
        ensures
            buffer@.len() == dimensions.0 * dimensions.1 <==> r is Ok,
            r matches Ok(m) ==> m.wf() && m.row_major() && m.dim_spec() == dimensions && m.flat() == buffer@,
            r matches Err(e) ==> e == (TensorError::ShapeMismatch {
                expected: dimensions,
                found: Vec2(buffer@.len() as usize, 1),
            }),
    {
        let len = buffer.len();
        match dimensions.0.checked_mul(dimensions.1) {
            Some(n) if n == len => {
                let m = Matrix { dim: dimensions, vec_length: Vec2(dimensions.1, 1), buffer };
                proof {
                    assert(m.wf());
                    if dimensions.1 == 0 {
                        assert(m.flat() =~= buffer@);
                    } else {
                        m.lemma_row_major_flat();
                    }
                }
                Ok(m)
            },
            _ => Err(TensorError::ShapeMismatch { expected: dimensions, found: Vec2(len, 1) }),
        }
    }

    pub closed spec fn dim_spec(&self) -> Vec2 {
        self.dim
    }

    /// The total number of values.
    pub fn len(&self) -> (r: usize)
        requires
            self.wf(),
        ensures
            r == self.rows() * self.cols(),
    {
        self.buffer.len()
    }

    /// The dimensions, rows first.
    #[verifier::when_used_as_spec(dim_spec)]
    pub fn dim(&self) -> (r: Vec2)
        ensures
            r == self.dim_spec(),
    {
        self.dim
    }

    /// Whether storage order is row-major.
    #[verifier::when_used_as_spec(row_major)]
    pub fn is_row_major(&self) -> (r: bool)
        ensures
            r == self.row_major(),
    {
        self.vec_length.0 == self.dim.1 && self.vec_length.1 == 1
    }

    /// The values fit in memory.
    pub proof fn lemma_size(&self)
        requires
            self.wf(),
        ensures
            self.rows() * self.cols() <= usize::MAX,
            self.storage().len() == self.rows() * self.cols(),
    {
    }

    /// An empty matrix has no values in either order.
    pub proof fn lemma_empty_flat(&self)
        requires
            self.wf(),
            self.rows() == 0 || self.cols() == 0,
        ensures
            self.flat() == self.storage(),
    {
        assert(self.rows() * self.cols() == 0) by (nonlinear_arith)
            requires self.rows() == 0 || self.cols() == 0;
        assert(self.flat() =~= self.storage());
    }

    /// Hands over the buffer, in storage order.
    pub fn to_flattened(self) -> (r: Vec<T>)
        ensures
            r@ == self.storage(),
            self.wf() && self.row_major() ==> r@ == self.flat(),
    {
        proof {
            if self.wf() && self.row_major() {
                self.lemma_row_major_flat();
            }
        }
        self.buffer
    }

    /// Positions in the buffer of the coordinates from `(0, 0)` up to
    /// `(x, y)` exclusive, row by row.
    pub fn get_indicies(&self, corner: Vec2) -> (r: Vec<usize>)
        requires
            self.wf(),
            0 < corner.0 <= self.rows(),
            0 < corner.1 <= self.cols(),
        ensures
            r@.len() == corner.0 * corner.1,
            forall|k: int|
                0 <= k < r@.len() ==> #[trigger] r@[k] == self.offset(k / (corner.1 as int), k % (corner.1 as int)),
            forall|k: int| 0 <= k < r@.len() ==> #[trigger] r@[k] < self.storage().len(),
            self.row_major() ==> forall|k: int|
                0 <= k < r@.len() ==> #[trigger] r@[k] == (k / (corner.1 as int)) * self.cols() + k % (corner.1 as int),
            !self.row_major() ==> forall|k: int|
                0 <= k < r@.len() ==> #[trigger] r@[k] == k / (corner.1 as int) + (k % (corner.1 as int)) * self.rows(),
    {
        let Vec2(x, y) = corner;
        proof {
            assert(x * y <= self.rows() * self.cols()) by (nonlinear_arith)
                requires 0 < x <= self.rows(), 0 < y <= self.cols();
        }
        let mut buf: Vec<usize> = Vec::with_capacity(x * y);
        let mut k: usize = 0;
        while k < x * y
            invariant
                self.wf(),
                0 < x <= self.rows(),
                0 < y <= self.cols(),
                x * y <= usize::MAX,
                k <= x * y,
                buf@.len() == k,
                forall|k: int|
                    0 <= k < buf@.len() ==> #[trigger] buf@[k] == self.offset(k / (y as int), k % (y as int)),
                forall|k: int| 0 <= k < buf@.len() ==> #[trigger] buf@[k] < self.storage().len(),
            decreases x * y - k,
        {
            proof {
                lemma_flat_index(k as int, x as int, y as int);
                let i = k as int / y as int;
                let j = k as int % y as int;
                self.lemma_offset_in_bounds(i, j);
                assert(0 <= i * self.vec_length.0 <= self.offset(i, j)) by (nonlinear_arith)
                    requires i >= 0, self.vec_length.0 >= 0, j * self.vec_length.1 >= 0,
                        self.offset(i, j) == i * self.vec_length.0 + j * self.vec_length.1;
                assert(0 <= j * self.vec_length.1 <= self.offset(i, j)) by (nonlinear_arith)
                    requires j >= 0, self.vec_length.1 >= 0, i * self.vec_length.0 >= 0,
                        self.offset(i, j) == i * self.vec_length.0 + j * self.vec_length.1;
            }
            let i = k / y;
            let j = k % y;
            buf.push(i * self.vec_length.0 + j * self.vec_length.1);
            k = k + 1;
        }
        buf
    }

    /// The positions of `get_indicies`, each multiplied by `stride`: the
    /// corners of `x` by `y` blocks of side `stride`.
    pub fn get_indicies_stride(&self, corner: Vec2, stride: usize) -> (r: Vec<usize>)
        requires
            self.wf(),
            stride > 0,
            0 < corner.0 <= self.dim_spec().0 / stride,
            0 < corner.1 <= self.dim_spec().1 / stride,
        ensures
            r@.len() == corner.0 * corner.1,
            forall|k: int|
                0 <= k < r@.len() ==> #[trigger] r@[k] == stride * self.offset(
                    k / (corner.1 as int),
                    k % (corner.1 as int),
                ),
            forall|k: int| 0 <= k < r@.len() ==> #[trigger] r@[k] < self.storage().len(),
    {
        let Vec2(x, y) = corner;
        proof {
            assert(x <= self.rows() && y <= self.cols()) by (nonlinear_arith)
                requires stride > 0, x <= self.dim_spec().0 / stride, y <= self.dim_spec().1 / stride;
        }
        let base = self.get_indicies(corner);
        let mut buf: Vec<usize> = Vec::with_capacity(base.len());
        let mut k: usize = 0;
        while k < base.len()
            invariant
                self.wf(),
                stride > 0,
                0 < x <= self.dim_spec().0 / stride,
                0 < y <= self.dim_spec().1 / stride,
                base@.len() == x * y,
                forall|k: int|
                    0 <= k < base@.len() ==> #[trigger] base@[k] == self.offset(k / (y as int), k % (y as int)),
                k <= base@.len(),
                buf@.len() == k,
                forall|k: int|
                    0 <= k < buf@.len() ==> #[trigger] buf@[k] == stride * self.offset(k / (y as int), k % (y as int)),
                forall|k: int| 0 <= k < buf@.len() ==> #[trigger] buf@[k] < self.storage().len(),
            decreases base@.len() - k,
        {
            proof {
                lemma_flat_index(k as int, x as int, y as int);
                let i = k as int / y as int;
                let j = k as int % y as int;
                assert(i < (self.rows() as int) / (stride as int));
                assert(j < (self.cols() as int) / (stride as int));
                self.lemma_strided_in_bounds(i, j, stride as int);
                assert(base@[k as int] * stride == stride * self.offset(i, j)) by (nonlinear_arith)
                    requires base@[k as int] == self.offset(i, j);
            }
            buf.push(base[k] * stride);
            k = k + 1;
        }
        buf
    }

    proof fn lemma_strided_in_bounds(&self, i: int, j: int, stride: int)
        requires
            self.wf(),
            stride > 0,
            0 <= i < (self.rows() as int) / stride,
            0 <= j < (self.cols() as int) / stride,
        ensures
            0 <= stride * self.offset(i, j) < self.storage().len(),
    {
        let r = self.dim.0 as int;
        let c = self.dim.1 as int;
        assert(stride * i < r && stride * j < c && stride * i >= 0 && stride * j >= 0) by (nonlinear_arith)
            requires stride > 0, 0 <= i < r / stride, 0 <= j < c / stride, r >= 0, c >= 0;
        if self.row_major() {
            assert(0 <= stride * (i * c + j) < r * c) by (nonlinear_arith)
                requires stride * i < r, stride * j < c, stride * i >= 0, stride * j >= 0, stride > 0, i >= 0, j >= 0;
        } else {
            assert(self.offset(i, j) == i + j * r);
            assert(0 <= stride * (i + j * r) < r * c) by (nonlinear_arith)
                requires stride * i < r, stride * j < c, stride * i >= 0, stride * j >= 0, stride > 0, i >= 0, j >= 0;
        }
    }

    /// Swaps the dimensions and the strides: no value moves.
    pub fn transpose(&mut self)
        requires
            old(self).wf(),
        ensures
            final(self).wf(),
            final(self).dim_spec() == Vec2(old(self).dim_spec().1, old(self).dim_spec().0),
            forall|i: int, j: int|
                0 <= i < final(self).rows() && 0 <= j < final(self).cols() ==> #[trigger] final(self).at(i, j)
                    == old(self).at(j, i),
    {
        let Vec2(dim_x, dim_y) = self.dim;
        let Vec2(x, y) = self.vec_length;
        self.dim = Vec2(dim_y, dim_x);
        self.vec_length = Vec2(y, x);
        proof {
            assert(self.buffer@.len() == dim_y * dim_x) by (nonlinear_arith)
                requires self.buffer@.len() == dim_x * dim_y;
            assert(dim_y * dim_x == dim_x * dim_y) by (nonlinear_arith);
        }
    }
}

impl<T: Copy> Matrix<T> {
    /// The value at the logical coordinate `(x, y)`, honouring the strides.
    pub fn get(&self, coordinate: Vec2) -> (r: T)
        requires
            self.wf(),
            coordinate.0 < self.rows(),
            coordinate.1 < self.cols(),
        ensures
            r == self.at(coordinate.0 as int, coordinate.1 as int),
    {
        let Vec2(x, y) = coordinate;
        proof {
            self.lemma_offset_in_bounds(x as int, y as int);
            assert(0 <= x * self.vec_length.0 <= self.offset(x as int, y as int)) by (nonlinear_arith)
                requires x >= 0, self.vec_length.0 >= 0, y * self.vec_length.1 >= 0,
                    self.offset(x as int, y as int) == x * self.vec_length.0 + y * self.vec_length.1;
            assert(0 <= y * self.vec_length.1 <= self.offset(x as int, y as int)) by (nonlinear_arith)
                requires y >= 0, self.vec_length.1 >= 0, x * self.vec_length.0 >= 0,
                    self.offset(x as int, y as int) == x * self.vec_length.0 + y * self.vec_length.1;
        }
        self.buffer[x * self.vec_length.0 + y * self.vec_length.1]
    }

    /// A copy with the same dimensions, strides and buffer.
    pub fn duplicate(&self) -> (r: Matrix<T>)
        ensures
            r.dim_spec() == self.dim_spec(),
            r.row_major() == self.row_major(),
            r.storage() == self.storage(),
            self.wf() ==> r.wf(),
            forall|i: int, j: int| #[trigger] r.at(i, j) == self.at(i, j),
            r.flat() == self.flat(),
    {
        let mut buffer: Vec<T> = Vec::with_capacity(self.buffer.len());
        let mut k: usize = 0;
        while k < self.buffer.len()
            invariant
                k <= self.buffer@.len(),
                buffer@ == self.buffer@.subrange(0, k as int),
            decreases self.buffer@.len() - k,
        {
            buffer.push(self.buffer[k]);
            k = k + 1;
            assert(buffer@ =~= self.buffer@.subrange(0, k as int));
        }
        assert(buffer@ =~= self.buffer@);
        let r = Matrix { dim: self.dim, vec_length: self.vec_length, buffer };
        assert(r.flat() =~= self.flat());
        r
    }

    /// The row-major matrix of the values in rows `x1..x2` and columns
    /// `y1..y2` (start inclusive, end exclusive).
    pub fn get_submatrix(&self, from: Vec2, to: Vec2) -> (r: Matrix<T>)
        requires
            self.wf(),
            from.0 < to.0 <= self.rows(),
            from.1 < to.1 <= self.cols(),
        ensures
            r.wf(),
            r.row_major(),
            r.dim_spec() == Vec2((to.0 - from.0) as usize, (to.1 - from.1) as usize),
            forall|i: int, j: int|
                0 <= i < r.rows() && 0 <= j < r.cols() ==> #[trigger] r.at(i, j) == self.at(
                    from.0 + i,
                    from.1 + j,
                ),
    {
        let Vec2(x1, y1) = from;
        let Vec2(x2, y2) = to;
        let w = y2 - y1;
        let ghost h = x2 - x1;
        proof {
            self.lemma_offset_in_bounds(0, 0);
            assert(h * w <= self.rows() * self.cols()) by (nonlinear_arith)
                requires 0 <= h <= self.rows(), 0 <= w <= self.cols();
        }
        let mut buf: Vec<T> = Vec::with_capacity((x2 - x1) * w);
        let mut i: usize = x1;
        while i < x2
            invariant
                self.wf(),
                x1 <= i <= x2 <= self.rows(),
                y1 < y2 <= self.cols(),
                w == y2 - y1,
                buf@.len() == (i - x1) * w,
                forall|k: int| 0 <= k < buf@.len() ==> #[trigger] buf@[k] == self.at(x1 + k / (w as int), y1 + k % (w as int)),
            decreases x2 - i,
        {
            let mut j: usize = y1;
            while j < y2
                invariant
                    self.wf(),
                    x1 <= i < x2 <= self.rows(),
                    y1 <= j <= y2 <= self.cols(),
                    w == y2 - y1,
                    buf@.len() == (i - x1) * w + (j - y1),
                    forall|k: int| 0 <= k < buf@.len() ==> #[trigger] buf@[k] == self.at(x1 + k / (w as int), y1 + k % (w as int)),
                decreases y2 - j,
            {
                let v = self.get(Vec2(i, j));
                proof {
                    let k = (i - x1) * w + (j - y1);
                    assert(k / (w as int) == i - x1 && k % (w as int) == j - y1) by (nonlinear_arith)
                        requires k == (i - x1) * w + (j - y1), 0 <= j - y1 < w, i >= x1;
                }
                buf.push(v);
                j = j + 1;
            }
            proof {
                assert((i - x1) * w + w == (i + 1 - x1) * w) by (nonlinear_arith);
            }
            i = i + 1;
        }
        let r = Matrix { dim: Vec2(x2 - x1, w), vec_length: Vec2(w, 1), buffer: buf };
        proof {
            assert forall|i: int, j: int| 0 <= i < r.rows() && 0 <= j < r.cols() implies #[trigger] r.at(i, j) == self.at(
                    x1 + i,
                    y1 + j,
                ) by {
                let k = i * w + j;
                assert(k / (w as int) == i && k % (w as int) == j) by (nonlinear_arith)
                    requires k == i * w + j, 0 <= j < w, i >= 0;
                assert(0 <= k < buf@.len()) by (nonlinear_arith)
                    requires k == i * w + j, 0 <= j < w, 0 <= i < h, buf@.len() == h * w;
            }
        }
        r
    }
}


impl<T: Copy + Add<Output = T>> Matrix<T> {
    /// Elementwise sum; the dimensions must be equal.
    pub fn add(&self, rhs: &Matrix<T>) -> (r: Result<Matrix<T>, TensorError>)
        requires
            self.wf(),
            rhs.wf(),
            self.dim_spec() == rhs.dim_spec() ==> forall|i: int, j: int| 0 <= i < self.rows() && 0 <= j < self.cols() ==> #[trigger] self.at(i, j).add_req(rhs.at(i, j)),
        ensures
            r is Ok <==> self.dim_spec() == rhs.dim_spec(),
            r matches Err(e) ==> e == (TensorError::ShapeMismatch { expected: self.dim_spec(), found: rhs.dim_spec() }),
            r matches Ok(m) ==> {
                let m = m;
                &&& m.wf()
                &&& m.row_major()
                &&& m.dim_spec() == self.dim_spec()
                &&& T::obeys_add_spec() ==> forall|i: int, j: int|
                    0 <= i < m.rows() && 0 <= j < m.cols() ==> #[trigger] m.at(i, j) == self.at(i, j).add_spec(rhs.at(i, j))
            },
    {
        if self.dim.0 != rhs.dim.0 || self.dim.1 != rhs.dim.1 {
            return Err(TensorError::ShapeMismatch { expected: self.dim, found: rhs.dim });
        }
        let rows = self.dim.0;
        let cols = self.dim.1;
        let n = self.len();
        let mut buffer: Vec<T> = Vec::with_capacity(n);
        let mut k: usize = 0;
        while k < n
            invariant
                self.wf(),
                rhs.wf(),
                self.dim_spec() == rhs.dim_spec(),
                rows == self.rows(),
                cols == self.cols(),
                n == rows * cols,
                k <= n,
                forall|i: int, j: int| 0 <= i < self.rows() && 0 <= j < self.cols() ==> #[trigger] self.at(i, j).add_req(rhs.at(i, j)),
                buffer@.len() == k,
                T::obeys_add_spec() ==> forall|k: int| 0 <= k < buffer@.len() ==> #[trigger] buffer@[k] == self.at(k / (cols as int), k % (cols as int)).add_spec(rhs.at(k / (cols as int), k % (cols as int))),
            decreases n - k,
        {
            proof {
                lemma_flat_index(k as int, rows as int, cols as int);
            }
            let i = k / cols;
            let j = k % cols;
            let a = self.get(Vec2(i, j));
            let b = rhs.get(Vec2(i, j));
            buffer.push(a + b);
            k = k + 1;
        }
        let m = Matrix { dim: self.dim, vec_length: Vec2(cols, 1), buffer };
        proof {
            if T::obeys_add_spec() {
                assert forall|i: int, j: int| 0 <= i < m.rows() && 0 <= j < m.cols() implies #[trigger] m.at(i, j)
                    == self.at(i, j).add_spec(rhs.at(i, j)) by {
                    lemma_row_major_index(i, j, rows as int, cols as int);
                }
            }
        }
        Ok(m)
    }
}

impl<T: Copy + Add<Output = T>> Matrix<T> {
    /// Adds `rhs` to every value.
    pub fn add_scalar(&self, rhs: T) -> (r: Matrix<T>)
        requires
            self.wf(),
            forall|i: int, j: int| 0 <= i < self.rows() && 0 <= j < self.cols() ==> #[trigger] self.at(i, j).add_req(rhs),
        ensures
            ({
                let m = r;
                &&& m.wf()
                &&& m.row_major()
                &&& m.dim_spec() == self.dim_spec()
                &&& T::obeys_add_spec() ==> forall|i: int, j: int|
                    0 <= i < m.rows() && 0 <= j < m.cols() ==> #[trigger] m.at(i, j) == self.at(i, j).add_spec(rhs)
            }),
    {
        let rows = self.dim.0;
        let cols = self.dim.1;
        let n = self.len();
        let mut buffer: Vec<T> = Vec::with_capacity(n);
        let mut k: usize = 0;
        while k < n
            invariant
                self.wf(),
                rows == self.rows(),
                cols == self.cols(),
                n == rows * cols,
                k <= n,
                forall|i: int, j: int| 0 <= i < self.rows() && 0 <= j < self.cols() ==> #[trigger] self.at(i, j).add_req(rhs),
                buffer@.len() == k,
                T::obeys_add_spec() ==> forall|k: int| 0 <= k < buffer@.len() ==> #[trigger] buffer@[k] == self.at(k / (cols as int), k % (cols as int)).add_spec(rhs),
            decreases n - k,
        {
            proof {
                lemma_flat_index(k as int, rows as int, cols as int);
            }
            let i = k / cols;
            let j = k % cols;
            let a = self.get(Vec2(i, j));
            let b = rhs;
            buffer.push(a + b);
            k = k + 1;
        }
        let m = Matrix { dim: self.dim, vec_length: Vec2(cols, 1), buffer };
        proof {
            if T::obeys_add_spec() {
                assert forall|i: int, j: int| 0 <= i < m.rows() && 0 <= j < m.cols() implies #[trigger] m.at(i, j)
                    == self.at(i, j).add_spec(rhs) by {
                    lemma_row_major_index(i, j, rows as int, cols as int);
                }
            }
        }
        m
    }
}

impl<T: Copy + Mul<Output = T>> Matrix<T> {
    /// Multiplies every value by `rhs`.
    pub fn mul_scalar(&self, rhs: T) -> (r: Matrix<T>)
        requires
            self.wf(),
            forall|i: int, j: int| 0 <= i < self.rows() && 0 <= j < self.cols() ==> #[trigger] self.at(i, j).mul_req(rhs),
        ensures
            ({
                let m = r;
                &&& m.wf()
                &&& m.row_major()
                &&& m.dim_spec() == self.dim_spec()
                &&& T::obeys_mul_spec() ==> forall|i: int, j: int|
                    0 <= i < m.rows() && 0 <= j < m.cols() ==> #[trigger] m.at(i, j) == self.at(i, j).mul_spec(rhs)
            }),
    {
        let rows = self.dim.0;
        let cols = self.dim.1;
        let n = self.len();
        let mut buffer: Vec<T> = Vec::with_capacity(n);
        let mut k: usize = 0;
        while k < n
            invariant
                self.wf(),
                rows == self.rows(),
                cols == self.cols(),
                n == rows * cols,
                k <= n,
                forall|i: int, j: int| 0 <= i < self.rows() && 0 <= j < self.cols() ==> #[trigger] self.at(i, j).mul_req(rhs),
                buffer@.len() == k,
                T::obeys_mul_spec() ==> forall|k: int| 0 <= k < buffer@.len() ==> #[trigger] buffer@[k] == self.at(k / (cols as int), k % (cols as int)).mul_spec(rhs),
            decreases n - k,
        {
            proof {
                lemma_flat_index(k as int, rows as int, cols as int);
            }
            let i = k / cols;
            let j = k % cols;
            let a = self.get(Vec2(i, j));
            let b = rhs;
            buffer.push(a * b);
            k = k + 1;
        }
        let m = Matrix { dim: self.dim, vec_length: Vec2(cols, 1), buffer };
        proof {
            if T::obeys_mul_spec() {
                assert forall|i: int, j: int| 0 <= i < m.rows() && 0 <= j < m.cols() implies #[trigger] m.at(i, j)
                    == self.at(i, j).mul_spec(rhs) by {
                    lemma_row_major_index(i, j, rows as int, cols as int);
                }
            }
        }
        m
    }
}

impl<T: Copy + Mul<Output = T>> Matrix<T> {
    /// Hadamard product: elementwise multiplication; the dimensions must be equal.
    pub fn product(&self, rhs: &Matrix<T>) -> (r: Result<Matrix<T>, TensorError>)
        requires
            self.wf(),
            rhs.wf(),
            self.dim_spec() == rhs.dim_spec() ==> forall|i: int, j: int| 0 <= i < self.rows() && 0 <= j < self.cols() ==> #[trigger] self.at(i, j).mul_req(rhs.at(i, j)),
        ensures
            r is Ok <==> self.dim_spec() == rhs.dim_spec(),
            r matches Err(e) ==> e == (TensorError::ShapeMismatch { expected: self.dim_spec(), found: rhs.dim_spec() }),
            r matches Ok(m) ==> {
                let m = m;
                &&& m.wf()
                &&& m.row_major()
                &&& m.dim_spec() == self.dim_spec()
                &&& T::obeys_mul_spec() ==> forall|i: int, j: int|
                    0 <= i < m.rows() && 0 <= j < m.cols() ==> #[trigger] m.at(i, j) == self.at(i, j).mul_spec(rhs.at(i, j))
            },
    {
        if self.dim.0 != rhs.dim.0 || self.dim.1 != rhs.dim.1 {
            return Err(TensorError::ShapeMismatch { expected: self.dim, found: rhs.dim });
        }
        let rows = self.dim.0;
        let cols = self.dim.1;
        let n = self.len();
        let mut buffer: Vec<T> = Vec::with_capacity(n);
        let mut k: usize = 0;
        while k < n
            invariant
                self.wf(),
                rhs.wf(),
                self.dim_spec() == rhs.dim_spec(),
                rows == self.rows(),
                cols == self.cols(),
                n == rows * cols,
                k <= n,
                forall|i: int, j: int| 0 <= i < self.rows() && 0 <= j < self.cols() ==> #[trigger] self.at(i, j).mul_req(rhs.at(i, j)),
                buffer@.len() == k,
                T::obeys_mul_spec() ==> forall|k: int| 0 <= k < buffer@.len() ==> #[trigger] buffer@[k] == self.at(k / (cols as int), k % (cols as int)).mul_spec(rhs.at(k / (cols as int), k % (cols as int))),
            decreases n - k,
        {
            proof {
                lemma_flat_index(k as int, rows as int, cols as int);
            }
            let i = k / cols;
            let j = k % cols;
            let a = self.get(Vec2(i, j));
            let b = rhs.get(Vec2(i, j));
            buffer.push(a * b);
            k = k + 1;
        }
        let m = Matrix { dim: self.dim, vec_length: Vec2(cols, 1), buffer };
        proof {
            if T::obeys_mul_spec() {
                assert forall|i: int, j: int| 0 <= i < m.rows() && 0 <= j < m.cols() implies #[trigger] m.at(i, j)
                    == self.at(i, j).mul_spec(rhs.at(i, j)) by {
                    lemma_row_major_index(i, j, rows as int, cols as int);
                }
            }
        }
        Ok(m)
    }
}


/// The value at row `i`, column `j` of the row-major values `v` of a
/// matrix with `cols` columns.
pub open spec fn cell<T>(v: Seq<T>, cols: nat, i: int, j: int) -> T {
    v[i * cols + j]
}

/// The sum over `k < n` of `a(i, k) * b(k, j)`, accumulated from `k = 0`
/// upwards as the element type's `+` and `*` define it; `a` and `b` are
/// row-major values with `a_cols` and `b_cols` columns.
pub open spec fn dot_prefix<T: Add<Output = T> + Mul<Output = T>>(
    a: Seq<T>,
    a_cols: nat,
    b: Seq<T>,
    b_cols: nat,
    i: int,
    j: int,
    n: nat,
) -> T
    decreases n,
{
    if n <= 1 {
        cell(a, a_cols, i, 0).mul_spec(cell(b, b_cols, 0, j))
    } else {
        dot_prefix(a, a_cols, b, b_cols, i, j, (n - 1) as nat).add_spec(
            cell(a, a_cols, i, n - 1).mul_spec(cell(b, b_cols, n - 1, j)),
        )
    }
}

/// The element type's `+` and `*` are defined on every pair of values
/// (as for floating point numbers).
pub open spec fn arith_total<T: Add<Output = T> + Mul<Output = T>>() -> bool {
    forall|x: T, y: T| #![trigger x.add_req(y)] #![trigger x.mul_req(y)] x.add_req(y) && x.mul_req(y)
}

/// The product of the `rows x a_cols` values `a` and the `a_cols x b_cols`
/// values `b` can be computed without an arithmetic fault: either the
/// arithmetic is total, or it follows its specification and no partial sum
/// leaves the type's range.
pub open spec fn product_safe<T: Add<Output = T> + Mul<Output = T>>(
    a: Seq<T>,
    a_cols: nat,
    b: Seq<T>,
    b_cols: nat,
    rows: nat,
) -> bool {
    ||| arith_total::<T>()
    ||| {
        &&& T::obeys_add_spec()
        &&& T::obeys_mul_spec()
        &&& forall|i: int, j: int, k: int|
            #![trigger cell(a, a_cols, i, k), cell(b, b_cols, k, j)]
            0 <= i < rows && 0 <= j < b_cols && 0 <= k < a_cols ==> {
                &&& cell(a, a_cols, i, k).mul_req(cell(b, b_cols, k, j))
                &&& k >= 1 ==> dot_prefix(a, a_cols, b, b_cols, i, j, k as nat).add_req(
                    cell(a, a_cols, i, k).mul_spec(cell(b, b_cols, k, j)),
                )
            }
    }
}

impl<T> Matrix<T> {
    /// The row-major values and the coordinates say the same.
    pub proof fn lemma_flat_at(&self, i: int, j: int)
        requires
            0 <= i < self.rows(),
            0 <= j < self.cols(),
        ensures
            0 <= i * self.cols() + j < self.flat().len(),
            cell(self.flat(), self.cols(), i, j) == self.at(i, j),
    {
        lemma_row_major_index(i, j, self.rows() as int, self.cols() as int);
    }
}

impl<T: Copy + Add<Output = T> + Mul<Output = T>> Matrix<T> {
    /// Matrix product; the columns of `self` must match the rows of `rhs`.
    pub fn mul(&self, rhs: &Matrix<T>) -> (r: Result<Matrix<T>, TensorError>)
        requires
            self.wf(),
            rhs.wf(),
            self.cols() == rhs.rows() ==> product_safe(self.flat(), self.cols(), rhs.flat(), rhs.cols(), self.rows()),
            self.cols() == rhs.rows() && self.cols() == 0 ==> self.rows() == 0 || rhs.cols() == 0,
            self.cols() == rhs.rows() ==> self.rows() * rhs.cols() <= usize::MAX,
        ensures
            r is Ok <==> self.cols() == rhs.rows(),
            r matches Err(e) ==> e == (TensorError::ShapeMismatch { expected: self.dim_spec(), found: rhs.dim_spec() }),
            r matches Ok(m) ==> {
                &&& m.wf()
                &&& m.row_major()
                &&& m.dim_spec() == Vec2(self.dim_spec().0, rhs.dim_spec().1)
                &&& T::obeys_add_spec() && T::obeys_mul_spec() ==> forall|i: int, j: int|
                    0 <= i < m.rows() && 0 <= j < m.cols() ==> #[trigger] m.at(i, j) == dot_prefix(
                        self.flat(),
                        self.cols(),
                        rhs.flat(),
                        rhs.cols(),
                        i,
                        j,
                        self.cols(),
                    )
            },
    {
        let Vec2(x, y) = self.dim;
        let Vec2(x2, y2) = rhs.dim;
        if y != x2 {
            return Err(TensorError::ShapeMismatch { expected: self.dim, found: rhs.dim });
        }
        let ghost a = self.flat();
        let ghost b = rhs.flat();
        let n = x * y2;
        let mut buffer: Vec<T> = Vec::with_capacity(n);
        let mut k: usize = 0;
        while k < n
            invariant
                self.wf(),
                rhs.wf(),
                a == self.flat(),
                b == rhs.flat(),
                y == x2,
                self.dim_spec() == Vec2(x, y),
                rhs.dim_spec() == Vec2(x2, y2),
                product_safe(a, y as nat, b, y2 as nat, x as nat),
                y == 0 ==> x == 0 || y2 == 0,
                n == x * y2,
                k <= n,
                buffer@.len() == k,
                T::obeys_add_spec() && T::obeys_mul_spec() ==> forall|k: int| 0 <= k < buffer@.len() ==> #[trigger] buffer@[k] == dot_prefix(a, y as nat, b, y2 as nat, k / (y2 as int), k % (y2 as int), y as nat),
            decreases n - k,
        {
            proof {
                lemma_flat_index(k as int, x as int, y2 as int);
            }
            let i = k / y2;
            let j = k % y2;
            assert(y > 0) by (nonlinear_arith)
                requires y == 0 ==> x == 0 || y2 == 0, i < x, j < y2;
            let a0 = self.get(Vec2(i, 0));
            let b0 = rhs.get(Vec2(0, j));
            proof {
                self.lemma_flat_at(i as int, 0);
                rhs.lemma_flat_at(0, j as int);
                assert(cell(a, y as nat, i as int, 0) == a0);
                assert(cell(b, y2 as nat, 0, j as int) == b0);
            }
            let mut sum = a0 * b0;
            let mut t: usize = 1;
            while t < y
                invariant
                    self.wf(),
                    rhs.wf(),
                    a == self.flat(),
                    b == rhs.flat(),
                    y == x2,
                    self.dim_spec() == Vec2(x, y),
                    rhs.dim_spec() == Vec2(x2, y2),
                    product_safe(a, y as nat, b, y2 as nat, x as nat),
                    i < x,
                    j < y2,
                    1 <= t <= y,
                    T::obeys_add_spec() && T::obeys_mul_spec() ==> sum == dot_prefix(a, y as nat, b, y2 as nat, i as int, j as int, t as nat),
                decreases y - t,
            {
                let at = self.get(Vec2(i, t));
                let bt = rhs.get(Vec2(t, j));
                proof {
                    self.lemma_flat_at(i as int, t as int);
                    rhs.lemma_flat_at(t as int, j as int);
                    assert(cell(a, y as nat, i as int, t as int) == at);
                    assert(cell(b, y2 as nat, t as int, j as int) == bt);
                }
                sum = sum + at * bt;
                t = t + 1;
            }
            buffer.push(sum);
            k = k + 1;
        }
        let m = Matrix { dim: Vec2(x, y2), vec_length: Vec2(y2, 1), buffer };
        proof {
            if T::obeys_add_spec() && T::obeys_mul_spec() {
                assert forall|i: int, j: int| 0 <= i < m.rows() && 0 <= j < m.cols() implies #[trigger] m.at(i, j)
                    == dot_prefix(a, y as nat, b, y2 as nat, i, j, y as nat) by {
                    lemma_row_major_index(i, j, x as int, y2 as int);
                }
            }
        }
        Ok(m)
    }
}

} // verus!
