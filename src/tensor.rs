use vstd::prelude::*;
use vstd::std_specs::ops::{AddSpec, MulSpec};
use std::ops::{Add, Mul};

use crate::error::TensorError;
use crate::math::{dot_prefix, product_safe, Matrix, Vec2};

verus! {

/// The value that flows between the nodes of a graph: a matrix together
/// with the dimensions it was declared with.
pub struct Tensor<T> {
    dim: Vec2,
    matrix: Matrix<T>,
}

impl<T> Tensor<T> {
    #[verifier::type_invariant]
    spec fn inv(self) -> bool {
        &&& self.matrix.wf()
        &&& self.dim == self.matrix.dim_spec()
    }

    /// The declared dimensions agree with the matrix, which is well formed.
    pub closed spec fn wf(&self) -> bool {
        self.inv()
    }


    pub closed spec fn dim_spec(&self) -> Vec2 {
        self.dim
    }

    pub open spec fn rows(&self) -> nat {
        self.dim_spec().0 as nat
    }

    pub open spec fn cols(&self) -> nat {
        self.dim_spec().1 as nat
    }

    /// The value at row `i`, column `j`.
    pub closed spec fn at(&self, i: int, j: int) -> T {
        self.matrix.at(i, j)
    }

    /// The values in row-major order.
    pub closed spec fn values(&self) -> Seq<T> {
        self.matrix.flat()
    }

    pub closed spec fn matrix_spec(&self) -> Matrix<T> {
        self.matrix
    }

    /// Two tensors hold the same values under the same dimensions.
    pub open spec fn same(&self, other: &Tensor<T>) -> bool {
        &&& self.dim_spec() == other.dim_spec()
        &&& self.values() == other.values()
    }

    /// The values fit in memory.
    pub proof fn lemma_size(&self)
        requires
            self.wf(),
        ensures
            self.rows() * self.cols() <= usize::MAX,
            self.values().len() == self.rows() * self.cols(),
    {
        self.matrix.lemma_size();
    }

    /// The `k`-th row-major value is the one at row `k / cols`, column
    /// `k % cols`.
    pub proof fn lemma_values_index(&self, k: int)
        requires
            self.wf(),
            0 <= k < self.values().len(),
        ensures
            self.values()[k] == self.at(k / (self.cols() as int), k % (self.cols() as int)),
    {
    }

    /// The row-major values and the coordinates say the same.
    pub proof fn lemma_values_at(&self, i: int, j: int)
        requires
            self.wf(),
            0 <= i < self.rows(),
            0 <= j < self.cols(),
        ensures
            self.values().len() == self.rows() * self.cols(),
            0 <= i * self.cols() + j < self.values().len(),
            self.values()[i * self.cols() + j] == self.at(i, j),
    {
        let c = self.cols() as int;
        assert(0 <= i * c + j < self.rows() * c) by (nonlinear_arith)
            requires 0 <= i < self.rows(), 0 <= j < c;
        assert((i * c + j) / c == i && (i * c + j) % c == j) by (nonlinear_arith)
            requires 0 <= i, 0 <= j < c;
    }

    /// Wraps `matrix`; fails when `dimensions` are not the matrix's own.
    pub fn new(dimensions: Vec2, matrix: Matrix<T>) -> (r: Result<Tensor<T>, TensorError>)
        requires
            matrix.wf(),
        ensures
            r is Ok <==> dimensions == matrix.dim_spec(),
            r matches Ok(t) ==> {
                &&& t.wf()
                &&& t.matrix_spec() == matrix
                &&& t.dim_spec() == dimensions
                &&& t.values() == matrix.flat()
                &&& forall|i: int, j: int| #[trigger] t.at(i, j) == matrix.at(i, j)
            },
            r matches Err(e) ==> e == (TensorError::ShapeMismatch {
                expected: dimensions,
                found: matrix.dim_spec(),
            }),
    {
        let d = matrix.dim();
        if dimensions.0 != d.0 || dimensions.1 != d.1 {
            return Err(TensorError::ShapeMismatch { expected: dimensions, found: d });
        }
        Ok(Tensor { dim: dimensions, matrix })
    }

    /// A tensor over a row-major buffer; fails when the buffer does not hold
    /// exactly rows x cols values.
    pub fn from_vec(dimensions: Vec2, buffer: Vec<T>) -> (r: Result<Tensor<T>, TensorError>)
        ensures
            r is Ok <==> buffer@.len() == dimensions.0 * dimensions.1,
            r matches Ok(t) ==> t.wf() && t.dim_spec() == dimensions && t.values() == buffer@,
            r matches Err(e) ==> e == (TensorError::ShapeMismatch {
                expected: dimensions,
                found: Vec2(buffer@.len() as usize, 1),
            }),
    {
        match Matrix::new(dimensions, buffer) {
            Ok(matrix) => Ok(Tensor { dim: dimensions, matrix }),
            Err(e) => Err(e),
        }
    }

    /// The dimensions, rows first.
    #[verifier::when_used_as_spec(dim_spec)]
    pub fn dim(&self) -> (r: Vec2)
        ensures
            r == self.dim_spec(),
            self.wf(),
    {
        proof {
            use_type_invariant(self);
        }
        self.dim
    }
}

impl<T: Copy> Tensor<T> {
    /// The value at `(row, col)`.
    pub fn get(&self, coordinate: Vec2) -> (r: T)
        requires
            coordinate.0 < self.rows(),
            coordinate.1 < self.cols(),
        ensures
            r == self.at(coordinate.0 as int, coordinate.1 as int),
    {
        proof {
            use_type_invariant(self);
        }
        self.matrix.get(coordinate)
    }

    /// A copy holding the same values.
    pub fn duplicate(&self) -> (r: Tensor<T>)
        ensures
            r.wf(),
            r.same(self),
            forall|i: int, j: int| #[trigger] r.at(i, j) == self.at(i, j),
            r.matrix_spec().flat() == self.matrix_spec().flat(),
    {
        proof {
            use_type_invariant(self);
        }
        Tensor { dim: self.dim, matrix: self.matrix.duplicate() }
    }

    /// The values in row-major order, whatever the storage order is.
    pub fn to_flattened(self) -> (r: Vec<T>)
        ensures
            r@ == self.values(),
    {
        proof {
            use_type_invariant(&self);
        }
        if self.matrix.is_row_major() || self.dim.0 == 0 || self.dim.1 == 0 {
            proof {
                if self.dim.0 == 0 || self.dim.1 == 0 {
                    self.matrix.lemma_empty_flat();
                }
            }
            self.matrix.to_flattened()
        } else {
            let copy = self.matrix.get_submatrix(Vec2(0, 0), self.dim);
            proof {
                assert(copy.flat() =~= self.matrix.flat()) by {
                    assert forall|k: int| 0 <= k < copy.flat().len() implies copy.flat()[k] == self.matrix.flat()[k] by {
                        crate::math::lemma_flat_index(k, self.rows() as int, self.cols() as int);
                    }
                }
            }
            copy.to_flattened()
        }
    }

    /// The transpose: rows become columns; no value is copied but the buffer.
    pub fn transpose(&self) -> (r: Tensor<T>)
        ensures
            self.wf(),
            r.wf(),
            r.dim_spec() == Vec2(self.dim_spec().1, self.dim_spec().0),
            forall|i: int, j: int|
                0 <= i < r.rows() && 0 <= j < r.cols() ==> #[trigger] r.at(i, j) == self.at(j, i),
    {
        proof {
            use_type_invariant(self);
        }
        let mut matrix = self.matrix.duplicate();
        matrix.transpose();
        Tensor { dim: Vec2(self.dim.1, self.dim.0), matrix }
    }
}

impl<T: Copy + Add<Output = T>> Tensor<T> {
    /// Elementwise sum; the dimensions must be equal.
    pub fn add(&self, rhs: &Tensor<T>) -> (r: Result<Tensor<T>, TensorError>)
        requires
            self.dim_spec() == rhs.dim_spec() ==> forall|i: int, j: int|
                0 <= i < self.rows() && 0 <= j < self.cols() ==> #[trigger] self.at(i, j).add_req(rhs.at(i, j)),
        ensures
            r is Ok <==> self.dim_spec() == rhs.dim_spec(),
            r matches Err(e) ==> e == (TensorError::ShapeMismatch { expected: self.dim_spec(), found: rhs.dim_spec() }),
            r matches Ok(t) ==> {
                &&& t.wf()
                &&& t.dim_spec() == self.dim_spec()
                &&& T::obeys_add_spec() ==> forall|i: int, j: int|
                    0 <= i < t.rows() && 0 <= j < t.cols() ==> #[trigger] t.at(i, j) == self.at(i, j).add_spec(rhs.at(i, j))
            },
    {
        proof {
            use_type_invariant(self);
            use_type_invariant(rhs);
        }
        proof {
            if self.dim_spec() == rhs.dim_spec() {
                assert forall|i: int, j: int| 0 <= i < self.rows() && 0 <= j < self.cols() implies #[trigger] self.matrix.at(i, j).add_req(rhs.matrix.at(i, j)) by {
                    assert(self.at(i, j).add_req(rhs.at(i, j)));
                }
            }
        }
        match self.matrix.add(&rhs.matrix) {
            Ok(matrix) => Ok(Tensor { dim: self.dim, matrix }),
            Err(e) => Err(e),
        }
    }
}

impl<T: Copy + Add<Output = T>> Tensor<T> {
    /// Adds `rhs` to every value.
    pub fn add_scalar(&self, rhs: T) -> (t: Tensor<T>)
        requires
            forall|i: int, j: int|
                0 <= i < self.rows() && 0 <= j < self.cols() ==> #[trigger] self.at(i, j).add_req(rhs),
        ensures
            t.wf(),
            t.dim_spec() == self.dim_spec(),
            T::obeys_add_spec() ==> forall|i: int, j: int|
                0 <= i < t.rows() && 0 <= j < t.cols() ==> #[trigger] t.at(i, j) == self.at(i, j).add_spec(rhs),
    {
        proof {
            use_type_invariant(self);
        }
        proof {
            assert forall|i: int, j: int| 0 <= i < self.rows() && 0 <= j < self.cols() implies #[trigger] self.matrix.at(i, j).add_req(rhs) by {
                assert(self.at(i, j).add_req(rhs));
            }
        }
        Tensor { dim: self.dim, matrix: self.matrix.add_scalar(rhs) }
    }
}

impl<T: Copy + Mul<Output = T>> Tensor<T> {
    /// Multiplies every value by `rhs`.
    pub fn mul_scalar(&self, rhs: T) -> (t: Tensor<T>)
        requires
            forall|i: int, j: int|
                0 <= i < self.rows() && 0 <= j < self.cols() ==> #[trigger] self.at(i, j).mul_req(rhs),
        ensures
            t.wf(),
            t.dim_spec() == self.dim_spec(),
            T::obeys_mul_spec() ==> forall|i: int, j: int|
                0 <= i < t.rows() && 0 <= j < t.cols() ==> #[trigger] t.at(i, j) == self.at(i, j).mul_spec(rhs),
    {
        proof {
            use_type_invariant(self);
        }
        proof {
            assert forall|i: int, j: int| 0 <= i < self.rows() && 0 <= j < self.cols() implies #[trigger] self.matrix.at(i, j).mul_req(rhs) by {
                assert(self.at(i, j).mul_req(rhs));
            }
        }
        Tensor { dim: self.dim, matrix: self.matrix.mul_scalar(rhs) }
    }
}

impl<T: Copy + Mul<Output = T>> Tensor<T> {
    /// Hadamard product: elementwise multiplication; the dimensions must be equal.
    pub fn product(&self, rhs: &Tensor<T>) -> (r: Result<Tensor<T>, TensorError>)
        requires
            self.dim_spec() == rhs.dim_spec() ==> forall|i: int, j: int|
                0 <= i < self.rows() && 0 <= j < self.cols() ==> #[trigger] self.at(i, j).mul_req(rhs.at(i, j)),
        ensures
            r is Ok <==> self.dim_spec() == rhs.dim_spec(),
            r matches Err(e) ==> e == (TensorError::ShapeMismatch { expected: self.dim_spec(), found: rhs.dim_spec() }),
            r matches Ok(t) ==> {
                &&& t.wf()
                &&& t.dim_spec() == self.dim_spec()
                &&& T::obeys_mul_spec() ==> forall|i: int, j: int|
                    0 <= i < t.rows() && 0 <= j < t.cols() ==> #[trigger] t.at(i, j) == self.at(i, j).mul_spec(rhs.at(i, j))
            },
    {
        proof {
            use_type_invariant(self);
            use_type_invariant(rhs);
        }
        proof {
            if self.dim_spec() == rhs.dim_spec() {
                assert forall|i: int, j: int| 0 <= i < self.rows() && 0 <= j < self.cols() implies #[trigger] self.matrix.at(i, j).mul_req(rhs.matrix.at(i, j)) by {
                    assert(self.at(i, j).mul_req(rhs.at(i, j)));
                }
            }
        }
        match self.matrix.product(&rhs.matrix) {
            Ok(matrix) => Ok(Tensor { dim: self.dim, matrix }),
            Err(e) => Err(e),
        }
    }
}

/// Entry `(i, j)` of the matrix product of `a` and `b`.
pub open spec fn dot_at<T: Add<Output = T> + Mul<Output = T>>(a: Tensor<T>, b: Tensor<T>, i: int, j: int) -> T {
    dot_prefix(a.values(), a.cols(), b.values(), b.cols(), i, j, a.cols())
}

/// The matrix product of `a` and `b` can be computed without an arithmetic
/// fault, and its size fits in memory.
pub open spec fn mul_safe<T: Add<Output = T> + Mul<Output = T>>(a: Tensor<T>, b: Tensor<T>) -> bool {
    &&& product_safe(a.values(), a.cols(), b.values(), b.cols(), a.rows())
    &&& a.cols() == 0 ==> a.rows() == 0 || b.cols() == 0
    &&& a.rows() * b.cols() <= usize::MAX
}

impl<T: Copy + Add<Output = T> + Mul<Output = T>> Tensor<T> {
    /// Matrix product; the columns of `self` must match the rows of `rhs`.
    pub fn mul(&self, rhs: &Tensor<T>) -> (r: Result<Tensor<T>, TensorError>)
        requires
            self.cols() == rhs.rows() ==> mul_safe(*self, *rhs),
        ensures
            r is Ok <==> self.cols() == rhs.rows(),
            r matches Err(e) ==> e == (TensorError::ShapeMismatch { expected: self.dim_spec(), found: rhs.dim_spec() }),
            r matches Ok(t) ==> {
                &&& t.wf()
                &&& t.dim_spec() == Vec2(self.dim_spec().0, rhs.dim_spec().1)
                &&& T::obeys_add_spec() && T::obeys_mul_spec() ==> forall|i: int, j: int|
                    0 <= i < t.rows() && 0 <= j < t.cols() ==> #[trigger] t.at(i, j) == dot_at(*self, *rhs, i, j)
            },
    {
        proof {
            use_type_invariant(self);
            use_type_invariant(rhs);
        }
        match self.matrix.mul(&rhs.matrix) {
            Ok(matrix) => Ok(Tensor { dim: Vec2(self.dim.0, rhs.dim.1), matrix }),
            Err(e) => Err(e),
        }
    }
}

} // verus!
