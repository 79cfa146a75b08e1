use vstd::prelude::*;
use vstd::std_specs::ops::{AddSpec, MulSpec};
use std::cmp::Ordering;
use std::ops::{Add, Mul};
use vstd::std_specs::cmp::PartialOrdSpec;

use crate::error::TensorError;
use crate::math::Vec2;
use crate::tensor::{dot_at, mul_safe, Tensor};

verus! {

/// The operations a compute node can apply to its children.
#[derive(Clone, Copy, Debug, PartialEq, Eq, Structural)]
pub enum Op {
    /// Matrix product of two children.
    Dot,
    /// Elementwise sum of two children; a one-row second child is added to
    /// every row of the first.
    Add,
    /// Smooth rectifier of one child.
    Relu,
    /// Logistic function of one child.
    Sigmoid,
    /// Row-wise softmax of one child; its gradient passes the incoming
    /// gradient through unchanged, which is right only when a combined
    /// softmax cross-entropy node follows it.
    Softmax,
    /// Cross-entropy of a softmax output (first child) against a target
    /// (second child).
    SoftmaxCrossEntropy,
}

/// How many children a node of `op` has.
pub open spec fn arity(op: Op) -> nat {
    match op {
        Op::Dot | Op::Add | Op::SoftmaxCrossEntropy => 2,
        _ => 1,
    }
}

/// The output dimensions of a node of `op` over children of dimensions
/// `dims`, or `None` when they do not fit together.
pub open spec fn calc_dim_spec(op: Op, dims: Seq<Vec2>) -> Option<Vec2> {
    if dims.len() != arity(op) {
        None
    } else {
        match op {
            Op::Dot => if dims[0].1 == dims[1].0 {
                Some(Vec2(dims[0].0, dims[1].1))
            } else {
                None
            },
            Op::Add => if dims[0].1 == dims[1].1 && (dims[0].0 == dims[1].0 || dims[1].0 == 1) {
                Some(dims[0])
            } else {
                None
            },
            Op::SoftmaxCrossEntropy => if dims[0] == dims[1] {
                Some(Vec2(1, 1))
            } else {
                None
            },
            _ => Some(dims[0]),
        }
    }
}

/// The output dimensions of a node of `op` over children of dimensions
/// `dims`; fails when they do not fit together.
pub fn calc_dim(op: Op, dims: &Vec<Vec2>) -> (r: Result<Vec2, TensorError>)
    ensures
        r is Ok <==> calc_dim_spec(op, dims@) is Some,
        r matches Ok(d) ==> calc_dim_spec(op, dims@) == Some(d),
        r matches Err(e) ==> if dims@.len() == arity(op) {
            e is ShapeMismatch
        } else {
            e == TensorError::WrongArity { needed: arity(op) as usize, given: dims@.len() as usize }
        },
{
    let n: usize = match op {
        Op::Dot | Op::Add | Op::SoftmaxCrossEntropy => 2,
        _ => 1,
    };
    if dims.len() != n {
        return Err(TensorError::WrongArity { needed: n, given: dims.len() });
    }
    match op {
        Op::Dot => {
            if dims[0].1 == dims[1].0 {
                Ok(Vec2(dims[0].0, dims[1].1))
            } else {
                Err(TensorError::ShapeMismatch { expected: dims[0], found: dims[1] })
            }
        },
        Op::Add => {
            if dims[0].1 == dims[1].1 && (dims[0].0 == dims[1].0 || dims[1].0 == 1) {
                Ok(dims[0])
            } else {
                Err(TensorError::ShapeMismatch { expected: dims[0], found: dims[1] })
            }
        },
        Op::SoftmaxCrossEntropy => {
            if dims[0].0 == dims[1].0 && dims[0].1 == dims[1].1 {
                Ok(Vec2(1, 1))
            } else {
                Err(TensorError::ShapeMismatch { expected: dims[0], found: dims[1] })
            }
        },
        _ => Ok(dims[0]),
    }
}

/// The operations the library leaves to the caller: the value and the
/// gradient of the floating-point activations and of the cost, and the
/// division that turns a column sum into a mean. Each is a function of its
/// arguments, named by a spec function: the same arguments give the same
/// result. The contracts of the library speak of what a kernel returns
/// through these names; an implementation that Verus does not check is
/// taken on trust to return what they name.
pub trait Kernel<T> {
    /// What `value` returns for `op` on `inputs`.
    closed spec fn value_spec(&self, op: Op, inputs: Seq<Tensor<T>>) -> Result<Tensor<T>, TensorError> {
        arbitrary()
    }

    /// What `gradient` returns for `op`, `gradient` and `inputs`.
    closed spec fn gradient_spec(&self, op: Op, gradient: Tensor<T>, inputs: Seq<Tensor<T>>) -> Result<Vec<Tensor<T>>, TensorError> {
        arbitrary()
    }

    /// What `mean` returns for `sum` and `count`.
    closed spec fn mean_spec(&self, sum: T, count: usize) -> T {
        arbitrary()
    }

    /// The value of `op` on the children's values `inputs`.
    fn value(&self, op: Op, inputs: &Vec<Tensor<T>>) -> (r: Result<Tensor<T>, TensorError>)
        ensures
            r == self.value_spec(op, inputs@),
    ;

    /// The gradients with respect to each child of `op`, given the gradient
    /// `gradient` with respect to its output and the children's values.
    fn gradient(&self, op: Op, gradient: &Tensor<T>, inputs: &Vec<Tensor<T>>) -> (r: Result<Vec<Tensor<T>>, TensorError>)
        ensures
            r == self.gradient_spec(op, *gradient, inputs@),
    ;

    /// `sum` divided by `count`.
    fn mean(&self, sum: T, count: usize) -> (r: T)
        ensures
            r == self.mean_spec(sum, count),
    ;
}

/// Whether adding `b` to `a` repeats `b`'s single row over every row of `a`.
pub open spec fn broadcasts<T>(a: Tensor<T>, b: Tensor<T>) -> bool {
    a.rows() != 1 && b.rows() == 1
}

/// The value of `b` that an `Add` node adds to `a` at `(i, j)`.
pub open spec fn addend_at<T>(a: Tensor<T>, b: Tensor<T>, i: int, j: int) -> T {
    if broadcasts(a, b) {
        b.at(0, j)
    } else {
        b.at(i, j)
    }
}

/// The value of an `Add` node at `(i, j)`.
pub open spec fn add_at<T: Add<Output = T>>(a: Tensor<T>, b: Tensor<T>, i: int, j: int) -> T {
    a.at(i, j).add_spec(addend_at(a, b, i, j))
}

/// Whether an `Add` node accepts values of these dimensions.
pub open spec fn add_fits<T>(a: Tensor<T>, b: Tensor<T>) -> bool {
    if broadcasts(a, b) {
        a.cols() == b.cols()
    } else {
        a.dim_spec() == b.dim_spec()
    }
}

/// Every sum an `Add` node computes is defined.
pub open spec fn add_safe<T: Add<Output = T>>(a: Tensor<T>, b: Tensor<T>) -> bool {
    forall|i: int, j: int|
        0 <= i < a.rows() && 0 <= j < a.cols() ==> #[trigger] a.at(i, j).add_req(addend_at(a, b, i, j))
}

/// The value of an `Add` node: the elementwise sum, where a one-row `b`
/// is added to every row of `a`.
pub fn add_value<T: Copy + Add<Output = T>>(a: &Tensor<T>, b: &Tensor<T>) -> (r: Result<Tensor<T>, TensorError>)
    requires
        add_fits(*a, *b) ==> add_safe(*a, *b),
    ensures
        r is Ok <==> add_fits(*a, *b),
        r matches Err(e) ==> e == (TensorError::ShapeMismatch { expected: a.dim_spec(), found: b.dim_spec() }),
        r matches Ok(t) ==> {
            &&& t.wf()
            &&& t.dim_spec() == a.dim_spec()
            &&& T::obeys_add_spec() ==> forall|i: int, j: int|
                0 <= i < t.rows() && 0 <= j < t.cols() ==> #[trigger] t.at(i, j) == add_at(*a, *b, i, j)
        },
{
    let Vec2(x1, y1) = a.dim();
    let Vec2(x2, y2) = b.dim();
    if x1 != 1 && x2 == 1 {
        if y1 != y2 {
            return Err(TensorError::ShapeMismatch { expected: a.dim(), found: b.dim() });
        }
        proof {
            a.lemma_size();
        }
        let n = x1 * y1;
        let mut buffer: Vec<T> = Vec::with_capacity(n);
        let mut k: usize = 0;
        while k < n
            invariant
                a.wf(),
                b.wf(),
                a.dim_spec() == Vec2(x1, y1),
                b.dim_spec() == Vec2(x2, y2),
                x1 != 1,
                x2 == 1,
                y1 == y2,
                n == x1 * y1,
                add_safe(*a, *b),
                k <= n,
                buffer@.len() == k,
                T::obeys_add_spec() ==> forall|k: int|
                    0 <= k < buffer@.len() ==> #[trigger] buffer@[k] == add_at(*a, *b, k / (y1 as int), k % (y1 as int)),
            decreases n - k,
        {
            proof {
                crate::math::lemma_flat_index(k as int, x1 as int, y1 as int);
            }
            let i = k / y1;
            let j = k % y1;
            let u = a.get(Vec2(i, j));
            let v = b.get(Vec2(0, j));
            proof {
                assert(a.at(i as int, j as int).add_req(addend_at(*a, *b, i as int, j as int)));
            }
            buffer.push(u + v);
            k = k + 1;
        }
        match Tensor::from_vec(a.dim(), buffer) {
            Ok(t) => {
                proof {
                    if T::obeys_add_spec() {
                        assert forall|i: int, j: int| 0 <= i < t.rows() && 0 <= j < t.cols() implies #[trigger] t.at(i, j) == add_at(*a, *b, i, j) by {
                            t.lemma_values_at(i, j);
                            crate::math::lemma_flat_index(i * y1 + j, x1 as int, y1 as int);
                            assert((i * y1 + j) / (y1 as int) == i && (i * y1 + j) % (y1 as int) == j) by (nonlinear_arith)
                                requires 0 <= i, 0 <= j < y1;
                        }
                    }
                }
                Ok(t)
            },
            Err(e) => Err(e),
        }
    } else {
        proof {
            if a.dim_spec() == b.dim_spec() {
                assert forall|i: int, j: int| 0 <= i < a.rows() && 0 <= j < a.cols() implies #[trigger] a.at(i, j).add_req(b.at(i, j)) by {
                    assert(a.at(i, j).add_req(addend_at(*a, *b, i, j)));
                }
            }
        }
        a.add(b)
    }
}

/// The value of a `Dot` node: the matrix product.
pub fn dot_value<T: Copy + Add<Output = T> + Mul<Output = T>>(a: &Tensor<T>, b: &Tensor<T>) -> (r: Result<Tensor<T>, TensorError>)
    requires
        a.cols() == b.rows() ==> mul_safe(*a, *b),
    ensures
        r is Ok <==> a.cols() == b.rows(),
        r matches Err(e) ==> e == (TensorError::ShapeMismatch { expected: a.dim_spec(), found: b.dim_spec() }),
        r matches Ok(t) ==> {
            &&& t.wf()
            &&& t.dim_spec() == Vec2(a.dim_spec().0, b.dim_spec().1)
            &&& T::obeys_add_spec() && T::obeys_mul_spec() ==> forall|i: int, j: int|
                0 <= i < t.rows() && 0 <= j < t.cols() ==> #[trigger] t.at(i, j) == dot_at(*a, *b, i, j)
        },
{
    a.mul(b)
}

/// `a` compares greater than `b`.
pub open spec fn greater<T: PartialOrd>(a: T, b: T) -> bool {
    a.partial_cmp_spec(&b) == Some(Ordering::Greater)
}

/// The column that a left-to-right scan of the first `n` values of row `i`
/// settles on: it starts at column 0 and moves to a column only when that
/// value is greater than the one it holds.
pub open spec fn row_argmax<T: PartialOrd>(t: Tensor<T>, i: int, n: nat) -> nat
    decreases n,
{
    if n <= 1 {
        0
    } else {
        let m = row_argmax(t, i, (n - 1) as nat);
        if greater(t.at(i, n - 1), t.at(i, m as int)) {
            (n - 1) as nat
        } else {
            m
        }
    }
}

/// The index of the largest value of each row, as a column: the first
/// such index when several values tie.
pub fn softmax_round<T: Copy + PartialOrd>(tensor: &Tensor<T>) -> (r: Tensor<usize>)
    ensures
        r.dim_spec() == Vec2(tensor.dim_spec().0, 1),
        T::obeys_partial_cmp_spec() ==> forall|i: int|
            0 <= i < tensor.rows() ==> #[trigger] r.at(i, 0) == row_argmax(*tensor, i, tensor.cols()),
{
    let Vec2(row, col) = tensor.dim();
    let mut rounded: Vec<usize> = Vec::with_capacity(row);
    let mut i: usize = 0;
    while i < row
        invariant
            tensor.dim_spec() == Vec2(row, col),
            i <= row,
            rounded@.len() == i,
            T::obeys_partial_cmp_spec() ==> forall|k: int| 0 <= k < i ==> #[trigger] rounded@[k] == row_argmax(*tensor, k, col as nat),
        decreases row - i,
    {
        let mut index: usize = 0;
        if col > 0 {
            let mut m = tensor.get(Vec2(i, 0));
            let mut j: usize = 1;
            while j < col
                invariant
                    tensor.dim_spec() == Vec2(row, col),
                    i < row,
                    1 <= j <= col,
                    index < j,
                    m == tensor.at(i as int, index as int),
                    T::obeys_partial_cmp_spec() ==> index == row_argmax(*tensor, i as int, j as nat),
                decreases col - j,
            {
                let k = tensor.get(Vec2(i, j));
                if k > m {
                    index = j;
                    m = k;
                }
                j = j + 1;
            }
        }
        rounded.push(index);
        i = i + 1;
    }
    let ghost column = rounded@;
    match Tensor::from_vec(Vec2(row, 1), rounded) {
        Ok(r) => {
            proof {
                if T::obeys_partial_cmp_spec() {
                    assert forall|i: int| 0 <= i < tensor.rows() implies #[trigger] r.at(i, 0) == row_argmax(*tensor, i, tensor.cols()) by {
                        r.lemma_values_at(i, 0);
                        assert(r.cols() == 1);
                        assert(i * r.cols() + 0 == i);
                        assert(column[i] == row_argmax(*tensor, i, col as nat));
                    }
                }
            }
            r
        },
        Err(_) => vstd::pervasive::unreached(),
    }
}

/// For integer values the scan settles on the first column that holds the
/// row's largest value.
pub proof fn lemma_row_argmax_first_max(t: Tensor<i64>, i: int, n: nat)
    requires
        n >= 1,
    ensures
        row_argmax(t, i, n) < n,
        forall|j: int| 0 <= j < n ==> #[trigger] t.at(i, j) <= t.at(i, row_argmax(t, i, n) as int),
        forall|j: int| 0 <= j < row_argmax(t, i, n) ==> #[trigger] t.at(i, j) < t.at(i, row_argmax(t, i, n) as int),
    decreases n,
{
    if n > 1 {
        lemma_row_argmax_first_max(t, i, (n - 1) as nat);
    }
}

} // verus!
