use vstd::prelude::*;
use vstd::std_specs::ops::{AddSpec, MulSpec};
use std::ops::{Add, Mul};

use crate::context::Context;
use crate::error::TensorError;
use crate::eval::{
    add_grid, add_grid_safe, children_ok, dot_grid, dot_grid_safe, step_err, step_ok, below, recorded, lemma_post_same, lemma_below_range, eval_safe, forward_post, grid_of,
    lemma_small_index, lib_only, run_safe,
};
use crate::math::{arith_total, Vec2};
use crate::node::{graph_wf, Graph, Vertex};
use crate::op::{add_value, arity, dot_value, Kernel, Op};
use crate::tensor::Tensor;

verus! {

/// The value of a `Dot` node, stated over grids.
fn dot_node<T: Copy + Add<Output = T> + Mul<Output = T>>(a: &Tensor<T>, b: &Tensor<T>) -> (r: Result<Tensor<T>, TensorError>)
    requires
        arith_total::<T>() || (T::obeys_add_spec() && T::obeys_mul_spec() && dot_grid_safe(grid_of(*a), grid_of(*b))),
    ensures
        r is Ok <==> dot_grid(grid_of(*a), grid_of(*b)) is Some,
        r matches Err(e) ==> e is ShapeMismatch,
        r matches Ok(t) ==> {
            &&& t.dim_spec() == dot_grid(grid_of(*a), grid_of(*b))->Some_0.0
            &&& T::obeys_add_spec() && T::obeys_mul_spec() ==> t.values() == dot_grid(grid_of(*a), grid_of(*b))->Some_0.1
        },
{
    let ad = a.dim();
    let bd = b.dim();
    if ad.1 == bd.0 {
        if ad.1 == 0 && ad.0 != 0 && bd.1 != 0 {
            return Err(TensorError::ShapeMismatch { expected: ad, found: bd });
        }
        if ad.0.checked_mul(bd.1).is_none() {
            return Err(TensorError::ShapeMismatch { expected: ad, found: bd });
        }
    }
    let r = dot_value(a, b);
    proof {
        if r is Ok {
            let t = r->Ok_0;
            let g = dot_grid(grid_of(*a), grid_of(*b))->Some_0;
            t.lemma_size();
            if T::obeys_add_spec() && T::obeys_mul_spec() {
                assert forall|k: int| 0 <= k < t.values().len() implies t.values()[k] == g.1[k] by {
                    t.lemma_values_index(k);
                    crate::math::lemma_flat_index(k, t.rows() as int, t.cols() as int);
                }
                assert(t.values() =~= g.1);
            }
        }
    }
    r
}

/// The value of an `Add` node, stated over grids.
fn add_node<T: Copy + Add<Output = T>>(a: &Tensor<T>, b: &Tensor<T>) -> (r: Result<Tensor<T>, TensorError>)
    requires
        (forall|x: T, y: T| #[trigger] x.add_req(y)) || (T::obeys_add_spec() && add_grid_safe(grid_of(*a), grid_of(*b))),
    ensures
        r is Ok <==> add_grid(grid_of(*a), grid_of(*b)) is Some,
        r matches Err(e) ==> e is ShapeMismatch,
        r matches Ok(t) ==> {
            &&& t.dim_spec() == add_grid(grid_of(*a), grid_of(*b))->Some_0.0
            &&& T::obeys_add_spec() ==> t.values() == add_grid(grid_of(*a), grid_of(*b))->Some_0.1
        },
{
    let ad = a.dim();
    let bd = b.dim();
    proof {
        a.lemma_size();
        b.lemma_size();
        if crate::op::add_fits(*a, *b) && !(forall|x: T, y: T| #[trigger] x.add_req(y)) {
            let c = a.cols() as int;
            assert forall|i: int, j: int| 0 <= i < a.rows() && 0 <= j < a.cols() implies #[trigger] a.at(i, j).add_req(crate::op::addend_at(*a, *b, i, j)) by {
                a.lemma_values_at(i, j);
                let k = i * c + j;
                assert(k % c == j) by (nonlinear_arith) requires k == i * c + j, 0 <= j < c, 0 <= i;
                if crate::op::broadcasts(*a, *b) {
                    b.lemma_values_at(0, j);
                    assert(a.values()[k].add_req(b.values()[k % c]));
                } else {
                    b.lemma_values_at(i, j);
                    assert(a.values()[k].add_req(b.values()[k]));
                }
            }
        }
    }
    let r = add_value(a, b);
    proof {
        if r is Ok {
            let t = r->Ok_0;
            let g = add_grid(grid_of(*a), grid_of(*b))->Some_0;
            t.lemma_size();
            if T::obeys_add_spec() {
                let c = a.cols() as int;
                assert forall|k: int| 0 <= k < t.values().len() implies t.values()[k] == g.1[k] by {
                    t.lemma_values_index(k);
                    a.lemma_values_index(k);
                    crate::math::lemma_flat_index(k, t.rows() as int, t.cols() as int);
                    if crate::op::broadcasts(*a, *b) {
                        lemma_small_index(k % c, c);
                        b.lemma_values_index(k % c);
                    } else {
                        b.lemma_values_index(k);
                    }
                }
                assert(t.values() =~= g.1);
            }
        }
    }
    r
}

impl Graph {
    /// Evaluates vertex `n` from the state and variable contexts, computing
    /// the whole sub-graph below it again on every call; the contexts are
    /// not changed. A kernel computes the operations that the library
    /// leaves to it.
    pub fn run<T: Copy + Add<Output = T> + Mul<Output = T>, K: Kernel<T>>(
        &self,
        n: usize,
        state: &Context<T>,
        variable: &Context<T>,
        kernel: &K,
    ) -> (r: Result<Tensor<T>, TensorError>)
        requires
            self.wf(),
            n < self@.len(),
            state.wf(),
            variable.wf(),
            run_safe(self@, n as int, state@, variable@),
        ensures
            forward_post(self@, n as int, state@, variable@, *kernel, r),
    {
        let mut scratch: Context<T> = Context::new();
        self.forward_value(n, state, variable, &mut scratch, kernel)
    }

    /// Evaluates vertex `n` as `run` does, and records the value of every
    /// vertex it evaluates in `history`, under the vertex's id, for a
    /// backward pass to read.
    pub fn forward_pass<T: Copy + Add<Output = T> + Mul<Output = T>, K: Kernel<T>>(
        &self,
        n: usize,
        state: &Context<T>,
        variable: &Context<T>,
        history: &mut Context<T>,
        kernel: &K,
    ) -> (r: Result<Tensor<T>, TensorError>)
        requires
            self.wf(),
            n < self@.len(),
            state.wf(),
            variable.wf(),
            old(history).wf(),
            run_safe(self@, n as int, state@, variable@),
        ensures
            forward_post(self@, n as int, state@, variable@, *kernel, r),
            final(history).wf(),
            r matches Ok(t) ==> final(history)@.contains_key(self@[n as int].id_spec())
                && final(history)@[self@[n as int].id_spec()].same(&t),
            forall|m: int|
                #![trigger recorded(self@, state@, variable@, *kernel, old(history)@, m)]
                0 <= m < self@.len() && recorded(self@, state@, variable@, *kernel, old(history)@, m) ==> recorded(
                    self@,
                    state@,
                    variable@,
                    *kernel,
                    final(history)@,
                    m,
                ),
            r is Ok ==> forall|m: int| #[trigger] below(self@, n as int, m) ==> recorded(self@, state@, variable@, *kernel, final(history)@, m),
        decreases n, 1nat,
    {
        let r = self.forward_value(n, state, variable, history, kernel);
        match r {
            Ok(t) => {
                let id = self.get_id(n);
                let copy = t.duplicate();
                let ghost before = history@;
                history.set(id, copy);
                proof {
                    lemma_post_same(self@, n as int, state@, variable@, *kernel, t, copy);
                    self.lemma_record(n as int, state@, variable@, *kernel, before, history@, copy);
                    assert forall|m: int| #[trigger] below(self@, n as int, m) implies recorded(self@, state@, variable@, *kernel, history@, m) by {
                        lemma_below_range(self@, n as int, m);
                        if m != n {
                            assert(recorded(self@, state@, variable@, *kernel, before, m));
                        }
                    }
                }
                Ok(t)
            },
            Err(e) => Err(e),
        }
    }

    /// Binding a forward result of vertex `n` keeps every vertex recorded.
    proof fn lemma_record<T: Add<Output = T> + Mul<Output = T>, K: Kernel<T>>(
        &self,
        n: int,
        s: Map<Seq<char>, Tensor<T>>,
        v: Map<Seq<char>, Tensor<T>>,
        kernel: K,
        before: Map<Seq<char>, Tensor<T>>,
        after: Map<Seq<char>, Tensor<T>>,
        c: Tensor<T>,
    )
        requires
            self.wf(),
            0 <= n < self@.len(),
            after == before.insert(self@[n].id_spec(), c),
            forward_post(self@, n, s, v, kernel, Ok(c)),
        ensures
            recorded(self@, s, v, kernel, after, n),
            forall|m: int|
                #![trigger recorded(self@, s, v, kernel, before, m)]
                0 <= m < self@.len() && recorded(self@, s, v, kernel, before, m) ==> recorded(self@, s, v, kernel, after, m),
    {
        assert forall|m: int|
            0 <= m < self@.len() && recorded(self@, s, v, kernel, before, m) implies #[trigger] recorded(self@, s, v, kernel, after, m) by {
            if m != n {
                if m < n {
                    assert(self@[m].id_spec() != self@[n].id_spec());
                } else {
                    assert(self@[n].id_spec() != self@[m].id_spec());
                }
            }
        }
    }

    fn forward_value<T: Copy + Add<Output = T> + Mul<Output = T>, K: Kernel<T>>(
        &self,
        n: usize,
        state: &Context<T>,
        variable: &Context<T>,
        history: &mut Context<T>,
        kernel: &K,
    ) -> (r: Result<Tensor<T>, TensorError>)
        requires
            self.wf(),
            n < self@.len(),
            state.wf(),
            variable.wf(),
            old(history).wf(),
            run_safe(self@, n as int, state@, variable@),
        ensures
            forward_post(self@, n as int, state@, variable@, *kernel, r),
            final(history).wf(),
            forall|m: int|
                #![trigger recorded(self@, state@, variable@, *kernel, old(history)@, m)]
                0 <= m < self@.len() && recorded(self@, state@, variable@, *kernel, old(history)@, m) ==> recorded(
                    self@,
                    state@,
                    variable@,
                    *kernel,
                    final(history)@,
                    m,
                ),
            r is Ok ==> forall|m: int|
                #[trigger] below(self@, n as int, m) && m != n ==> recorded(self@, state@, variable@, *kernel, final(history)@, m),
        decreases n, 0nat,
    {
        let ghost vs = self@;
        match self.vertex(n) {
            Vertex::Variable(x) => {
                let id = x.get_id();
                match variable.get(&id) {
                    Some(t) => Ok(t.duplicate()),
                    None => Err(TensorError::MissingBinding(id)),
                }
            },
            Vertex::State(x) => {
                let id = x.get_id();
                match state.get(&id) {
                    Some(t) => Ok(t.duplicate()),
                    None => Err(TensorError::MissingBinding(id)),
                }
            },
            Vertex::Compute(node) => {
                let ghost ps = node.param_spec();
                let ghost op = node.op_spec();
                proof {
                    assert(graph_wf(vs));
                    assert(vs[n as int] == Vertex::Compute(*node));
                }
                let count = node.param_count();
                let mut inputs: Vec<Tensor<T>> = Vec::with_capacity(count);
                let mut k: usize = 0;
                while k < count
                    invariant
                        self.wf(),
                        vs == self@,
                        n < vs.len(),
                        vs[n as int] == Vertex::Compute(*node),
                        ps == node.param_spec(),
                        op == node.op_spec(),
                        count == ps.len(),
                        ps.len() == crate::op::arity(op),
                        forall|j: int| 0 <= j < ps.len() ==> #[trigger] ps[j] < n,
                        state.wf(),
                        variable.wf(),
                        history.wf(),
                        run_safe(vs, n as int, state@, variable@),
                        k <= count,
                        inputs@.len() == k,
                        forall|j: int| 0 <= j < k ==> forward_post(vs, ps[j] as int, state@, variable@, *kernel, Ok(#[trigger] inputs@[j])),
                        forall|m: int|
                            #![trigger recorded(vs, state@, variable@, *kernel, old(history)@, m)]
                            0 <= m < vs.len() && recorded(vs, state@, variable@, *kernel, old(history)@, m) ==> recorded(
                                vs,
                                state@,
                                variable@,
                                *kernel,
                                history@,
                                m,
                            ),
                        forall|j: int, m: int|
                            0 <= j < k && #[trigger] below(vs, ps[j] as int, m) ==> recorded(vs, state@, variable@, *kernel, history@, m),
                    decreases count - k,
                {
                    let p = node.param(k);
                    proof {
                        assert(ps[k as int] < n);
                        if !arith_total::<T>() {
                            if op == Op::Dot || op == Op::Add {
                                assert(p == ps[0] || p == ps[1]);
                            } else {
                                assert(eval_safe(vs, ps[k as int] as int, state@, variable@));
                            }
                        }
                    }
                    let ghost before = history@;
                    let step = self.forward_pass(p, state, variable, history, kernel);
                    proof {
                        if step is Ok {
                            assert forall|j: int, m: int|
                                0 <= j < k + 1 && #[trigger] below(vs, ps[j] as int, m) implies recorded(vs, state@, variable@, *kernel, history@, m) by {
                                lemma_below_range(vs, ps[j] as int, m);
                                if j < k {
                                    assert(recorded(vs, state@, variable@, *kernel, before, m));
                                }
                            }
                        }
                    }
                    match step {
                        Ok(t) => inputs.push(t),
                        Err(e) => {
                            proof {
                                assert(forward_post(vs, ps[k as int] as int, state@, variable@, *kernel, Err(e)));
                                assert(k == 0 || k == 1);
                                if k == 0 {
                                    assert(1 <= ps.len() && ps[0] < n && forward_post(vs, ps[0] as int, state@, variable@, *kernel, Err(e)));
                                } else {
                                    assert(2 <= ps.len() && ps[1] < n && forward_post(vs, ps[1] as int, state@, variable@, *kernel, Err(e)));
                                }
                                if lib_only(vs, n as int) {
                                    assert(p == ps[0] || p == ps[1]);
                                }
                            }
                            return Err(e);
                        },
                    }
                    k = k + 1;
                }
                proof {
                    assert(children_ok(vs, n as int, ps, state@, variable@, *kernel, inputs@));
                }
                let r = match node.get_op() {
                    Op::Dot => {
                        proof {
                            assert(forward_post(vs, ps[0] as int, state@, variable@, *kernel, Ok(inputs@[0])));
                            assert(forward_post(vs, ps[1] as int, state@, variable@, *kernel, Ok(inputs@[1])));
                        }
                        dot_node(&inputs[0], &inputs[1])
                    },
                    Op::Add => {
                        proof {
                            assert(forward_post(vs, ps[0] as int, state@, variable@, *kernel, Ok(inputs@[0])));
                            assert(forward_post(vs, ps[1] as int, state@, variable@, *kernel, Ok(inputs@[1])));
                        }
                        add_node(&inputs[0], &inputs[1])
                    },
                    op => kernel.value(op, &inputs),
                };
                proof {
                    assert forall|m: int| #[trigger] below(vs, n as int, m) && m != n implies recorded(vs, state@, variable@, *kernel, history@, m) by {
                        if ps.len() >= 1 && ps[0] < n && below(vs, ps[0] as int, m) {
                            assert(below(vs, ps[0] as int, m));
                        } else {
                            assert(below(vs, ps[1] as int, m));
                        }
                    }
                    let ins = inputs@;
                    let nd = vs[n as int]->Compute_0;
                    assert(children_ok(vs, n as int, nd.param_spec(), state@, variable@, *kernel, ins));
                    if r is Ok {
                        assert(step_ok(nd.op_spec(), ins, *kernel, r->Ok_0));
                    } else {
                        assert(step_err(nd.op_spec(), ins, *kernel, r->Err_0));
                    }
                }
                r
            },
        }
    }
}

/// Applying a learning step to a trainable value cannot fault: the
/// arithmetic is total, or it follows its specification and every product
/// `g(i, j) * rate` and every sum `h(i, j) + g(i, j) * rate` stays in range.
pub open spec fn update_safe<T: Add<Output = T> + Mul<Output = T>>(h: Tensor<T>, g: Tensor<T>, rate: T) -> bool {
    ||| arith_total::<T>()
    ||| {
        &&& T::obeys_add_spec()
        &&& T::obeys_mul_spec()
        &&& forall|i: int, j: int| 0 <= i < g.rows() && 0 <= j < g.cols() ==> #[trigger] g.at(i, j).mul_req(rate)
        &&& h.dim_spec() == g.dim_spec() ==> forall|i: int, j: int|
            0 <= i < h.rows() && 0 <= j < h.cols() ==> #[trigger] h.at(i, j).add_req(g.at(i, j).mul_spec(rate))
    }
}

/// `k` is the id of a state vertex.
pub open spec fn is_state_id(vs: Seq<Vertex>, k: Seq<char>) -> bool {
    exists|m: int| 0 <= m < vs.len() && #[trigger] vs[m] is State && vs[m].id_spec() == k
}

/// `after` differs from `before` only in entries bound to ids of state
/// vertices.
pub open spec fn only_states_changed<T>(vs: Seq<Vertex>, before: Map<Seq<char>, Tensor<T>>, after: Map<Seq<char>, Tensor<T>>) -> bool {
    forall|k: Seq<char>|
        #![trigger after.contains_key(k)]
        #![trigger before.contains_key(k)]
        !is_state_id(vs, k) ==> {
            &&& after.contains_key(k) == before.contains_key(k)
            &&& before.contains_key(k) ==> after[k] == before[k]
        }
}

proof fn lemma_changed_trans<T>(
    vs: Seq<Vertex>,
    a: Map<Seq<char>, Tensor<T>>,
    b: Map<Seq<char>, Tensor<T>>,
    c: Map<Seq<char>, Tensor<T>>,
)
    requires
        only_states_changed(vs, a, b),
        only_states_changed(vs, b, c),
    ensures
        only_states_changed(vs, a, c),
{
    assert forall|k: Seq<char>| !is_state_id(vs, k) implies {
        &&& #[trigger] c.contains_key(k) == a.contains_key(k)
        &&& a.contains_key(k) ==> c[k] == a[k]
    } by {
        assert(b.contains_key(k) == a.contains_key(k));
    }
}

/// `after` is `before` with `id` bound to the value `h` it held plus the
/// gradient `g` scaled by `rate`.
pub open spec fn updated<T: Add<Output = T> + Mul<Output = T>>(
    before: Map<Seq<char>, Tensor<T>>,
    after: Map<Seq<char>, Tensor<T>>,
    id: Seq<char>,
    h: Tensor<T>,
    g: Tensor<T>,
    rate: T,
) -> bool {
    &&& after.contains_key(id)
    &&& after == before.insert(id, after[id])
    &&& after[id].dim_spec() == h.dim_spec()
    &&& T::obeys_add_spec() && T::obeys_mul_spec() ==> forall|i: int, j: int|
        0 <= i < h.rows() && 0 <= j < h.cols() ==> #[trigger] after[id].at(i, j) == h.at(i, j).add_spec(
            g.at(i, j).mul_spec(rate),
        )
}

/// The sum of the first `n` values of column `j` of `t`, from the top
/// row down.
pub open spec fn col_sum<T: Add<Output = T>>(t: Tensor<T>, j: int, n: nat) -> T
    decreases n,
{
    if n <= 1 {
        t.at(0, j)
    } else {
        col_sum(t, j, (n - 1) as nat).add_spec(t.at(n - 1, j))
    }
}

/// The column-wise mean of `gradient` over its rows, as a one-row tensor:
/// each column's sum handed to the kernel's `mean` with the row count;
/// fails on a gradient without rows.
fn column_mean<T: Copy + Add<Output = T> + Mul<Output = T>, K: Kernel<T>>(gradient: &Tensor<T>, kernel: &K) -> (r: Result<Tensor<T>, TensorError>)
    requires
        arith_total::<T>(),
    ensures
        r is Ok <==> gradient.rows() > 0,
        r matches Ok(t) ==> {
            &&& t.wf()
            &&& t.dim_spec() == Vec2(1, gradient.dim_spec().1)
            &&& T::obeys_add_spec() ==> forall|j: int|
                0 <= j < t.cols() ==> #[trigger] t.at(0, j) == kernel.mean_spec(
                    col_sum(*gradient, j, gradient.rows()),
                    gradient.dim_spec().0,
                )
        },
{
    let Vec2(rows, cols) = gradient.dim();
    if rows == 0 {
        return Err(TensorError::ShapeMismatch { expected: Vec2(1, cols), found: Vec2(rows, cols) });
    }
    let mut buf: Vec<T> = Vec::with_capacity(cols);
    let mut j: usize = 0;
    while j < cols
        invariant
            arith_total::<T>(),
            gradient.dim_spec() == Vec2(rows, cols),
            rows > 0,
            j <= cols,
            buf@.len() == j,
            T::obeys_add_spec() ==> forall|c: int|
                0 <= c < j ==> #[trigger] buf@[c] == kernel.mean_spec(col_sum(*gradient, c, rows as nat), rows),
        decreases cols - j,
    {
        let mut sum = gradient.get(Vec2(0, j));
        let mut i: usize = 1;
        while i < rows
            invariant
                arith_total::<T>(),
                gradient.dim_spec() == Vec2(rows, cols),
                1 <= i <= rows,
                j < cols,
                T::obeys_add_spec() ==> sum == col_sum(*gradient, j as int, i as nat),
            decreases rows - i,
        {
            sum = sum + gradient.get(Vec2(i, j));
            i = i + 1;
        }
        buf.push(kernel.mean(sum, rows));
        j = j + 1;
    }
    let ghost means = buf@;
    let one = Vec2(1, cols);
    assert(means.len() == one.0 * one.1);
    match Tensor::from_vec(one, buf) {
        Ok(t) => {
            proof {
                if T::obeys_add_spec() {
                    assert forall|j: int| 0 <= j < t.cols() implies #[trigger] t.at(0, j) == kernel.mean_spec(
                        col_sum(*gradient, j, gradient.rows()),
                        gradient.dim_spec().0,
                    ) by {
                        t.lemma_values_at(0, j);
                        assert(0 * t.cols() + j == j);
                        assert(means[j] == kernel.mean_spec(col_sum(*gradient, j, rows as nat), rows));
                    }
                }
            }
            Ok(t)
        },
        Err(_) => vstd::pervasive::unreached(),
    }
}

/// The grid of the transpose of `t`.
pub open spec fn transpose_grid<T>(t: Tensor<T>) -> (Vec2, Seq<T>) {
    (
        Vec2(t.dim_spec().1, t.dim_spec().0),
        Seq::new(t.cols() * t.rows(), |k: int| t.at(k % (t.rows() as int), k / (t.rows() as int))),
    )
}

fn transpose_of<T: Copy>(t: &Tensor<T>) -> (r: Tensor<T>)
    ensures
        grid_of(r) == transpose_grid(*t),
{
    let r = t.transpose();
    proof {
        r.lemma_size();
        t.lemma_size();
        assert(r.values().len() == t.cols() * t.rows());
        assert forall|k: int| 0 <= k < r.values().len() implies r.values()[k] == transpose_grid(*t).1[k] by {
            r.lemma_values_index(k);
            crate::math::lemma_flat_index(k, r.rows() as int, r.cols() as int);
        }
        assert(r.values() =~= transpose_grid(*t).1);
    }
    r
}

/// The gradients with respect to the children of a node of `op`, given the
/// gradient with respect to its output and the children's memoised values.
pub fn op_gradient<T: Copy + Add<Output = T> + Mul<Output = T>, K: Kernel<T>>(
    op: Op,
    gradient: &Tensor<T>,
    inputs: &Vec<Tensor<T>>,
    kernel: &K,
) -> (r: Result<Vec<Tensor<T>>, TensorError>)
    requires
        arith_total::<T>(),
        inputs@.len() == arity(op),
    ensures
        r matches Ok(gs) ==> gs@.len() == inputs@.len(),
        op == Op::Softmax ==> (r matches Ok(gs) && gs@[0].same(gradient)),
        op == Op::Relu || op == Op::Sigmoid || op == Op::SoftmaxCrossEntropy ==> match kernel.gradient_spec(op, *gradient, inputs@) {
            Ok(gs) => if gs@.len() == inputs@.len() {
                r == Ok::<Vec<Tensor<T>>, TensorError>(gs)
            } else {
                r == Err::<Vec<Tensor<T>>, TensorError>(TensorError::WrongArity { needed: inputs@.len() as usize, given: gs@.len() as usize })
            },
            Err(e) => r == Err::<Vec<Tensor<T>>, TensorError>(e),
        },
        op == Op::Add && !crate::op::broadcasts(inputs@[0], inputs@[1]) ==> (r matches Ok(gs) && gs@[0].same(gradient)
            && gs@[1].same(gradient)),
        op == Op::Add && crate::op::broadcasts(inputs@[0], inputs@[1]) ==> {
            &&& r is Ok <==> gradient.rows() > 0
            &&& r matches Ok(gs) ==> {
                &&& gs@[0].same(gradient)
                &&& gs@[1].dim_spec() == Vec2(1, gradient.dim_spec().1)
                &&& T::obeys_add_spec() ==> forall|j: int|
                    0 <= j < gs@[1].cols() ==> #[trigger] gs@[1].at(0, j) == kernel.mean_spec(
                        col_sum(*gradient, j, gradient.rows()),
                        gradient.dim_spec().0,
                    )
            }
        },
        op == Op::Dot ==> {
            &&& r is Ok <==> dot_grid(grid_of(*gradient), transpose_grid(inputs@[1])) is Some && dot_grid(
                transpose_grid(inputs@[0]),
                grid_of(*gradient),
            ) is Some
            &&& r matches Ok(gs) ==> {
                &&& gs@[0].dim_spec() == Vec2(gradient.dim_spec().0, inputs@[1].dim_spec().0)
                &&& gs@[1].dim_spec() == Vec2(inputs@[0].dim_spec().1, gradient.dim_spec().1)
                &&& T::obeys_add_spec() && T::obeys_mul_spec() ==> {
                    &&& Some(grid_of(gs@[0])) == dot_grid(grid_of(*gradient), transpose_grid(inputs@[1]))
                    &&& Some(grid_of(gs@[1])) == dot_grid(transpose_grid(inputs@[0]), grid_of(*gradient))
                }
            }
        },
{
    match op {
        Op::Dot => {
            let bt = transpose_of(&inputs[1]);
            let at = transpose_of(&inputs[0]);
            let da = match dot_node(gradient, &bt) {
                Ok(t) => t,
                Err(e) => return Err(e),
            };
            let db = match dot_node(&at, gradient) {
                Ok(t) => t,
                Err(e) => return Err(e),
            };
            Ok(vec![da, db])
        },
        Op::Add => {
            let ad = inputs[0].dim();
            let bd = inputs[1].dim();
            if ad.0 != 1 && bd.0 == 1 {
                match column_mean(gradient, kernel) {
                    Ok(db) => Ok(vec![gradient.duplicate(), db]),
                    Err(e) => Err(e),
                }
            } else {
                Ok(vec![gradient.duplicate(), gradient.duplicate()])
            }
        },
        Op::Softmax => Ok(vec![gradient.duplicate()]),
        _ => {
            match kernel.gradient(op, gradient, inputs) {
                Ok(gs) => {
                    if gs.len() != inputs.len() {
                        return Err(TensorError::WrongArity { needed: inputs.len(), given: gs.len() });
                    }
                    Ok(gs)
                },
                Err(e) => Err(e),
            }
        },
    }
}

/// The id of the first of the children `ps` whose value `history` lacks.
pub open spec fn first_missing_child<T>(vs: Seq<Vertex>, ps: Seq<usize>, history: Map<Seq<char>, Tensor<T>>) -> Option<Seq<char>> {
    if ps.len() >= 1 && !history.contains_key(vs[ps[0] as int].id_spec()) {
        Some(vs[ps[0] as int].id_spec())
    } else if ps.len() >= 2 && !history.contains_key(vs[ps[1] as int].id_spec()) {
        Some(vs[ps[1] as int].id_spec())
    } else {
        None
    }
}

/// `p` is a child of vertex `m`.
pub open spec fn is_child(vs: Seq<Vertex>, m: int, p: int) -> bool {
    vs[m] matches Vertex::Compute(node) && {
        ||| node.param_spec().len() >= 1 && p == node.param_spec()[0]
        ||| node.param_spec().len() >= 2 && p == node.param_spec()[1]
    }
}

/// `t` is `h` plus the gradient `g` scaled by `rate`.
pub open spec fn stepped<T: Add<Output = T> + Mul<Output = T>>(h: Tensor<T>, t: Tensor<T>, g: Tensor<T>, rate: T) -> bool {
    &&& t.dim_spec() == h.dim_spec()
    &&& g.dim_spec() == h.dim_spec()
    &&& T::obeys_add_spec() && T::obeys_mul_spec() ==> forall|i: int, j: int|
        0 <= i < h.rows() && 0 <= j < h.cols() ==> #[trigger] t.at(i, j) == h.at(i, j).add_spec(g.at(i, j).mul_spec(rate))
}

/// Between `before` and `after`, each state vertex keeps its binding or,
/// when it lies below `root` (and at or after vertex `low`), takes one
/// step: its value plus some gradient scaled by `rate`.
pub open spec fn state_steps<T: Add<Output = T> + Mul<Output = T>>(
    vs: Seq<Vertex>,
    root: int,
    low: int,
    before: Map<Seq<char>, Tensor<T>>,
    after: Map<Seq<char>, Tensor<T>>,
    rate: T,
) -> bool {
    forall|q: int|
        0 <= q < vs.len() && (#[trigger] vs[q]) is State ==> {
            &&& after.contains_key(vs[q].id_spec()) == before.contains_key(vs[q].id_spec())
            &&& before.contains_key(vs[q].id_spec()) ==> {
                ||| after[vs[q].id_spec()] == before[vs[q].id_spec()]
                ||| low <= q && below(vs, root, q) && exists|g: Tensor<T>|
                    #[trigger] stepped(before[vs[q].id_spec()], after[vs[q].id_spec()], g, rate)
            }
        }
}

proof fn lemma_below_child(vs: Seq<Vertex>, r: int, m: int, p: int)
    requires
        graph_wf(vs),
        below(vs, r, m),
        is_child(vs, m, p),
    ensures
        below(vs, r, p),
    decreases r,
{
    crate::eval::lemma_below_range(vs, r, m);
    if r == m {
        if let Vertex::Compute(node) = vs[m] {
            assert(node.param_spec()[0] < m);
            if node.param_spec().len() >= 2 {
                assert(node.param_spec()[1] < m);
            }
            assert(below(vs, p, p));
        }
    } else {
        if let Vertex::Compute(node) = vs[r] {
            let ps = node.param_spec();
            if ps.len() >= 1 && ps[0] < r && below(vs, ps[0] as int, m) {
                lemma_below_child(vs, ps[0] as int, m, p);
            } else {
                lemma_below_child(vs, ps[1] as int, m, p);
            }
        }
    }
}

proof fn lemma_steps_weaken<T: Add<Output = T> + Mul<Output = T>>(
    vs: Seq<Vertex>,
    root: int,
    low: int,
    lower: int,
    before: Map<Seq<char>, Tensor<T>>,
    after: Map<Seq<char>, Tensor<T>>,
    rate: T,
)
    requires
        lower <= low,
        state_steps(vs, root, low, before, after, rate),
    ensures
        state_steps(vs, root, lower, before, after, rate),
{
}

/// Adds `g` to the gradient gathered so far for vertex `p`.
fn accumulate<T: Copy + Add<Output = T> + Mul<Output = T>>(grads: &mut Vec<Option<Tensor<T>>>, p: usize, g: Tensor<T>) -> (r: Result<(), TensorError>)
    requires
        arith_total::<T>(),
        p < old(grads)@.len(),
    ensures
        final(grads)@.len() == old(grads)@.len(),
        forall|j: int| 0 <= j < old(grads)@.len() && j != p ==> #[trigger] final(grads)@[j] == old(grads)@[j],
{
    let sum = match &grads[p] {
        Some(before) => match before.add(&g) {
            Ok(t) => t,
            Err(e) => return Err(e),
        },
        None => g,
    };
    grads.set(p, Some(sum));
    Ok(())
}

impl Graph {
    /// Hands the gradient `g` of vertex `m` on: a state is updated to its
    /// current value plus `g` scaled by `rate`; a variable is left alone; a
    /// compute node reads its children's values from `history` and adds the
    /// gradient of each child to what `grads` holds for it.
    fn propagate<T: Copy + Add<Output = T> + Mul<Output = T>, K: Kernel<T>>(
        &self,
        m: usize,
        g: &Tensor<T>,
        state: &mut Context<T>,
        history: &Context<T>,
        rate: T,
        kernel: &K,
        grads: &mut Vec<Option<Tensor<T>>>,
    ) -> (r: Result<(), TensorError>)
        requires
            self.wf(),
            m < self@.len(),
            m <= old(grads)@.len(),
            old(state).wf(),
            history.wf(),
            self@[m as int] is Compute ==> arith_total::<T>(),
            self@[m as int] matches Vertex::State(x) ==> (old(state)@.contains_key(x.id_spec()) ==> update_safe(
                old(state)@[x.id_spec()],
                *g,
                rate,
            )),
        ensures
            final(state).wf(),
            only_states_changed(self@, old(state)@, final(state)@),
            final(grads)@.len() == old(grads)@.len(),
            !(self@[m as int] is Compute) ==> final(grads)@ == old(grads)@,
            forall|j: int|
                0 <= j < final(grads)@.len() && (#[trigger] final(grads)@[j]) is Some ==> old(grads)@[j] is Some || is_child(
                    self@,
                    m as int,
                    j,
                ),
            self@[m as int] is Variable ==> final(state)@ == old(state)@ && r is Ok,
            self@[m as int] matches Vertex::Compute(node) ==> {
                &&& final(state)@ == old(state)@
                &&& first_missing_child(self@, node.param_spec(), history@) matches Some(id) ==> (r matches Err(
                    TensorError::MissingBinding(s),
                ) && s@ == id)
            },
            self@[m as int] matches Vertex::State(x) ==> {
                &&& r is Ok <==> old(state)@.contains_key(x.id_spec()) && old(state)@[x.id_spec()].dim_spec() == g.dim_spec()
                &&& r is Ok ==> updated(old(state)@, final(state)@, x.id_spec(), old(state)@[x.id_spec()], *g, rate)
                &&& r is Err ==> final(state)@ == old(state)@
            },
    {
        let ghost vs = self@;
        match self.vertex(m) {
            Vertex::Variable(_) => Ok(()),
            Vertex::State(x) => {
                let id = x.get_id();
                let current = match state.get(&id) {
                    None => return Err(TensorError::MissingBinding(id)),
                    Some(h) => h.duplicate(),
                };
                let h = &current;
                let delta = g.mul_scalar(rate);
                proof {
                    if !arith_total::<T>() && h.dim_spec() == delta.dim_spec() {
                        assert forall|i: int, j: int| 0 <= i < h.rows() && 0 <= j < h.cols() implies #[trigger] h.at(i, j).add_req(delta.at(i, j)) by {
                            assert(h.at(i, j).add_req(g.at(i, j).mul_spec(rate)));
                        }
                    }
                }
                match h.add(&delta) {
                    Ok(t) => {
                        let ghost before = state@;
                        state.set(id, t);
                        proof {
                            assert(state@ =~= before.insert(x.id_spec(), state@[x.id_spec()]));
                            assert(vs[m as int] is State && vs[m as int].id_spec() == x.id_spec());
                            assert(is_state_id(vs, x.id_spec()));
                        }
                        Ok(())
                    },
                    Err(e) => Err(e),
                }
            },
            Vertex::Compute(node) => {
                let ghost ps = node.param_spec();
                proof {
                    assert(graph_wf(vs));
                    assert(vs[m as int] == Vertex::Compute(*node));
                }
                let count = node.param_count();
                let mut inputs: Vec<Tensor<T>> = Vec::with_capacity(count);
                let mut k: usize = 0;
                while k < count
                    invariant
                        history.wf(),
                        state.wf(),
                        vs == self@,
                        m < vs.len(),
                        vs[m as int] == Vertex::Compute(*node),
                        ps == node.param_spec(),
                        count == ps.len(),
                        forall|j: int| 0 <= j < ps.len() ==> #[trigger] ps[j] < m,
                        k <= count,
                        count <= 2,
                        inputs@.len() == k,
                        state@ == old(state)@,
                        forall|j: int| 0 <= j < k ==> history@.contains_key(#[trigger] vs[ps[j] as int].id_spec()),
                    decreases count - k,
                {
                    let p = node.param(k);
                    let id = self.get_id(p);
                    match history.get(&id) {
                        Some(t) => inputs.push(t.duplicate()),
                        None => {
                            proof {
                                if k == 1 {
                                    assert(history@.contains_key(vs[ps[0] as int].id_spec()));
                                }
                            }
                            return Err(TensorError::MissingBinding(id));
                        },
                    }
                    k = k + 1;
                }
                proof {
                    assert(first_missing_child(vs, ps, history@) is None) by {
                        if ps.len() >= 1 {
                            assert(history@.contains_key(vs[ps[0] as int].id_spec()));
                        }
                        if ps.len() >= 2 {
                            assert(history@.contains_key(vs[ps[1] as int].id_spec()));
                        }
                    }
                }
                let gs = match op_gradient(node.get_op(), g, &inputs, kernel) {
                    Ok(gs) => gs,
                    Err(e) => return Err(e),
                };
                let mut gs = gs;
                let mut k: usize = count;
                while k > 0
                    invariant
                        arith_total::<T>(),
                        state.wf(),
                        vs == self@,
                        m < vs.len(),
                        m <= grads@.len(),
                        vs[m as int] == Vertex::Compute(*node),
                        ps == node.param_spec(),
                        count == ps.len(),
                        forall|j: int| 0 <= j < ps.len() ==> #[trigger] ps[j] < m,
                        k <= count,
                        count <= 2,
                        gs@.len() == k,
                        grads@.len() == old(grads)@.len(),
                        state@ == old(state)@,
                        first_missing_child(vs, ps, history@) is None,
                        forall|j: int|
                            0 <= j < grads@.len() && (#[trigger] grads@[j]) is Some ==> old(grads)@[j] is Some || is_child(
                                vs,
                                m as int,
                                j,
                            ),
                    decreases k,
                {
                    k = k - 1;
                    let gk = gs.pop().unwrap();
                    let p = node.param(k);
                    proof {
                        assert(count <= 2);
                        assert(is_child(vs, m as int, p as int));
                    }
                    match accumulate(grads, p, gk) {
                        Ok(()) => {},
                        Err(e) => return Err(e),
                    }
                }
                Ok(())
            },
        }
    }
}

impl Graph {
    /// The backward pass from `root`: seeds `root` with the gradient `seed`
    /// and visits the vertices from `root` down to the first. A vertex is
    /// visited once, after every parent has added its contribution, so a
    /// child shared by several parents receives the sum of their gradients.
    /// Reads the children's values from `history`, which a forward pass
    /// over `root` filled; a state reached becomes its current value in
    /// `state` plus its gradient times `rate`.
    pub fn backward_pass<T: Copy + Add<Output = T> + Mul<Output = T>, K: Kernel<T>>(
        &self,
        root: usize,
        state: &mut Context<T>,
        history: &Context<T>,
        seed: &Tensor<T>,
        rate: T,
        kernel: &K,
    ) -> (r: Result<(), TensorError>)
        requires
            self.wf(),
            root < self@.len(),
            old(state).wf(),
            history.wf(),
            self@[root as int] is Compute ==> arith_total::<T>(),
            self@[root as int] matches Vertex::State(x) ==> (old(state)@.contains_key(x.id_spec()) ==> update_safe(
                old(state)@[x.id_spec()],
                *seed,
                rate,
            )),
        ensures
            final(state).wf(),
            only_states_changed(self@, old(state)@, final(state)@),
            self@[root as int] is Variable ==> r is Ok && final(state)@ == old(state)@,
            self@[root as int] matches Vertex::Compute(node) ==> (first_missing_child(self@, node.param_spec(), history@) matches Some(
                id,
            ) ==> {
                &&& r matches Err(TensorError::MissingBinding(s)) && s@ == id
                &&& final(state)@ == old(state)@
            }),
            self@[root as int] matches Vertex::State(x) ==> {
                &&& r is Ok <==> old(state)@.contains_key(x.id_spec()) && old(state)@[x.id_spec()].dim_spec() == seed.dim_spec()
                &&& r is Ok ==> updated(old(state)@, final(state)@, x.id_spec(), old(state)@[x.id_spec()], *seed, rate)
                &&& r is Err ==> final(state)@ == old(state)@
            },
            state_steps(self@, root as int, 0, old(state)@, final(state)@, rate),
    {
        let ghost vs = self@;
        let mut grads: Vec<Option<Tensor<T>>> = Vec::with_capacity(root);
        let mut i: usize = 0;
        while i < root
            invariant
                i <= root,
                grads@.len() == i,
                forall|j: int| 0 <= j < i ==> #[trigger] grads@[j] is None,
            decreases root - i,
        {
            grads.push(None);
            i = i + 1;
        }
        let ghost start = state@;
        let first = self.propagate(root, seed, state, history, rate, kernel, &mut grads);
        proof {
            assert(below(vs, root as int, root as int));
            assert forall|j: int| 0 <= j < root && (#[trigger] grads@[j]) is Some implies below(vs, root as int, j) by {
                lemma_below_child(vs, root as int, root as int, j);
            }
            assert forall|q: int| 0 <= q < vs.len() && (#[trigger] vs[q]) is State implies {
                &&& state@.contains_key(vs[q].id_spec()) == start.contains_key(vs[q].id_spec())
                &&& start.contains_key(vs[q].id_spec()) ==> {
                    ||| state@[vs[q].id_spec()] == start[vs[q].id_spec()]
                    ||| root <= q && below(vs, root as int, q) && exists|g: Tensor<T>|
                        #[trigger] stepped(start[vs[q].id_spec()], state@[vs[q].id_spec()], g, rate)
                }
            } by {
                if q != root && vs[root as int] is State && first is Ok {
                    if q < root {
                        assert(vs[q].id_spec() != vs[root as int].id_spec());
                    } else {
                        assert(vs[root as int].id_spec() != vs[q].id_spec());
                    }
                }
                if q == root && first is Ok && start.contains_key(vs[q].id_spec()) {
                    assert(stepped(start[vs[q].id_spec()], state@[vs[q].id_spec()], *seed, rate));
                }
            }
            assert(state_steps(vs, root as int, root as int, start, state@, rate));
            if first is Err {
                lemma_steps_weaken(vs, root as int, root as int, 0, start, state@, rate);
            }
        }
        match first {
            Ok(()) => {},
            Err(e) => return Err(e),
        }
        let ghost after_root = state@;
        let mut m: usize = root;
        while m > 0
            invariant
                self.wf(),
                vs == self@,
                root < vs.len(),
                m <= root,
                grads@.len() == root,
                state.wf(),
                history.wf(),
                only_states_changed(vs, old(state)@, state@),
                vs[root as int] matches Vertex::Compute(node) ==> first_missing_child(vs, node.param_spec(), history@) is None,
                !(vs[root as int] is Compute) ==> state@ == after_root && forall|j: int| 0 <= j < root ==> #[trigger] grads@[j] is None,
                !arith_total::<T>() ==> !(vs[root as int] is Compute),
                forall|j: int| 0 <= j < root && (#[trigger] grads@[j]) is Some ==> below(vs, root as int, j),
                state_steps(vs, root as int, m as int, old(state)@, state@, rate),
            decreases m,
        {
            m = m - 1;
            let g = match &grads[m] {
                Some(g) => Some(g.duplicate()),
                None => None,
            };
            match g {
                Some(g) => {
                    let ghost mid = state@;
                    proof {
                        assert(grads@[m as int] is Some);
                        assert(below(vs, root as int, m as int));
                    }
                    let step = self.propagate(m, &g, state, history, rate, kernel, &mut grads);
                    proof {
                        lemma_changed_trans(vs, old(state)@, mid, state@);
                        assert forall|j: int| 0 <= j < root && (#[trigger] grads@[j]) is Some implies below(vs, root as int, j) by {
                            if is_child(vs, m as int, j) {
                                lemma_below_child(vs, root as int, m as int, j);
                            }
                        }
                        let o = old(state)@;
                        assert forall|q: int| 0 <= q < vs.len() && (#[trigger] vs[q]) is State implies {
                            &&& state@.contains_key(vs[q].id_spec()) == o.contains_key(vs[q].id_spec())
                            &&& o.contains_key(vs[q].id_spec()) ==> {
                                ||| state@[vs[q].id_spec()] == o[vs[q].id_spec()]
                                ||| m <= q && below(vs, root as int, q) && exists|g: Tensor<T>|
                                    #[trigger] stepped(o[vs[q].id_spec()], state@[vs[q].id_spec()], g, rate)
                            }
                        } by {
                            if vs[m as int] is State && step is Ok {
                                if q != m {
                                    if q < m {
                                        assert(vs[q].id_spec() != vs[m as int].id_spec());
                                    } else {
                                        assert(vs[m as int].id_spec() != vs[q].id_spec());
                                    }
                                } else if o.contains_key(vs[q].id_spec()) {
                                    assert(mid[vs[q].id_spec()] == o[vs[q].id_spec()]);
                                    assert(stepped(o[vs[q].id_spec()], state@[vs[q].id_spec()], g, rate));
                                }
                            }
                        }
                        assert(state_steps(vs, root as int, m as int, old(state)@, state@, rate));
                        if step is Err {
                            lemma_steps_weaken(vs, root as int, m as int, 0, old(state)@, state@, rate);
                        }
                    }
                    match step {
                        Ok(()) => {},
                        Err(e) => return Err(e),
                    }
                },
                None => {
                    proof {
                        lemma_steps_weaken(vs, root as int, m as int + 1, m as int, old(state)@, state@, rate);
                    }
                },
            }
        }
        Ok(())
    }
}

/// Training cannot meet an arithmetic fault: the forward pass is safe; a
/// compute root needs total arithmetic for the backward pass; a lone state
/// needs its single update to stay in range; a lone variable needs nothing.
pub open spec fn train_safe<T: Add<Output = T> + Mul<Output = T>>(
    vs: Seq<Vertex>,
    n: int,
    s: Map<Seq<char>, Tensor<T>>,
    v: Map<Seq<char>, Tensor<T>>,
    rate: T,
) -> bool {
    &&& run_safe(vs, n, s, v)
    &&& vs[n] is Compute ==> arith_total::<T>()
    &&& vs[n] matches Vertex::State(x) ==> {
        ||| arith_total::<T>()
        ||| {
            &&& T::obeys_add_spec()
            &&& T::obeys_mul_spec()
            &&& rate.mul_req(rate)
            &&& s.contains_key(x.id_spec()) && s[x.id_spec()].dim_spec() == Vec2(1, 1) ==> s[x.id_spec()].at(0, 0).add_req(
                rate.mul_spec(rate),
            )
        }
    }
}

/// Evaluates `node` of `graph` from the state and variable contexts; the
/// contexts are not changed and nothing is memoised.
pub fn execute<T: Copy + Add<Output = T> + Mul<Output = T>, K: Kernel<T>>(
    graph: &Graph,
    node: usize,
    state: &Context<T>,
    variables: &Context<T>,
    kernel: &K,
) -> (r: Result<Tensor<T>, TensorError>)
    requires
        graph.wf(),
        node < graph@.len(),
        state.wf(),
        variables.wf(),
        run_safe(graph@, node as int, state@, variables@),
    ensures
        forward_post(graph@, node as int, state@, variables@, *kernel, r),
{
    graph.run(node, state, variables, kernel)
}

/// One training step on `node` of `graph`: a forward pass that records
/// every value in `history`, then a backward pass seeded with a `1 x 1`
/// gradient equal to `rate`, in which each state reached becomes its
/// current value plus its gradient times `rate`. With this seed a lone
/// state `v0` becomes `v0 + rate * rate`. Returns the forward value.
pub fn train<T: Copy + Add<Output = T> + Mul<Output = T>, K: Kernel<T>>(
    graph: &Graph,
    node: usize,
    state: &mut Context<T>,
    variables: &Context<T>,
    history: &mut Context<T>,
    rate: T,
    kernel: &K,
) -> (r: Result<Tensor<T>, TensorError>)
    requires
        graph.wf(),
        node < graph@.len(),
        old(state).wf(),
        variables.wf(),
        old(history).wf(),
        train_safe(graph@, node as int, old(state)@, variables@, rate),
    ensures
        final(state).wf(),
        final(history).wf(),
        only_states_changed(graph@, old(state)@, final(state)@),
        state_steps(graph@, node as int, 0, old(state)@, final(state)@, rate),
        r matches Ok(t) ==> forward_post(graph@, node as int, old(state)@, variables@, *kernel, Ok(t)),
        r matches Ok(t) ==> final(history)@.contains_key(graph@[node as int].id_spec())
            && final(history)@[graph@[node as int].id_spec()].same(&t),
        r is Ok ==> forall|m: int|
            #[trigger] below(graph@, node as int, m) ==> recorded(graph@, old(state)@, variables@, *kernel, final(history)@, m),
        graph@[node as int] matches Vertex::Variable(x) ==> {
            &&& final(state)@ == old(state)@
            &&& r is Ok <==> variables@.contains_key(x.id_spec())
        },
        graph@[node as int] matches Vertex::State(x) ==> {
            &&& r is Ok <==> old(state)@.contains_key(x.id_spec()) && old(state)@[x.id_spec()].dim_spec() == Vec2(1, 1)
            &&& r is Ok ==> {
                &&& final(state)@ == old(state)@.insert(x.id_spec(), final(state)@[x.id_spec()])
                &&& final(state)@[x.id_spec()].dim_spec() == Vec2(1, 1)
                &&& T::obeys_add_spec() && T::obeys_mul_spec() ==> final(state)@[x.id_spec()].at(0, 0)
                    == old(state)@[x.id_spec()].at(0, 0).add_spec(rate.mul_spec(rate))
            }
        },
{
    let ghost vs = graph@;
    let ghost s0 = state@;
    proof {
        if let Vertex::State(x) = vs[node as int] {
            if s0.contains_key(x.id_spec()) {
                state.lemma_values_wf(x.id_spec());
            }
        }
    }
    let out = match graph.forward_pass(node, &*state, variables, history, kernel) {
        Ok(t) => t,
        Err(e) => {
            proof {
                if vs[node as int] is State {
                    assert(lib_only(vs, node as int));
                }
            }
            return Err(e);
        },
    };
    let mut buf: Vec<T> = Vec::with_capacity(1);
    buf.push(rate);
    let one = Vec2(1, 1);
    assert(buf@.len() == one.0 * one.1) by (nonlinear_arith)
        requires buf@.len() == 1, one.0 == 1, one.1 == 1;
    let seed = match Tensor::from_vec(one, buf) {
        Ok(t) => t,
        Err(_) => vstd::pervasive::unreached(),
    };
    proof {
        seed.lemma_values_at(0, 0);
        if let Vertex::State(x) = vs[node as int] {
            let id = x.id_spec();
            if !arith_total::<T>() && s0.contains_key(id) && s0[id].dim_spec() == seed.dim_spec() {
                s0[id].lemma_values_at(0, 0);
            }
        }
    }
    match graph.backward_pass(node, state, &*history, &seed, rate, kernel) {
        Ok(()) => {},
        Err(e) => {
            proof {
                if let Vertex::State(x) = vs[node as int] {
                    assert(seed.dim_spec() == Vec2(1, 1));
                    assert(!(s0.contains_key(x.id_spec()) && s0[x.id_spec()].dim_spec() == Vec2(1, 1)));
                }
            }
            return Err(e);
        },
    }
    proof {
        if let Vertex::State(x) = vs[node as int] {
            let id = x.id_spec();
            if T::obeys_add_spec() && T::obeys_mul_spec() {
                s0[id].lemma_values_at(0, 0);
                assert(state@[id].at(0, 0) == s0[id].at(0, 0).add_spec(seed.at(0, 0).mul_spec(rate)));
            }
        }
    }
    Ok(out)
}

/// Evaluation is deterministic: two evaluations of the same vertex, over
/// the same graph and contexts, both succeed or both fail, and give tensors
/// of the same dimensions and, where the element type's arithmetic follows
/// its specification, the same values. Stated of graphs built from the
/// library's own operations; what a kernel returns is the kernel's affair.
pub proof fn lemma_execute_deterministic<T: Add<Output = T> + Mul<Output = T>, K: Kernel<T>>(
    graph: Graph,
    node: usize,
    state: Context<T>,
    variables: Context<T>,
    kernel: K,
    r1: Result<Tensor<T>, TensorError>,
    r2: Result<Tensor<T>, TensorError>,
)
    requires
        lib_only(graph@, node as int),
        forward_post(graph@, node as int, state@, variables@, kernel, r1),
        forward_post(graph@, node as int, state@, variables@, kernel, r2),
    ensures
        r1 is Ok <==> r2 is Ok,
        r1 is Ok && r2 is Ok ==> r1->Ok_0.dim_spec() == r2->Ok_0.dim_spec(),
        r1 is Ok && r2 is Ok && T::obeys_add_spec() && T::obeys_mul_spec() ==> r1->Ok_0.same(&r2->Ok_0),
{
}

} // verus!
