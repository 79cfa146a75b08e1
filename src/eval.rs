use vstd::prelude::*;
use vstd::std_specs::ops::{AddSpec, MulSpec};
use std::ops::{Add, Mul};

use crate::error::TensorError;
use crate::math::{dot_prefix, product_safe, arith_total, Vec2};
use crate::node::Vertex;
use crate::op::{Kernel, Op};
use crate::tensor::Tensor;

verus! {

/// The dimensions and the row-major values of a tensor.
pub open spec fn grid_of<T>(t: Tensor<T>) -> (Vec2, Seq<T>) {
    (t.dim_spec(), t.values())
}

/// The matrix product of two grids, or `None` when the dimensions do not
/// fit or the product has values but no inner dimension to sum over.
pub open spec fn dot_grid<T: Add<Output = T> + Mul<Output = T>>(a: (Vec2, Seq<T>), b: (Vec2, Seq<T>)) -> Option<(Vec2, Seq<T>)> {
    let (ad, av) = a;
    let (bd, bv) = b;
    if ad.1 == bd.0 && (ad.1 > 0 || ad.0 == 0 || bd.1 == 0) && ad.0 * bd.1 <= usize::MAX {
        Some((Vec2(ad.0, bd.1), Seq::new((ad.0 * bd.1) as nat, |k: int| dot_prefix(av, ad.1 as nat, bv, bd.1 as nat, k / (bd.1 as int), k % (bd.1 as int), ad.1 as nat))))
    } else {
        None
    }
}

/// The sum of two grids, where a one-row `b` is added to every row of an
/// `a` of another height; `None` when the dimensions do not fit.
pub open spec fn add_grid<T: Add<Output = T>>(a: (Vec2, Seq<T>), b: (Vec2, Seq<T>)) -> Option<(Vec2, Seq<T>)> {
    let (ad, av) = a;
    let (bd, bv) = b;
    if ad.0 != 1 && bd.0 == 1 {
        if ad.1 == bd.1 {
            Some((ad, Seq::new(av.len(), |k: int| av[k].add_spec(bv[k % (ad.1 as int)]))))
        } else {
            None
        }
    } else if ad == bd {
        Some((ad, Seq::new(av.len(), |k: int| av[k].add_spec(bv[k]))))
    } else {
        None
    }
}

/// Every sum that `add_grid` takes is defined.
pub open spec fn add_grid_safe<T: Add<Output = T>>(a: (Vec2, Seq<T>), b: (Vec2, Seq<T>)) -> bool {
    let (ad, av) = a;
    let (bd, bv) = b;
    if ad.0 != 1 && bd.0 == 1 {
        ad.1 == bd.1 ==> forall|k: int| 0 <= k < av.len() ==> #[trigger] av[k].add_req(bv[k % (ad.1 as int)])
    } else {
        ad == bd ==> forall|k: int| 0 <= k < av.len() ==> #[trigger] av[k].add_req(bv[k])
    }
}

/// Every arithmetic step of `dot_grid` is defined.
pub open spec fn dot_grid_safe<T: Add<Output = T> + Mul<Output = T>>(a: (Vec2, Seq<T>), b: (Vec2, Seq<T>)) -> bool {
    let (ad, av) = a;
    let (bd, bv) = b;
    ad.1 == bd.0 ==> product_safe(av, ad.1 as nat, bv, bd.1 as nat, ad.0 as nat)
}

/// The sub-graph below vertex `n` uses only operations that the library
/// computes itself (leaves, `Dot` and `Add`).
pub open spec fn lib_only(vs: Seq<Vertex>, n: int) -> bool
    decreases n,
{
    if !(0 <= n < vs.len()) {
        false
    } else {
        match vs[n] {
            Vertex::Compute(node) => {
                let ps = node.param_spec();
                &&& ps.len() == 2
                &&& ps[0] < n
                &&& ps[1] < n
                &&& (node.op_spec() == Op::Dot || node.op_spec() == Op::Add)
                &&& lib_only(vs, ps[0] as int)
                &&& lib_only(vs, ps[1] as int)
            },
            _ => true,
        }
    }
}

/// The value of vertex `n` under the state context `s` and the variable
/// context `v`, for a vertex whose sub-graph is `lib_only`; `None` when a
/// leaf is unbound or dimensions do not fit.
pub open spec fn eval<T: Add<Output = T> + Mul<Output = T>>(
    vs: Seq<Vertex>,
    n: int,
    s: Map<Seq<char>, Tensor<T>>,
    v: Map<Seq<char>, Tensor<T>>,
) -> Option<(Vec2, Seq<T>)>
    decreases n,
{
    if !(0 <= n < vs.len()) {
        None
    } else {
        match vs[n] {
            Vertex::Variable(x) => if v.contains_key(x.id_spec()) {
                Some(grid_of(v[x.id_spec()]))
            } else {
                None
            },
            Vertex::State(x) => if s.contains_key(x.id_spec()) {
                Some(grid_of(s[x.id_spec()]))
            } else {
                None
            },
            Vertex::Compute(node) => {
                let ps = node.param_spec();
                if ps.len() == 2 && ps[0] < n && ps[1] < n {
                    match (eval(vs, ps[0] as int, s, v), eval(vs, ps[1] as int, s, v)) {
                        (Some(a), Some(b)) => match node.op_spec() {
                            Op::Dot => dot_grid(a, b),
                            Op::Add => add_grid(a, b),
                            _ => None,
                        },
                        _ => None,
                    }
                } else {
                    None
                }
            },
        }
    }
}

/// Every arithmetic step that the library itself takes while evaluating
/// vertex `n` is defined: a `Dot` or `Add` node needs an element type whose
/// arithmetic follows its specification, children built from the library's
/// own operations, and every step of `eval` in range; a leaf needs nothing;
/// a kernel node needs only its children to be safe.
pub open spec fn eval_safe<T: Add<Output = T> + Mul<Output = T>>(
    vs: Seq<Vertex>,
    n: int,
    s: Map<Seq<char>, Tensor<T>>,
    v: Map<Seq<char>, Tensor<T>>,
) -> bool
    decreases n,
{
    if !(0 <= n < vs.len()) {
        false
    } else {
        match vs[n] {
            Vertex::Compute(node) => {
                let ps = node.param_spec();
                if node.op_spec() == Op::Dot || node.op_spec() == Op::Add {
                    if ps.len() == 2 && ps[0] < n && ps[1] < n {
                        &&& T::obeys_add_spec()
                        &&& T::obeys_mul_spec()
                        &&& lib_only(vs, ps[0] as int)
                        &&& lib_only(vs, ps[1] as int)
                        &&& eval_safe(vs, ps[0] as int, s, v)
                        &&& eval_safe(vs, ps[1] as int, s, v)
                        &&& match (eval(vs, ps[0] as int, s, v), eval(vs, ps[1] as int, s, v)) {
                            (Some(a), Some(b)) => if node.op_spec() == Op::Dot {
                                dot_grid_safe(a, b)
                            } else {
                                add_grid_safe(a, b)
                            },
                            _ => true,
                        }
                    } else {
                        false
                    }
                } else {
                    &&& 1 <= ps.len() <= 2
                    &&& ps[0] < n && eval_safe(vs, ps[0] as int, s, v)
                    &&& ps.len() == 2 ==> ps[1] < n && eval_safe(vs, ps[1] as int, s, v)
                }
            },
            _ => true,
        }
    }
}

/// Evaluating vertex `n` cannot meet an arithmetic fault: the element
/// type's arithmetic is total, or every step the library takes is safe.
pub open spec fn run_safe<T: Add<Output = T> + Mul<Output = T>>(
    vs: Seq<Vertex>,
    n: int,
    s: Map<Seq<char>, Tensor<T>>,
    v: Map<Seq<char>, Tensor<T>>,
) -> bool {
    arith_total::<T>() || eval_safe(vs, n, s, v)
}

/// A leaf evaluates to the tensor its context binds to its id, and to a
/// `MissingBinding` error naming the id when there is none.
pub open spec fn leaf_post<T>(
    vs: Seq<Vertex>,
    n: int,
    s: Map<Seq<char>, Tensor<T>>,
    v: Map<Seq<char>, Tensor<T>>,
    r: Result<Tensor<T>, TensorError>,
) -> bool {
    match vs[n] {
        Vertex::Variable(x) => if v.contains_key(x.id_spec()) {
            r matches Ok(t) && t.same(&v[x.id_spec()])
        } else {
            r matches Err(TensorError::MissingBinding(id)) && id@ == x.id_spec()
        },
        Vertex::State(x) => if s.contains_key(x.id_spec()) {
            r matches Ok(t) && t.same(&s[x.id_spec()])
        } else {
            r matches Err(TensorError::MissingBinding(id)) && id@ == x.id_spec()
        },
        Vertex::Compute(_) => true,
    }
}

/// The one or two children `ps` of vertex `n` evaluate, in order, to `ins`.
pub open spec fn children_ok<T: Add<Output = T> + Mul<Output = T>, K: Kernel<T>>(
    vs: Seq<Vertex>,
    n: int,
    ps: Seq<usize>,
    s: Map<Seq<char>, Tensor<T>>,
    v: Map<Seq<char>, Tensor<T>>,
    kernel: K,
    ins: Seq<Tensor<T>>,
) -> bool
    decreases n, 0nat,
{
    &&& ins.len() == ps.len()
    &&& 1 <= ps.len() <= 2
    &&& ps[0] < n && forward_post(vs, ps[0] as int, s, v, kernel, Ok(ins[0]))
    &&& ps.len() == 2 ==> ps[1] < n && forward_post(vs, ps[1] as int, s, v, kernel, Ok(ins[1]))
}

/// A node of `op` whose children evaluated to `ins` evaluates to `t`: the
/// matrix product or the sum for `Dot` and `Add` (its dimensions, and its
/// values where the arithmetic follows its specification), the dimensions
/// and values of what the kernel returns otherwise.
pub open spec fn step_ok<T: Add<Output = T> + Mul<Output = T>, K: Kernel<T>>(
    op: Op,
    ins: Seq<Tensor<T>>,
    kernel: K,
    t: Tensor<T>,
) -> bool {
    match op {
        Op::Dot => dot_grid(grid_of(ins[0]), grid_of(ins[1])) matches Some(g) && t.dim_spec() == g.0 && (
        T::obeys_add_spec() && T::obeys_mul_spec() ==> t.values() == g.1),
        Op::Add => add_grid(grid_of(ins[0]), grid_of(ins[1])) matches Some(g) && t.dim_spec() == g.0 && (
        T::obeys_add_spec() ==> t.values() == g.1),
        _ => kernel.value_spec(op, ins) matches Ok(u) && u.same(&t),
    }
}

/// A node of `op` whose children evaluated to `ins` fails with `e`: a
/// `ShapeMismatch` when `Dot` or `Add` gets dimensions that do not fit,
/// the kernel's error otherwise.
pub open spec fn step_err<T: Add<Output = T> + Mul<Output = T>, K: Kernel<T>>(
    op: Op,
    ins: Seq<Tensor<T>>,
    kernel: K,
    e: TensorError,
) -> bool {
    match op {
        Op::Dot => dot_grid(grid_of(ins[0]), grid_of(ins[1])) is None && e is ShapeMismatch,
        Op::Add => add_grid(grid_of(ins[0]), grid_of(ins[1])) is None && e is ShapeMismatch,
        _ => kernel.value_spec(op, ins) == Err::<Tensor<T>, TensorError>(e),
    }
}

/// What a forward evaluation of vertex `n` returns. A leaf gives its bound
/// value or `MissingBinding`. A compute node passes on the error of a
/// child; otherwise it applies its operation to the children's values
/// (`step_ok`, `step_err`). For a sub-graph of the library's own operations
/// this is `eval`: success exactly when `eval` has a value.
pub open spec fn forward_post<T: Add<Output = T> + Mul<Output = T>, K: Kernel<T>>(
    vs: Seq<Vertex>,
    n: int,
    s: Map<Seq<char>, Tensor<T>>,
    v: Map<Seq<char>, Tensor<T>>,
    kernel: K,
    r: Result<Tensor<T>, TensorError>,
) -> bool
    decreases n, 1nat,
{
    &&& leaf_post(vs, n, s, v, r)
    &&& lib_only(vs, n) ==> match r {
        Ok(t) => {
            &&& eval(vs, n, s, v) is Some
            &&& t.dim_spec() == eval(vs, n, s, v)->Some_0.0
            &&& T::obeys_add_spec() && T::obeys_mul_spec() ==> t.values() == eval(vs, n, s, v)->Some_0.1
        },
        Err(_) => eval(vs, n, s, v) is None,
    }
    &&& 0 <= n < vs.len() ==> match vs[n] {
        Vertex::Compute(node) => match r {
            Ok(t) => exists|ins: Seq<Tensor<T>>|
                children_ok(vs, n, node.param_spec(), s, v, kernel, ins) && #[trigger] step_ok(node.op_spec(), ins, kernel, t),
            Err(e) => {
                ||| 1 <= node.param_spec().len() && node.param_spec()[0] < n && forward_post(
                    vs,
                    node.param_spec()[0] as int,
                    s,
                    v,
                    kernel,
                    Err(e),
                )
                ||| 2 <= node.param_spec().len() && node.param_spec()[1] < n && forward_post(
                    vs,
                    node.param_spec()[1] as int,
                    s,
                    v,
                    kernel,
                    Err(e),
                )
                ||| exists|ins: Seq<Tensor<T>>|
                    children_ok(vs, n, node.param_spec(), s, v, kernel, ins) && #[trigger] step_err(node.op_spec(), ins, kernel, e)
            },
        },
        _ => true,
    }
}

/// Vertex `m` lies in the sub-graph below vertex `n` (`n` included).
pub open spec fn below(vs: Seq<Vertex>, n: int, m: int) -> bool
    decreases n,
{
    if !(0 <= n < vs.len()) {
        false
    } else if m == n {
        true
    } else {
        match vs[n] {
            Vertex::Compute(node) => {
                let ps = node.param_spec();
                ||| ps.len() >= 1 && ps[0] < n && below(vs, ps[0] as int, m)
                ||| ps.len() >= 2 && ps[1] < n && below(vs, ps[1] as int, m)
            },
            _ => false,
        }
    }
}

/// `history` holds, under the id of vertex `m`, a value that a forward
/// evaluation of `m` may give.
pub open spec fn recorded<T: Add<Output = T> + Mul<Output = T>, K: Kernel<T>>(
    vs: Seq<Vertex>,
    s: Map<Seq<char>, Tensor<T>>,
    v: Map<Seq<char>, Tensor<T>>,
    kernel: K,
    history: Map<Seq<char>, Tensor<T>>,
    m: int,
) -> bool {
    &&& history.contains_key(vs[m].id_spec())
    &&& forward_post(vs, m, s, v, kernel, Ok(history[vs[m].id_spec()]))
}

/// A tensor holding the same values as a forward result is one too.
pub proof fn lemma_post_same<T: Add<Output = T> + Mul<Output = T>, K: Kernel<T>>(
    vs: Seq<Vertex>,
    n: int,
    s: Map<Seq<char>, Tensor<T>>,
    v: Map<Seq<char>, Tensor<T>>,
    kernel: K,
    t: Tensor<T>,
    u: Tensor<T>,
)
    requires
        forward_post(vs, n, s, v, kernel, Ok(t)),
        u.same(&t),
    ensures
        forward_post(vs, n, s, v, kernel, Ok(u)),
{
    assert(leaf_post(vs, n, s, v, Ok::<Tensor<T>, TensorError>(u)));
    if lib_only(vs, n) {
        assert(eval(vs, n, s, v) is Some);
        assert(u.dim_spec() == eval(vs, n, s, v)->Some_0.0);
    }
    if 0 <= n < vs.len() {
        if let Vertex::Compute(node) = vs[n] {
            let ins = choose|ins: Seq<Tensor<T>>|
                children_ok(vs, n, node.param_spec(), s, v, kernel, ins) && #[trigger] step_ok(node.op_spec(), ins, kernel, t);
            assert(children_ok(vs, n, node.param_spec(), s, v, kernel, ins) && step_ok(node.op_spec(), ins, kernel, u));
        }
    }
}

/// Every vertex below `n` is a vertex of the graph.
pub proof fn lemma_below_range(vs: Seq<Vertex>, n: int, m: int)
    requires
        below(vs, n, m),
    ensures
        0 <= m < vs.len(),
    decreases n,
{
    if m != n {
        if let Vertex::Compute(node) = vs[n] {
            let ps = node.param_spec();
            if ps.len() >= 1 && ps[0] < n && below(vs, ps[0] as int, m) {
                lemma_below_range(vs, ps[0] as int, m);
            } else {
                lemma_below_range(vs, ps[1] as int, m);
            }
        }
    }
}

pub proof fn lemma_small_index(j: int, c: int)
    requires
        0 <= j < c,
    ensures
        j / c == 0,
        j % c == j,
{
    assert(j / c == 0 && j % c == j) by (nonlinear_arith)
        requires 0 <= j < c;
}

} // verus!
