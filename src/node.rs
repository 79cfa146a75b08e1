use vstd::prelude::*;

use crate::error::TensorError;
use crate::math::Vec2;
use crate::op::{arity, calc_dim, calc_dim_spec, Op};

verus! {

/// A leaf whose value is fed from outside, through the variable context.
/// Its row count may be 0, meaning that the batch size is only known at
/// run time. Variables are not trained.
pub struct Variable {
    id: String,
    dim: Vec2,
}

/// A leaf whose value is a trainable parameter, held in the state context.
pub struct State {
    id: String,
    dim: Vec2,
}

/// A compute node: an operation over the values of its children, which are
/// handles of earlier nodes of the same graph.
pub struct Node {
    id: String,
    dim: Vec2,
    op: Op,
    param: Vec<usize>,
}

impl Variable {
    pub closed spec fn id_spec(&self) -> Seq<char> {
        self.id@
    }

    pub closed spec fn dim_spec(&self) -> Vec2 {
        self.dim
    }

    pub fn new(node_id: String, dimensions: Vec2) -> (r: Variable)
        ensures
            r.id_spec() == node_id@,
            r.dim_spec() == dimensions,
    {
        Variable { id: node_id, dim: dimensions }
    }

    pub fn get_id(&self) -> (r: String)
        ensures
            r@ == self.id_spec(),
    {
        self.id.clone()
    }

    pub fn get_dim(&self) -> (r: Vec2)
        ensures
            r == self.dim_spec(),
    {
        self.dim
    }
}

impl State {
    pub closed spec fn id_spec(&self) -> Seq<char> {
        self.id@
    }

    pub closed spec fn dim_spec(&self) -> Vec2 {
        self.dim
    }

    pub fn new(node_id: String, dimensions: Vec2) -> (r: State)
        ensures
            r.id_spec() == node_id@,
            r.dim_spec() == dimensions,
    {
        State { id: node_id, dim: dimensions }
    }

    pub fn get_id(&self) -> (r: String)
        ensures
            r@ == self.id_spec(),
    {
        self.id.clone()
    }

    pub fn get_dim(&self) -> (r: Vec2)
        ensures
            r == self.dim_spec(),
    {
        self.dim
    }
}

impl Node {
    pub closed spec fn id_spec(&self) -> Seq<char> {
        self.id@
    }

    pub closed spec fn dim_spec(&self) -> Vec2 {
        self.dim
    }

    pub closed spec fn op_spec(&self) -> Op {
        self.op
    }

    pub closed spec fn param_spec(&self) -> Seq<usize> {
        self.param@
    }

    /// A node of `operation` over the children `parameter`, whose declared
    /// dimensions are `dims`; its own dimensions follow from theirs, and it
    /// fails when they do not fit together.
    pub fn new(node_id: String, operation: Op, parameter: Vec<usize>, dims: &Vec<Vec2>) -> (r: Result<Node, TensorError>)
        ensures
            r is Ok <==> calc_dim_spec(operation, dims@) is Some,
            r matches Err(e) ==> if dims@.len() == arity(operation) {
                e is ShapeMismatch
            } else {
                e == TensorError::WrongArity { needed: arity(operation) as usize, given: dims@.len() as usize }
            },
            r matches Ok(n) ==> {
                &&& n.id_spec() == node_id@
                &&& n.op_spec() == operation
                &&& n.param_spec() == parameter@
                &&& Some(n.dim_spec()) == calc_dim_spec(operation, dims@)
            },
    {
        match calc_dim(operation, dims) {
            Ok(d) => Ok(Node { id: node_id, dim: d, op: operation, param: parameter }),
            Err(e) => Err(e),
        }
    }

    /// A node with the given dimensions, taken as they are.
    pub fn with_dim(node_id: String, operation: Op, parameter: Vec<usize>, dimension: Vec2) -> (r: Node)
        ensures
            r.id_spec() == node_id@,
            r.op_spec() == operation,
            r.param_spec() == parameter@,
            r.dim_spec() == dimension,
    {
        Node { id: node_id, dim: dimension, op: operation, param: parameter }
    }

    pub fn get_id(&self) -> (r: String)
        ensures
            r@ == self.id_spec(),
    {
        self.id.clone()
    }

    pub fn get_dim(&self) -> (r: Vec2)
        ensures
            r == self.dim_spec(),
    {
        self.dim
    }

    pub fn get_op(&self) -> (r: Op)
        ensures
            r == self.op_spec(),
    {
        self.op
    }

    /// The handle of the `k`-th child.
    pub fn param(&self, k: usize) -> (r: usize)
        requires
            k < self.param_spec().len(),
        ensures
            r == self.param_spec()[k as int],
    {
        self.param[k]
    }

    pub fn param_count(&self) -> (r: usize)
        ensures
            r == self.param_spec().len(),
    {
        self.param.len()
    }
}

/// One vertex of a graph.
pub enum Vertex {
    Variable(Variable),
    State(State),
    Compute(Node),
}

impl Vertex {
    pub open spec fn id_spec(&self) -> Seq<char> {
        match self {
            Vertex::Variable(v) => v.id_spec(),
            Vertex::State(s) => s.id_spec(),
            Vertex::Compute(n) => n.id_spec(),
        }
    }

    pub open spec fn dim_spec(&self) -> Vec2 {
        match self {
            Vertex::Variable(v) => v.dim_spec(),
            Vertex::State(s) => s.dim_spec(),
            Vertex::Compute(n) => n.dim_spec(),
        }
    }

    pub fn get_id(&self) -> (r: String)
        ensures
            r@ == self.id_spec(),
    {
        match self {
            Vertex::Variable(v) => v.get_id(),
            Vertex::State(s) => s.get_id(),
            Vertex::Compute(n) => n.get_id(),
        }
    }

    pub fn get_dim(&self) -> (r: Vec2)
        ensures
            r == self.dim_spec(),
    {
        match self {
            Vertex::Variable(v) => v.get_dim(),
            Vertex::State(s) => s.get_dim(),
            Vertex::Compute(n) => n.get_dim(),
        }
    }
}

/// The declared dimensions of the children `params` of a node.
pub open spec fn param_dims(vertices: Seq<Vertex>, params: Seq<usize>) -> Seq<Vec2> {
    params.map_values(|p: usize| vertices[p as int].dim_spec())
}

/// A computation graph held as an arena: vertices refer to their children
/// by handle, and a child always comes before its parents, so the graph is
/// acyclic and may share a child among several parents.
pub struct Graph {
    vertices: Vec<Vertex>,
}

impl View for Graph {
    type V = Seq<Vertex>;

    closed spec fn view(&self) -> Seq<Vertex> {
        self.vertices@
    }
}

/// Every compute node has the children its operation needs, all of them
/// earlier, with dimensions from which its own follow; and ids are unique.
pub open spec fn graph_wf(vertices: Seq<Vertex>) -> bool {
    &&& forall|n: int|
        0 <= n < vertices.len() ==> match #[trigger] vertices[n] {
            Vertex::Compute(node) => {
                &&& node.param_spec().len() == arity(node.op_spec())
                &&& forall|k: int| 0 <= k < node.param_spec().len() ==> #[trigger] node.param_spec()[k] < n
                &&& calc_dim_spec(node.op_spec(), param_dims(vertices, node.param_spec())) == Some(node.dim_spec())
            },
            _ => true,
        }
    &&& forall|a: int, b: int|
        0 <= a < b < vertices.len() ==> #[trigger] vertices[a].id_spec() != #[trigger] vertices[b].id_spec()
}

impl Graph {
    pub open spec fn wf(&self) -> bool {
        graph_wf(self@)
    }

    /// An empty graph.
    pub fn new() -> (r: Graph)
        ensures
            r.wf(),
            r@.len() == 0,
    {
        Graph { vertices: Vec::new() }
    }

    /// The number of vertices.
    pub fn len(&self) -> (r: usize)
        ensures
            r == self@.len(),
    {
        self.vertices.len()
    }

    /// The vertex with handle `n`.
    pub fn vertex(&self, n: usize) -> (r: &Vertex)
        requires
            n < self@.len(),
        ensures
            *r == self@[n as int],
    {
        &self.vertices[n]
    }

    /// The id of the vertex with handle `n`.
    pub fn get_id(&self, n: usize) -> (r: String)
        requires
            n < self@.len(),
        ensures
            r@ == self@[n as int].id_spec(),
    {
        self.vertices[n].get_id()
    }

    /// The declared dimensions of the vertex with handle `n`.
    pub fn get_dim(&self, n: usize) -> (r: Vec2)
        requires
            n < self@.len(),
        ensures
            r == self@[n as int].dim_spec(),
    {
        self.vertices[n].get_dim()
    }

    fn has_id(&self, id: &String) -> (r: bool)
        ensures
            r <==> exists|n: int| 0 <= n < self@.len() && #[trigger] self@[n].id_spec() == id@,
    {
        let mut i: usize = 0;
        while i < self.vertices.len()
            invariant
                i <= self@.len(),
                forall|n: int| 0 <= n < i ==> #[trigger] self@[n].id_spec() != id@,
            decreases self@.len() - i,
        {
            let vid = self.vertices[i].get_id();
            if vid.eq(id) {
                assert(self@[i as int].id_spec() == id@);
                return true;
            }
            i = i + 1;
        }
        false
    }

    proof fn lemma_push_wf(&self, v: Vertex, old_vertices: Seq<Vertex>)
        requires
            graph_wf(old_vertices),
            self@ == old_vertices.push(v),
            forall|n: int| 0 <= n < old_vertices.len() ==> #[trigger] old_vertices[n].id_spec() != v.id_spec(),
            match v {
                Vertex::Compute(node) => {
                    &&& node.param_spec().len() == arity(node.op_spec())
                    &&& forall|k: int| 0 <= k < node.param_spec().len() ==> #[trigger] node.param_spec()[k] < old_vertices.len()
                    &&& calc_dim_spec(node.op_spec(), param_dims(old_vertices, node.param_spec())) == Some(node.dim_spec())
                },
                _ => true,
            },
        ensures
            graph_wf(self@),
    {
        let vs = self@;
        assert forall|n: int| 0 <= n < vs.len() implies match #[trigger] vs[n] {
            Vertex::Compute(node) => {
                &&& node.param_spec().len() == arity(node.op_spec())
                &&& forall|k: int| 0 <= k < node.param_spec().len() ==> #[trigger] node.param_spec()[k] < n
                &&& calc_dim_spec(node.op_spec(), param_dims(vs, node.param_spec())) == Some(node.dim_spec())
            },
            _ => true,
        } by {
            if let Vertex::Compute(node) = vs[n] {
                let ps = node.param_spec();
                if n < old_vertices.len() {
                    assert(old_vertices[n] == vs[n]);
                }
                assert(param_dims(vs, ps) =~= param_dims(old_vertices, ps)) by {
                    assert forall|k: int| 0 <= k < ps.len() implies param_dims(vs, ps)[k] == param_dims(old_vertices, ps)[k] by {
                        assert(ps[k] < n);
                        assert(vs[ps[k] as int] == old_vertices[ps[k] as int]);
                    }
                }
            }
        }
        assert forall|a: int, b: int| 0 <= a < b < vs.len() implies #[trigger] vs[a].id_spec() != #[trigger] vs[b].id_spec() by {
            if b < old_vertices.len() {
                assert(old_vertices[a] == vs[a] && old_vertices[b] == vs[b]);
            } else {
                assert(old_vertices[a] == vs[a]);
            }
        }
    }

    /// Adds a leaf fed from the variable context; fails when `id` is taken.
    pub fn variable(&mut self, id: String, dim: Vec2) -> (r: Result<usize, TensorError>)
        requires
            old(self).wf(),
        ensures
            final(self).wf(),
            r is Ok <==> forall|n: int| 0 <= n < old(self)@.len() ==> #[trigger] old(self)@[n].id_spec() != id@,
            r matches Ok(h) ==> {
                &&& h == old(self)@.len()
                &&& final(self)@.len() == h + 1
                &&& final(self)@.subrange(0, h as int) == old(self)@
                &&& final(self)@[h as int] matches Vertex::Variable(v) && v.id_spec() == id@ && v.dim_spec() == dim
            },
            r matches Err(e) ==> e == TensorError::DuplicateId(id) && final(self)@ == old(self)@,
    {
        if self.has_id(&id) {
            return Err(TensorError::DuplicateId(id));
        }
        let h = self.vertices.len();
        let ghost before = self@;
        let v = Vertex::Variable(Variable::new(id, dim));
        self.vertices.push(v);
        proof {
            self.lemma_push_wf(self@[h as int], before);
            assert(self@.subrange(0, h as int) =~= before);
        }
        Ok(h)
    }

    /// Adds a trainable leaf held in the state context; fails when `id` is
    /// taken.
    pub fn state(&mut self, id: String, dim: Vec2) -> (r: Result<usize, TensorError>)
        requires
            old(self).wf(),
        ensures
            final(self).wf(),
            r is Ok <==> forall|n: int| 0 <= n < old(self)@.len() ==> #[trigger] old(self)@[n].id_spec() != id@,
            r matches Ok(h) ==> {
                &&& h == old(self)@.len()
                &&& final(self)@.len() == h + 1
                &&& final(self)@.subrange(0, h as int) == old(self)@
                &&& final(self)@[h as int] matches Vertex::State(s) && s.id_spec() == id@ && s.dim_spec() == dim
            },
            r matches Err(e) ==> e == TensorError::DuplicateId(id) && final(self)@ == old(self)@,
    {
        if self.has_id(&id) {
            return Err(TensorError::DuplicateId(id));
        }
        let h = self.vertices.len();
        let ghost before = self@;
        let v = Vertex::State(State::new(id, dim));
        self.vertices.push(v);
        proof {
            self.lemma_push_wf(self@[h as int], before);
            assert(self@.subrange(0, h as int) =~= before);
        }
        Ok(h)
    }

    /// Adds a compute node of `op` over the children `params`; fails when
    /// `id` is taken or when the children's dimensions do not fit `op`.
    pub fn compute(&mut self, id: String, op: Op, params: Vec<usize>) -> (r: Result<usize, TensorError>)
        requires
            old(self).wf(),
            forall|k: int| 0 <= k < params@.len() ==> #[trigger] params@[k] < old(self)@.len(),
        ensures
            final(self).wf(),
            r is Ok <==> {
                &&& forall|n: int| 0 <= n < old(self)@.len() ==> #[trigger] old(self)@[n].id_spec() != id@
                &&& calc_dim_spec(op, param_dims(old(self)@, params@)) is Some
            },
            r matches Ok(h) ==> {
                &&& h == old(self)@.len()
                &&& final(self)@.len() == h + 1
                &&& final(self)@.subrange(0, h as int) == old(self)@
                &&& final(self)@[h as int] matches Vertex::Compute(node) && {
                    &&& node.id_spec() == id@
                    &&& node.op_spec() == op
                    &&& node.param_spec() == params@
                    &&& calc_dim_spec(op, param_dims(old(self)@, params@)) == Some(node.dim_spec())
                }
            },
            r matches Err(e) ==> final(self)@ == old(self)@,
            r matches Err(e) ==> if exists|n: int| 0 <= n < old(self)@.len() && #[trigger] old(self)@[n].id_spec() == id@ {
                e == TensorError::DuplicateId(id)
            } else if params@.len() == arity(op) {
                e is ShapeMismatch
            } else {
                e == TensorError::WrongArity { needed: arity(op) as usize, given: params@.len() as usize }
            },
    {
        if self.has_id(&id) {
            return Err(TensorError::DuplicateId(id));
        }
        let mut dims: Vec<Vec2> = Vec::with_capacity(params.len());
        let mut k: usize = 0;
        while k < params.len()
            invariant
                k <= params@.len(),
                forall|k: int| 0 <= k < params@.len() ==> #[trigger] params@[k] < self@.len(),
                dims@ == param_dims(self@, params@).subrange(0, k as int),
            decreases params@.len() - k,
        {
            dims.push(self.get_dim(params[k]));
            k = k + 1;
            assert(dims@ =~= param_dims(self@, params@).subrange(0, k as int));
        }
        assert(dims@ =~= param_dims(self@, params@));
        match Node::new(id, op, params, &dims) {
            Ok(node) => {
                let h = self.vertices.len();
                let ghost before = self@;
                self.vertices.push(Vertex::Compute(node));
                proof {
                    self.lemma_push_wf(self@[h as int], before);
                    assert(self@.subrange(0, h as int) =~= before);
                    if let Vertex::Compute(nd) = self@[h as int] {
                        assert(op == nd.op_spec());
                    }
                    assert(arity(op) == param_dims(before, node.param_spec()).len());
                }
                Ok(h)
            },
            Err(e) => Err(e),
        }
    }

    /// Adds the matrix product of `a` and `b`; fails when `id` is taken or
    /// when the columns of `a` do not match the rows of `b`.
    pub fn dot(&mut self, id: String, a: usize, b: usize) -> (r: Result<usize, TensorError>)
        requires
            old(self).wf(),
            a < old(self)@.len(),
            b < old(self)@.len(),
        ensures
            final(self).wf(),
            r is Ok <==> {
                &&& forall|n: int| 0 <= n < old(self)@.len() ==> #[trigger] old(self)@[n].id_spec() != id@
                &&& old(self)@[a as int].dim_spec().1 == old(self)@[b as int].dim_spec().0
            },
            r matches Ok(h) ==> {
                &&& h == old(self)@.len()
                &&& final(self)@.subrange(0, h as int) == old(self)@
                &&& final(self)@[h as int].dim_spec() == Vec2(
                    old(self)@[a as int].dim_spec().0,
                    old(self)@[b as int].dim_spec().1,
                )
                &&& final(self)@[h as int] matches Vertex::Compute(node) && node.op_spec() == Op::Dot
                    && node.param_spec() == seq![a, b] && node.id_spec() == id@
            },
            r matches Err(e) ==> final(self)@ == old(self)@,
            r matches Err(e) ==> if exists|n: int| 0 <= n < old(self)@.len() && #[trigger] old(self)@[n].id_spec() == id@ {
                e == TensorError::DuplicateId(id)
            } else {
                e is ShapeMismatch
            },
    {
        let params = vec![a, b];
        let ghost before = self@;
        proof {
            assert(param_dims(before, params@) =~= seq![before[a as int].dim_spec(), before[b as int].dim_spec()]);
        }
        self.compute(id, Op::Dot, params)
    }

    /// Adds the elementwise sum of `a` and `b`, where a one-row `b` is added
    /// to every row of `a`; fails when `id` is taken or the dimensions do
    /// not fit.
    pub fn add(&mut self, id: String, a: usize, b: usize) -> (r: Result<usize, TensorError>)
        requires
            old(self).wf(),
            a < old(self)@.len(),
            b < old(self)@.len(),
        ensures
            final(self).wf(),
            r is Ok <==> {
                &&& forall|n: int| 0 <= n < old(self)@.len() ==> #[trigger] old(self)@[n].id_spec() != id@
                &&& old(self)@[a as int].dim_spec().1 == old(self)@[b as int].dim_spec().1
                &&& (old(self)@[a as int].dim_spec().0 == old(self)@[b as int].dim_spec().0
                    || old(self)@[b as int].dim_spec().0 == 1)
            },
            r matches Ok(h) ==> {
                &&& h == old(self)@.len()
                &&& final(self)@.subrange(0, h as int) == old(self)@
                &&& final(self)@[h as int].dim_spec() == old(self)@[a as int].dim_spec()
                &&& final(self)@[h as int] matches Vertex::Compute(node) && node.op_spec() == Op::Add
                    && node.param_spec() == seq![a, b] && node.id_spec() == id@
            },
            r matches Err(e) ==> final(self)@ == old(self)@,
            r matches Err(e) ==> if exists|n: int| 0 <= n < old(self)@.len() && #[trigger] old(self)@[n].id_spec() == id@ {
                e == TensorError::DuplicateId(id)
            } else {
                e is ShapeMismatch
            },
    {
        let params = vec![a, b];
        let ghost before = self@;
        proof {
            assert(param_dims(before, params@) =~= seq![before[a as int].dim_spec(), before[b as int].dim_spec()]);
        }
        self.compute(id, Op::Add, params)
    }

    /// Adds the cross-entropy (a `1 x 1` value) of the softmax output `s`
    /// against the target `y`; fails when `id` is taken or when `s` and `y`
    /// differ in dimensions.
    pub fn softmax_cross_entropy(&mut self, id: String, s: usize, y: usize) -> (r: Result<usize, TensorError>)
        requires
            old(self).wf(),
            s < old(self)@.len(),
            y < old(self)@.len(),
        ensures
            final(self).wf(),
            r is Ok <==> {
                &&& forall|n: int| 0 <= n < old(self)@.len() ==> #[trigger] old(self)@[n].id_spec() != id@
                &&& old(self)@[s as int].dim_spec() == old(self)@[y as int].dim_spec()
            },
            r matches Ok(h) ==> {
                &&& h == old(self)@.len()
                &&& final(self)@.subrange(0, h as int) == old(self)@
                &&& final(self)@[h as int].dim_spec() == Vec2(1, 1)
                &&& final(self)@[h as int] matches Vertex::Compute(node) && node.op_spec() == Op::SoftmaxCrossEntropy
                    && node.param_spec() == seq![s, y] && node.id_spec() == id@
            },
            r matches Err(e) ==> final(self)@ == old(self)@,
            r matches Err(e) ==> if exists|n: int| 0 <= n < old(self)@.len() && #[trigger] old(self)@[n].id_spec() == id@ {
                e == TensorError::DuplicateId(id)
            } else {
                e is ShapeMismatch
            },
    {
        let params = vec![s, y];
        let ghost before = self@;
        proof {
            assert(param_dims(before, params@) =~= seq![before[s as int].dim_spec(), before[y as int].dim_spec()]);
        }
        self.compute(id, Op::SoftmaxCrossEntropy, params)
    }

    fn unary(&mut self, id: String, op: Op, z: usize) -> (r: Result<usize, TensorError>)
        requires
            old(self).wf(),
            z < old(self)@.len(),
            arity(op) == 1,
        ensures
            final(self).wf(),
            r is Ok <==> forall|n: int| 0 <= n < old(self)@.len() ==> #[trigger] old(self)@[n].id_spec() != id@,
            r matches Ok(h) ==> {
                &&& h == old(self)@.len()
                &&& final(self)@.subrange(0, h as int) == old(self)@
                &&& final(self)@[h as int].dim_spec() == old(self)@[z as int].dim_spec()
                &&& final(self)@[h as int] matches Vertex::Compute(node) && node.op_spec() == op
                    && node.param_spec() == seq![z] && node.id_spec() == id@
            },
            r matches Err(e) ==> final(self)@ == old(self)@,
            r matches Err(e) ==> if exists|n: int| 0 <= n < old(self)@.len() && #[trigger] old(self)@[n].id_spec() == id@ {
                e == TensorError::DuplicateId(id)
            } else {
                e is ShapeMismatch
            },
    {
        let params = vec![z];
        let ghost before = self@;
        proof {
            assert(param_dims(before, params@) =~= seq![before[z as int].dim_spec()]);
        }
        self.compute(id, op, params)
    }

    /// Adds the smooth rectifier of `z`; fails when `id` is taken.
    pub fn relu(&mut self, id: String, z: usize) -> (r: Result<usize, TensorError>)
        requires
            old(self).wf(),
            z < old(self)@.len(),
        ensures
            final(self).wf(),
            r is Ok <==> forall|n: int| 0 <= n < old(self)@.len() ==> #[trigger] old(self)@[n].id_spec() != id@,
            r matches Ok(h) ==> {
                &&& h == old(self)@.len()
                &&& final(self)@.subrange(0, h as int) == old(self)@
                &&& final(self)@[h as int].dim_spec() == old(self)@[z as int].dim_spec()
                &&& final(self)@[h as int] matches Vertex::Compute(node) && node.op_spec() == Op::Relu
                    && node.param_spec() == seq![z] && node.id_spec() == id@
            },
            r matches Err(e) ==> final(self)@ == old(self)@,
            r matches Err(e) ==> e == TensorError::DuplicateId(id),
    {
        self.unary(id, Op::Relu, z)
    }

    /// Adds the logistic function of `z`; fails when `id` is taken.
    pub fn sigmoid(&mut self, id: String, z: usize) -> (r: Result<usize, TensorError>)
        requires
            old(self).wf(),
            z < old(self)@.len(),
        ensures
            final(self).wf(),
            r is Ok <==> forall|n: int| 0 <= n < old(self)@.len() ==> #[trigger] old(self)@[n].id_spec() != id@,
            r matches Ok(h) ==> {
                &&& h == old(self)@.len()
                &&& final(self)@.subrange(0, h as int) == old(self)@
                &&& final(self)@[h as int].dim_spec() == old(self)@[z as int].dim_spec()
                &&& final(self)@[h as int] matches Vertex::Compute(node) && node.op_spec() == Op::Sigmoid
                    && node.param_spec() == seq![z] && node.id_spec() == id@
            },
            r matches Err(e) ==> final(self)@ == old(self)@,
            r matches Err(e) ==> e == TensorError::DuplicateId(id),
    {
        self.unary(id, Op::Sigmoid, z)
    }

    /// Adds the row-wise softmax of `z`; fails when `id` is taken.
    pub fn softmax(&mut self, id: String, z: usize) -> (r: Result<usize, TensorError>)
        requires
            old(self).wf(),
            z < old(self)@.len(),
        ensures
            final(self).wf(),
            r is Ok <==> forall|n: int| 0 <= n < old(self)@.len() ==> #[trigger] old(self)@[n].id_spec() != id@,
            r matches Ok(h) ==> {
                &&& h == old(self)@.len()
                &&& final(self)@.subrange(0, h as int) == old(self)@
                &&& final(self)@[h as int].dim_spec() == old(self)@[z as int].dim_spec()
                &&& final(self)@[h as int] matches Vertex::Compute(node) && node.op_spec() == Op::Softmax
                    && node.param_spec() == seq![z] && node.id_spec() == id@
            },
            r matches Err(e) ==> final(self)@ == old(self)@,
            r matches Err(e) ==> e == TensorError::DuplicateId(id),
    {
        self.unary(id, Op::Softmax, z)
    }
}

} // verus!
