use vstd::prelude::*;

use crate::math::Vec2;
use crate::node::{Graph, Vertex};
use crate::error::TensorError;
use crate::tensor::Tensor;

verus! {

/// The map that a list of `(id, tensor)` entries denotes: a later entry for
/// an id hides an earlier one.
pub open spec fn map_of<T>(entries: Seq<(String, Tensor<T>)>) -> Map<Seq<char>, Tensor<T>>
    decreases entries.len(),
{
    if entries.len() == 0 {
        Map::empty()
    } else {
        map_of(entries.drop_last()).insert(entries.last().0@, entries.last().1)
    }
}

/// No id occurs twice.
pub open spec fn keys_unique<T>(entries: Seq<(String, Tensor<T>)>) -> bool {
    forall|a: int, b: int|
        0 <= a < b < entries.len() ==> #[trigger] entries[a].0@ != #[trigger] entries[b].0@
}

proof fn lemma_map_of_domain<T>(entries: Seq<(String, Tensor<T>)>, k: Seq<char>)
    ensures
        map_of(entries).contains_key(k) <==> exists|i: int| 0 <= i < entries.len() && #[trigger] entries[i].0@ == k,
    decreases entries.len(),
{
    if entries.len() > 0 {
        let init = entries.drop_last();
        lemma_map_of_domain(init, k);
        if map_of(init).contains_key(k) {
            let i = choose|i: int| 0 <= i < init.len() && #[trigger] init[i].0@ == k;
            assert(entries[i].0@ == k);
        }
        if exists|i: int| 0 <= i < entries.len() && #[trigger] entries[i].0@ == k {
            let i = choose|i: int| 0 <= i < entries.len() && #[trigger] entries[i].0@ == k;
            if i < entries.len() - 1 {
                assert(init[i].0@ == k);
            }
        }
    }
}

proof fn lemma_map_of_value<T>(entries: Seq<(String, Tensor<T>)>, i: int)
    requires
        keys_unique(entries),
        0 <= i < entries.len(),
    ensures
        map_of(entries).contains_key(entries[i].0@),
        map_of(entries)[entries[i].0@] == entries[i].1,
    decreases entries.len(),
{
    let init = entries.drop_last();
    if i < entries.len() - 1 {
        assert(keys_unique(init)) by {
            assert forall|a: int, b: int| 0 <= a < b < init.len() implies #[trigger] init[a].0@ != #[trigger] init[b].0@ by {
                assert(init[a] == entries[a] && init[b] == entries[b]);
            }
        }
        assert(init[i] == entries[i]);
        lemma_map_of_value(init, i);
        assert(entries[i].0@ != entries.last().0@);
    }
}

/// A store of tensors keyed by node id. The same type serves as the
/// trainable state, as the externally fed variables and as the history
/// of a training pass.
pub struct Context<T> {
    entries: Vec<(String, Tensor<T>)>,
}

impl<T> View for Context<T> {
    type V = Map<Seq<char>, Tensor<T>>;

    closed spec fn view(&self) -> Map<Seq<char>, Tensor<T>> {
        map_of(self.entries@)
    }
}

impl<T> Context<T> {
    /// Ids are unique and every tensor is well formed.
    pub closed spec fn wf(&self) -> bool {
        &&& keys_unique(self.entries@)
        &&& forall|i: int| 0 <= i < self.entries@.len() ==> (#[trigger] self.entries@[i]).1.wf()
    }

    /// Every tensor of a well-formed context is well formed.
    pub proof fn lemma_values_wf(&self, k: Seq<char>)
        requires
            self.wf(),
            self@.contains_key(k),
        ensures
            self@[k].wf(),
    {
        lemma_map_of_domain(self.entries@, k);
        let i = choose|i: int| 0 <= i < self.entries@.len() && #[trigger] self.entries@[i].0@ == k;
        lemma_map_of_value(self.entries@, i);
    }

    /// An empty context.
    pub fn new() -> (r: Context<T>)
        ensures
            r.wf(),
            r@ == Map::<Seq<char>, Tensor<T>>::empty(),
    {
        Context { entries: Vec::new() }
    }

    /// An empty context with room for `size` entries.
    pub fn with_capacity(size: usize) -> (r: Context<T>)
        ensures
            r.wf(),
            r@ == Map::<Seq<char>, Tensor<T>>::empty(),
    {
        Context { entries: Vec::with_capacity(size) }
    }

    fn position(&self, nodeid: &String) -> (r: Option<usize>)
        requires
            self.wf(),
        ensures
            r is None <==> !self@.contains_key(nodeid@),
            r matches Some(i) ==> i < self.entries@.len() && self.entries@[i as int].0@ == nodeid@,
    {
        proof {
            lemma_map_of_domain(self.entries@, nodeid@);
        }
        let mut i: usize = 0;
        while i < self.entries.len()
            invariant
                i <= self.entries@.len(),
                forall|j: int| 0 <= j < i ==> #[trigger] self.entries@[j].0@ != nodeid@,
            decreases self.entries@.len() - i,
        {
            if self.entries[i].0.eq(nodeid) {
                proof {
                    lemma_map_of_domain(self.entries@, nodeid@);
                    assert(self.entries@[i as int].0@ == nodeid@);
                    assert(map_of(self.entries@).contains_key(nodeid@));
                    assert(self@ == map_of(self.entries@));
                }
                return Some(i);
            }
            i = i + 1;
        }
        None
    }

    /// The tensor bound to `nodeid`, or `None` when it was never set.
    pub fn get(&self, nodeid: &String) -> (r: Option<&Tensor<T>>)
        requires
            self.wf(),
        ensures
            r is Some <==> self@.contains_key(nodeid@),
            r matches Some(t) ==> *t == self@[nodeid@] && t.wf(),
    {
        match self.position(nodeid) {
            Some(i) => {
                proof {
                    lemma_map_of_value(self.entries@, i as int);
                }
                Some(&self.entries[i].1)
            },
            None => None,
        }
    }

    /// Binds `tensor` to `nodeid`, replacing what was bound before.
    pub fn set(&mut self, nodeid: String, tensor: Tensor<T>)
        requires
            old(self).wf(),
            tensor.wf(),
        ensures
            final(self).wf(),
            final(self)@ == old(self)@.insert(nodeid@, tensor),
    {
        let ghost k = nodeid@;
        match self.position(&nodeid) {
            Some(i) => {
                let ghost before = self.entries@;
                self.entries.set(i, (nodeid, tensor));
                proof {
                    let after = self.entries@;
                    assert(keys_unique(after)) by {
                        assert forall|a: int, b: int| 0 <= a < b < after.len() implies #[trigger] after[a].0@ != #[trigger] after[b].0@ by {
                            assert(before[a].0@ != before[b].0@);
                        }
                    }
                    assert forall|key: Seq<char>| #[trigger] map_of(after).contains_key(key) <==> before.len() >= 0 && map_of(before).insert(k, tensor).contains_key(key) by {
                        lemma_map_of_domain(after, key);
                        lemma_map_of_domain(before, key);
                        if exists|j: int| 0 <= j < before.len() && #[trigger] before[j].0@ == key {
                            let j = choose|j: int| 0 <= j < before.len() && #[trigger] before[j].0@ == key;
                            if j != i {
                                assert(after[j].0@ == key);
                            } else {
                                assert(after[j].0@ == key);
                            }
                        }
                        if exists|j: int| 0 <= j < after.len() && #[trigger] after[j].0@ == key {
                            let j = choose|j: int| 0 <= j < after.len() && #[trigger] after[j].0@ == key;
                            if j != i {
                                assert(before[j].0@ == key);
                            }
                        }
                    }
                    assert forall|key: Seq<char>| #[trigger] map_of(after).contains_key(key) implies map_of(after)[key] == map_of(before).insert(k, tensor)[key] by {
                        lemma_map_of_domain(after, key);
                        let j = choose|j: int| 0 <= j < after.len() && #[trigger] after[j].0@ == key;
                        lemma_map_of_value(after, j);
                        if j != i {
                            lemma_map_of_value(before, j);
                        }
                    }
                    assert(map_of(after) =~= map_of(before).insert(k, tensor));
                }
            },
            None => {
                let ghost before = self.entries@;
                self.entries.push((nodeid, tensor));
                proof {
                    let after = self.entries@;
                    assert(after.drop_last() =~= before);
                    lemma_map_of_domain(before, k);
                    assert(keys_unique(after)) by {
                        assert forall|a: int, b: int| 0 <= a < b < after.len() implies #[trigger] after[a].0@ != #[trigger] after[b].0@ by {
                            if b == after.len() - 1 {
                                assert(before[a].0@ == after[a].0@);
                            } else {
                                assert(before[a].0@ != before[b].0@);
                            }
                        }
                    }
                }
            },
        }
    }
}

/// A value of dimensions `actual` may be bound to a vertex declared with
/// `declared`: the columns agree, and so do the rows unless the declared
/// row count is 0, which leaves the batch size open.
pub open spec fn dims_fit(declared: Vec2, actual: Vec2) -> bool {
    &&& declared.0 == 0 || declared.0 == actual.0
    &&& declared.1 == actual.1
}

/// The map that binding each `(vertex, tensor)` pair in turn produces.
pub open spec fn bindings<T>(vs: Seq<Vertex>, pairs: Seq<(usize, Tensor<T>)>) -> Map<Seq<char>, Tensor<T>>
    decreases pairs.len(),
{
    if pairs.len() == 0 {
        Map::empty()
    } else {
        bindings(vs, pairs.drop_last()).insert(vs[pairs.last().0 as int].id_spec(), pairs.last().1)
    }
}

impl<T: Copy> Context<T> {
    /// A context that binds each tensor to the id of its vertex; fails when
    /// a tensor's dimensions do not fit its vertex.
    pub fn from_vec(graph: &Graph, context_vec: Vec<(usize, Tensor<T>)>) -> (r: Result<Context<T>, TensorError>)
        requires
            forall|k: int| 0 <= k < context_vec@.len() ==> #[trigger] context_vec@[k].0 < graph@.len(),
        ensures
            r is Ok <==> forall|k: int|
                0 <= k < context_vec@.len() ==> #[trigger] dims_fit(
                    graph@[context_vec@[k].0 as int].dim_spec(),
                    context_vec@[k].1.dim_spec(),
                ),
            r matches Ok(c) ==> c.wf() && c@ == bindings(graph@, context_vec@),
    {
        let ghost pairs = context_vec@;
        let mut rest = context_vec;
        let total = rest.len();
        let mut context_map: Context<T> = Context::with_capacity(rest.len());
        let mut k: usize = 0;
        while rest.len() > 0
            invariant
                forall|k: int| 0 <= k < pairs.len() ==> #[trigger] pairs[k].0 < graph@.len(),
                k <= pairs.len(),
                total == pairs.len(),
                pairs == context_vec@,
                rest@ == pairs.subrange(k as int, pairs.len() as int),
                context_map.wf(),
                context_map@ == bindings(graph@, pairs.subrange(0, k as int)),
                forall|j: int| 0 <= j < k ==> #[trigger] dims_fit(graph@[pairs[j].0 as int].dim_spec(), pairs[j].1.dim_spec()),
            decreases rest@.len(),
        {
            let (node, batch) = rest.remove(0);
            proof {
                assert(pairs[k as int] == (node, batch));
            }
            let declared = graph.get_dim(node);
            let actual = batch.dim();
            if !((declared.0 == 0 || declared.0 == actual.0) && declared.1 == actual.1) {
                proof {
                    assert(!dims_fit(graph@[pairs[k as int].0 as int].dim_spec(), pairs[k as int].1.dim_spec()));
                }
                return Err(TensorError::ShapeMismatch { expected: declared, found: actual });
            }
            let id = graph.get_id(node);
            context_map.set(id, batch);
            proof {
                let pre = pairs.subrange(0, k as int);
                let post = pairs.subrange(0, k + 1);
                assert(post.drop_last() =~= pre);
                assert(rest@ =~= pairs.subrange(k + 1, pairs.len() as int));
            }
            k = k + 1;
        }
        assert(pairs.subrange(0, k as int) =~= pairs);
        Ok(context_map)
    }
}

/// Binding a tensor and reading it back gives that tensor, and an id that
/// was never bound stays absent.
pub proof fn lemma_round_trip<T>(before: Context<T>, after: Context<T>, id: Seq<char>, t: Tensor<T>, unknown: Seq<char>)
    requires
        after@ == before@.insert(id, t),
    ensures
        after@.contains_key(id),
        after@[id] == t,
        unknown != id && !before@.contains_key(unknown) ==> !after@.contains_key(unknown),
{
}

} // verus!
