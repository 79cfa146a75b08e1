use vstd::prelude::*;

use crate::math::Vec2;

verus! {

/// What can go wrong while building or evaluating a graph.
#[derive(Debug)]
pub enum TensorError {
    /// Operands whose dimensions do not fit together.
    ShapeMismatch { expected: Vec2, found: Vec2 },
    /// A node was evaluated before its value was bound in a context.
    MissingBinding(String),
    /// An operation was given the wrong number of children.
    WrongArity { needed: usize, given: usize },
    /// A node was added under an id that the graph already holds.
    DuplicateId(String),
}

} // verus!
