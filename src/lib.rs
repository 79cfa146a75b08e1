//! A small automatic-differentiation engine over dense 2-D tensors.
//!
//! - `math`: the matrix kernel, row-major storage with a stride pair.
//! - `tensor`: the values that flow through a graph.
//! - `context`: tensors keyed by vertex id (state, variables, history).
//! - `node`: the graph, an arena of variables, states and compute nodes.
//! - `op`: the operation catalogue and the kernel trait for the
//!   operations that the library leaves to its caller.
//! - `eval`: what evaluating a vertex means, stated over dimensions and
//!   row-major values.
//! - `run`: evaluation and training.
use vstd::prelude::*;

pub mod context;
pub mod error;
pub mod eval;
pub mod math;
pub mod node;
pub mod op;
pub mod run;
pub mod tensor;

pub use context::Context;
pub use error::TensorError;
pub use math::{Matrix, Vec2};
pub use node::{Graph, Node, State, Variable, Vertex};
pub use op::{Kernel, Op};
pub use run::{execute, train};
pub use tensor::Tensor;

verus! {

} // verus!
