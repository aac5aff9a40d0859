//! The undirected weighted graph under the name it has among the data structures.

use crate::graph::Graph;
use vstd::prelude::*;

verus! {

/// A matrix of weights and the values of the vertices: see [`Graph`].
pub type SimpleGraph<T> = Graph<T>;

} // verus!
