//! Data structures.

pub mod circular_queue;
pub mod dsu;
pub mod edge;
pub mod graph_matrix;
pub mod list;
pub mod simple_graph;
pub mod tree;
pub mod vertex;
