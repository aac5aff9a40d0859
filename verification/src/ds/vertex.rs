//! A vertex of a graph with the bookkeeping of a traversal.

use vstd::prelude::*;

verus! {

#[derive(Debug, Clone, Copy, PartialEq, Eq, Structural)]
pub enum VertexState {
    /// The initial state
    Undiscovered,
    /// The vertex that has been discovered but not traverse its all neighbors
    Discovered,
    /// The vertex that has finished visit
    Visited,
}

#[derive(Debug)]
pub struct Vertex<T> {
    data: T,
    /// The status of the vertex
    state: VertexState,
    /// The number of in edges
    in_degree: usize,
    /// The number of out edges
    out_degree: usize,
    /// The time of discovering the vertex
    start_time: i32,
    /// The time of finishing visit the vertex
    end_time: i32,
    /// The parent of the vertex in the traversal tree
    parent: Option<usize>,
    /// The priority of the vertex(less is higher)
    priority: u32,
}

/// Mathematical value of a [`Vertex`].
pub struct VertexView<T> {
    pub data: T,
    pub state: VertexState,
    pub in_degree: nat,
    pub out_degree: nat,
    pub start_time: int,
    pub end_time: int,
    pub parent: Option<usize>,
    pub priority: nat,
}

impl<T> View for Vertex<T> {
    type V = VertexView<T>;

    closed spec fn view(&self) -> VertexView<T> {
        VertexView {
            data: self.data,
            state: self.state,
            in_degree: self.in_degree as nat,
            out_degree: self.out_degree as nat,
            start_time: self.start_time as int,
            end_time: self.end_time as int,
            parent: self.parent,
            priority: self.priority as nat,
        }
    }
}

impl<T> Vertex<T> {
    /// An undiscovered vertex without edges, times or parent, at the lowest priority.
    pub fn new(data: T) -> (v: Self)
        ensures
            v@ == (VertexView {
                data,
                state: VertexState::Undiscovered,
                in_degree: 0,
                out_degree: 0,
                start_time: -1,
                end_time: -1,
                parent: None,
                priority: u32::MAX as nat,
            }),
    {
        Vertex {
            data,
            state: VertexState::Undiscovered,
            in_degree: 0,
            out_degree: 0,
            start_time: -1,
            end_time: -1,
            parent: None,
            priority: u32::MAX,
        }
    }

    pub fn state(&self) -> (state: &VertexState)
        ensures
            *state == self@.state,
    {
        &self.state
    }

    pub fn update_state(&mut self, state: VertexState)
        ensures
            final(self)@ == (VertexView { state, ..old(self)@ }),
    {
        self.state = state;
    }

    pub fn update_parent(&mut self, parent: usize)
        ensures
            final(self)@ == (VertexView { parent: Some(parent), ..old(self)@ }),
    {
        self.parent = Some(parent)
    }
}

} // verus!
