//! An edge of a graph with the bookkeeping of a traversal.

use vstd::prelude::*;

verus! {

#[derive(Debug, Clone, Copy, PartialEq, Eq, Structural)]
pub enum EdgeState {
    /// The edge in initial state
    Undetermined,
    /// The edge in the traversal tree
    Tree,
    /// The edge between two different branches
    Cross,
    /// The edge from child to ancestor
    Forward,
    /// The edge from ancestor to child
    Backward,
}

#[derive(Debug)]
pub struct Edge<T> {
    data: T,
    /// The weight of edge
    weight: u32,
    /// The status of edge
    state: EdgeState,
}

/// Mathematical value of an [`Edge`].
pub struct EdgeView<T> {
    pub data: T,
    pub weight: u32,
    pub state: EdgeState,
}

impl<T> View for Edge<T> {
    type V = EdgeView<T>;

    closed spec fn view(&self) -> EdgeView<T> {
        EdgeView { data: self.data, weight: self.weight, state: self.state }
    }
}

impl<T> Edge<T> {
    /// An edge of the given weight whose state is not determined yet.
    pub fn new(data: T, weight: u32) -> (e: Self)
        ensures
            e@ == (EdgeView { data, weight, state: EdgeState::Undetermined }),
    {
        Self { data, state: EdgeState::Undetermined, weight }
    }

    pub fn state(&self) -> (state: &EdgeState)
        ensures
            *state == self@.state,
    {
        &self.state
    }

    pub fn update_state(&mut self, state: EdgeState)
        ensures
            final(self)@ == (EdgeView { state, ..old(self)@ }),
    {
        self.state = state;
    }
}

impl<T: Default> Default for Edge<T> {
    /// An undetermined edge of weight one.
    fn default() -> (e: Self)
        ensures
            e@.weight == 1,
            e@.state == EdgeState::Undetermined,
    {
        Self::new(T::default(), 1)
    }
}

} // verus!
