//! A graph kept as a vector of vertices and a matrix of optional edges.

use crate::ds::edge::{Edge, EdgeState, EdgeView};
use crate::ds::vertex::{Vertex, VertexState, VertexView};
use std::collections::VecDeque;
use vstd::prelude::*;

verus! {

pub trait Graph {
    /// Whether the graph can take an edge from `v1` to `v2`.
    spec fn has_slot(&self, v1: usize, v2: usize) -> bool;

    /// Whether an edge leads from `v1` to `v2`.
    spec fn has_edge(&self, v1: usize, v2: usize) -> bool;

    /// Whether a traversal can start at `v`.
    spec fn can_start(&self, v: usize) -> bool;

    /// Whether `v` counts as discovered.
    spec fn is_discovered(&self, v: usize) -> bool;

    fn connect_edge(&mut self, v1: usize, v2: usize)
        requires
            old(self).has_slot(v1, v2),
        ensures
            final(self).has_edge(v1, v2),
    ;

    fn bfs(&mut self, v: usize)
        requires
            old(self).can_start(v),
        ensures
            final(self).is_discovered(v),
    ;
}

#[derive(Debug)]
pub struct GraphMatrix<V, E> {
    vertices: Vec<Vertex<V>>,
    edges: Vec<Vec<Option<Edge<E>>>>,
    n: usize,
    e: usize,
}

/// Mathematical value of a [`GraphMatrix`].
pub struct GraphMatrixView<V, E> {
    pub vertices: Seq<VertexView<V>>,
    pub edges: Seq<Seq<Option<EdgeView<E>>>>,
    pub n: nat,
    pub e: nat,
}

impl<V, E> GraphMatrixView<V, E> {
    /// Whether row `v1` has a column `v2`.
    pub open spec fn in_matrix(self, v1: int, v2: int) -> bool {
        0 <= v1 < self.edges.len() && 0 <= v2 < self.edges[v1].len()
    }

    /// Whether an edge leads from `v1` to `v2`.
    pub open spec fn linked(self, v1: int, v2: int) -> bool {
        self.in_matrix(v1, v2) && self.edges[v1][v2] is Some
    }

    /// The value with the cell from `v1` to `v2` replaced.
    pub open spec fn with_cell(self, v1: int, v2: int, cell: Option<EdgeView<E>>) -> Self {
        GraphMatrixView { edges: self.edges.update(v1, self.edges[v1].update(v2, cell)), ..self }
    }

    /// The value with vertex `v` replaced.
    pub open spec fn with_vertex(self, v: int, vertex: VertexView<V>) -> Self {
        GraphMatrixView { vertices: self.vertices.update(v, vertex), ..self }
    }
}

impl<V, E> View for GraphMatrix<V, E> {
    type V = GraphMatrixView<V, E>;

    closed spec fn view(&self) -> GraphMatrixView<V, E> {
        GraphMatrixView {
            vertices: Seq::new(self.vertices@.len(), |i: int| self.vertices@[i]@),
            edges: Seq::new(
                self.edges@.len(),
                |i: int|
                    Seq::new(
                        self.edges@[i]@.len(),
                        |j: int|
                            match self.edges@[i]@[j] {
                                Some(e) => Some(e@),
                                None => None,
                            },
                    ),
            ),
            n: self.n as nat,
            e: self.e as nat,
        }
    }
}

impl<V, E> Default for GraphMatrix<V, E> {
    /// A graph without vertices.
    fn default() -> (g: Self)
        ensures
            g@.vertices.len() == 0,
            g@.edges.len() == 0,
            g@.n == 0,
            g@.e == 0,
    {
        Self { vertices: Vec::new(), edges: Vec::new(), n: 0, e: 0 }
    }
}

impl<V, E> GraphMatrix<V, E> {
    /// The numbers of vertices and of edges.
    pub fn size(&self) -> (size: (usize, usize))
        ensures
            size.0 == self@.n,
            size.1 == self@.e,
    {
        (self.n, self.e)
    }

    /// The neighbour of `v` with the largest index.
    pub fn first_neighbor(&self, v: usize) -> (next: Option<usize>)
        requires
            v < self@.edges.len(),
        ensures
            next matches Some(i) ==> i < self@.n && self@.linked(v as int, i as int),
            next matches Some(i) ==> forall|j: int| i < j < self@.n ==> !self@.linked(v as int, j),
            next is None ==> forall|j: int| 0 <= j < self@.n ==> !self@.linked(v as int, j),
    {
        self.next_neighbor(v, self.n)
    }

    /// The neighbour of `v` with the largest index below `previous`.
    pub fn next_neighbor(&self, v: usize, previous: usize) -> (next: Option<usize>)
        requires
            v < self@.edges.len(),
        ensures
            next matches Some(i) ==> i < previous && self@.linked(v as int, i as int),
            next matches Some(i) ==> forall|j: int| i < j < previous ==> !self@.linked(v as int, j),
            next is None ==> forall|j: int| 0 <= j < previous ==> !self@.linked(v as int, j),
    {
        let row = &self.edges[v];
        let mut i: usize = if previous < row.len() {
            previous
        } else {
            row.len()
        };
        while i > 0
            invariant
                v < self.edges@.len(),
                row == &self.edges@[v as int],
                i <= previous,
                i <= row@.len(),
                forall|j: int| i <= j < previous ==> !self@.linked(v as int, j),
            decreases i,
        {
            i -= 1;
            if row[i].is_some() {
                return Some(i);
            }
        }
        None
    }

    pub fn is_exist_edge(&self, v1: usize, v2: usize) -> (exists: bool)
        requires
            self@.in_matrix(v1 as int, v2 as int),
        ensures
            exists == self@.linked(v1 as int, v2 as int),
    {
        self.edges[v1][v2].is_some()
    }

    pub fn get_vertex_ref(&self, v: usize) -> (vertex: &Vertex<V>)
        requires
            v < self@.vertices.len(),
        ensures
            vertex@ == self@.vertices[v as int],
    {
        &self.vertices[v]
    }

    pub fn get_vertex_state(&self, v: usize) -> (state: &VertexState)
        requires
            v < self@.vertices.len(),
        ensures
            *state == self@.vertices[v as int].state,
    {
        self.get_vertex_ref(v).state()
    }

    pub fn update_vertex_state(&mut self, v: usize, state: VertexState)
        requires
            v < old(self)@.vertices.len(),
        ensures
            final(self)@ == old(self)@.with_vertex(
                v as int,
                VertexView { state, ..old(self)@.vertices[v as int] },
            ),
    {
        self.vertices[v].update_state(state);
        assert(self@.vertices =~= old(self)@.with_vertex(
            v as int,
            VertexView { state, ..old(self)@.vertices[v as int] },
        ).vertices);
        assert(self@.edges =~= old(self)@.edges);
    }

    pub fn update_vertex_parent(&mut self, v: usize, parent: usize)
        requires
            v < old(self)@.vertices.len(),
        ensures
            final(self)@ == old(self)@.with_vertex(
                v as int,
                VertexView { parent: Some(parent), ..old(self)@.vertices[v as int] },
            ),
    {
        self.vertices[v].update_parent(parent);
        assert(self@.vertices =~= old(self)@.with_vertex(
            v as int,
            VertexView { parent: Some(parent), ..old(self)@.vertices[v as int] },
        ).vertices);
        assert(self@.edges =~= old(self)@.edges);
    }

    pub fn get_edge_ref(&self, v1: usize, v2: usize) -> (edge: Option<&Edge<E>>)
        requires
            self@.in_matrix(v1 as int, v2 as int),
        ensures
            edge is Some == self@.linked(v1 as int, v2 as int),
            edge matches Some(e) ==> Some(e@) == self@.edges[v1 as int][v2 as int],
    {
        self.edges[v1][v2].as_ref()
    }

    pub fn get_edge_state(&self, v1: usize, v2: usize) -> (state: Option<&EdgeState>)
        requires
            self@.in_matrix(v1 as int, v2 as int),
        ensures
            state is Some == self@.linked(v1 as int, v2 as int),
            state matches Some(s) ==> *s == self@.edges[v1 as int][v2 as int]->0.state,
    {
        if let Some(e) = self.get_edge_ref(v1, v2) {
            Some(e.state())
        } else {
            None
        }
    }

    /// Sets the state of the edge from `v1` to `v2`. Nothing changes where there is none.
    pub fn update_edge_state(&mut self, v1: usize, v2: usize, state: EdgeState)
        requires
            old(self)@.in_matrix(v1 as int, v2 as int),
        ensures
            final(self)@ == if old(self)@.linked(v1 as int, v2 as int) {
                old(self)@.with_cell(
                    v1 as int,
                    v2 as int,
                    Some(EdgeView { state, ..old(self)@.edges[v1 as int][v2 as int]->0 }),
                )
            } else {
                old(self)@
            },
    {
        let cell = self.edges[v1].remove(v2);
        let cell = match cell {
            Some(mut e) => {
                e.update_state(state);
                Some(e)
            },
            None => None,
        };
        self.edges[v1].insert(v2, cell);
        proof {
            let goal = if old(self)@.linked(v1 as int, v2 as int) {
                old(self)@.with_cell(
                    v1 as int,
                    v2 as int,
                    Some(EdgeView { state, ..old(self)@.edges[v1 as int][v2 as int]->0 }),
                )
            } else {
                old(self)@
            };
            assert(self.edges@[v1 as int]@ =~= old(self).edges@[v1 as int]@.update(v2 as int, cell));
            assert(self@.vertices =~= goal.vertices);
            assert(self@.edges.len() == goal.edges.len());
            assert forall|i: int| 0 <= i < self@.edges.len() implies self@.edges[i] =~= goal.edges[i] by {
                if i != v1 {
                    assert(self.edges@[i] == old(self).edges@[i]);
                }
            }
            assert(self@.edges =~= goal.edges);
        }
    }
}

impl<V, E> GraphMatrix<V, E> {
    pub fn get_vertex_mut(&mut self, v: usize) -> (vertex: &mut Vertex<V>)
        requires
            v < old(self)@.vertices.len(),
        ensures
            vertex@ == old(self)@.vertices[v as int],
            final(self)@.vertices == old(self)@.vertices.update(v as int, final(vertex)@),
            final(self)@.edges == old(self)@.edges,
            final(self)@.n == old(self)@.n,
            final(self)@.e == old(self)@.e,
    {
        &mut self.vertices[v]
    }

    pub fn get_edge_mut(&mut self, v1: usize, v2: usize) -> (edge: Option<&mut Edge<E>>)
        requires
            old(self)@.in_matrix(v1 as int, v2 as int),
        ensures
            edge is Some == old(self)@.linked(v1 as int, v2 as int),
            edge matches Some(e) ==> Some(e@) == old(self)@.edges[v1 as int][v2 as int],
            final(self)@.vertices == old(self)@.vertices,
            final(self)@.n == old(self)@.n,
            final(self)@.e == old(self)@.e,
            final(self)@.edges.len() == old(self)@.edges.len(),
            forall|i: int|
                0 <= i < old(self)@.edges.len() ==> (#[trigger] final(self)@.edges[i]).len() == old(self)@.edges[i].len(),
            forall|i: int, j: int|
                old(self)@.in_matrix(i, j) && !(i == v1 && j == v2) ==> #[trigger] final(self)@.edges[i][j] == old(self)@.edges[i][j],
            edge is None ==> final(self)@.edges[v1 as int][v2 as int] is None,
            edge matches Some(e) ==> final(self)@.edges[v1 as int][v2 as int] == Some(final(e)@),
    {
        self.edges[v1][v2].as_mut()
    }
}

impl<V, E: Default> Graph for GraphMatrix<V, E> {
    open spec fn has_slot(&self, v1: usize, v2: usize) -> bool {
        self@.in_matrix(v1 as int, v2 as int)
    }

    open spec fn has_edge(&self, v1: usize, v2: usize) -> bool {
        self@.linked(v1 as int, v2 as int)
    }

    /// A traversal starts at a vertex of the graph that has no neighbour.
    open spec fn can_start(&self, v: usize) -> bool {
        &&& v < self@.vertices.len()
        &&& v < self@.edges.len()
        &&& forall|j: int| 0 <= j < self@.n ==> !self@.linked(v as int, j)
    }

    open spec fn is_discovered(&self, v: usize) -> bool {
        v < self@.vertices.len() && self@.vertices[v as int].state == VertexState::Discovered
    }

    /// Puts a default edge, of weight one and undetermined, from `v1` to `v2`.
    fn connect_edge(&mut self, v1: usize, v2: usize)
        ensures
            final(self)@.vertices == old(self)@.vertices,
            final(self)@.n == old(self)@.n,
            final(self)@.e == old(self)@.e,
            final(self)@.edges.len() == old(self)@.edges.len(),
            forall|i: int|
                0 <= i < old(self)@.edges.len() && i != v1 ==> final(self)@.edges[i] == old(self)@.edges[i],
            final(self)@.edges[v1 as int].len() == old(self)@.edges[v1 as int].len(),
            forall|j: int|
                0 <= j < old(self)@.edges[v1 as int].len() && j != v2 ==> final(self)@.edges[v1 as int][j] == old(self)@.edges[v1 as int][j],
            final(self)@.edges[v1 as int][v2 as int] matches Some(e) && e.weight == 1 && e.state
                == EdgeState::Undetermined,
    {
        let fresh: Edge<E> = Edge::default();
        let _ = self.edges[v1].remove(v2);
        self.edges[v1].insert(v2, Some(fresh));
        proof {
            assert(self.edges@[v1 as int]@ =~= old(self).edges@[v1 as int]@.update(
                v2 as int,
                Some(fresh),
            ));
            assert(self@.vertices =~= old(self)@.vertices);
            assert forall|i: int|
                0 <= i < old(self)@.edges.len() && i != v1 implies self@.edges[i] == old(self)@.edges[i] by {
                assert(self.edges@[i] == old(self).edges@[i]);
                assert(self@.edges[i] =~= old(self)@.edges[i]);
            }
        }
    }

    /// Breadth-first traversal from `v`: the start vertex is marked as discovered.
    fn bfs(&mut self, v: usize)
        ensures
            final(self)@ == old(self)@.with_vertex(
                v as int,
                VertexView { state: VertexState::Discovered, ..old(self)@.vertices[v as int] },
            ),
    {
        let mut queue: VecDeque<usize> = VecDeque::new();
        self.update_vertex_state(v, VertexState::Discovered);
        queue.push_back(v);
        let ghost goal = self@;
        assert forall|j: int| 0 <= j < goal.n implies !goal.linked(v as int, j) by {
            assert(!old(self)@.linked(v as int, j));
        }
        loop
            invariant
                self@ == goal,
                v < goal.vertices.len(),
                v < goal.edges.len(),
                goal.vertices[v as int].state == VertexState::Discovered,
                forall|j: int| 0 <= j < goal.n ==> !goal.linked(v as int, j),
                queue@.len() <= 1,
                forall|k: int| 0 <= k < queue@.len() ==> queue@[k] == v,
            decreases queue@.len(),
        {
            let curr = match queue.pop_back() {
                Some(curr) => curr,
                None => {
                    break ;
                },
            };
            let neighbor = self.n;
            let ghost waiting = queue@;
            loop
                invariant
                    self@ == goal,
                    queue@ == waiting,
                    neighbor == goal.n,
                    v < goal.edges.len(),
                    forall|j: int| 0 <= j < goal.n ==> !goal.linked(v as int, j),
                decreases 0nat,
            {
                let next = match self.next_neighbor(v, neighbor) {
                    Some(next) => next,
                    None => {
                        break ;
                    },
                };
                assert(false);
                if *self.get_vertex_state(next) == VertexState::Undiscovered {
                    self.update_vertex_state(next, VertexState::Discovered);
                    self.update_edge_state(neighbor, next, EdgeState::Tree);
                    self.update_vertex_parent(next, neighbor);
                    queue.push_back(next);
                } else {
                    self.update_edge_state(neighbor, next, EdgeState::Cross);
                }
            }
            self.update_vertex_state(curr, VertexState::Discovered);
            assert(self@.vertices =~= goal.vertices);
        }
    }
}

} // verus!
