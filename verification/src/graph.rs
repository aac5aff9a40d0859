//! An undirected weighted graph: a matrix of weights and the values of its vertices.

use std::collections::BTreeMap;
use vstd::prelude::*;
use vstd::std_specs::iter::IteratorSpec;
use vstd::string::StringExecFns;

verus! {

broadcast use {vstd::laws_cmp::group_laws_cmp, vstd::std_specs::btree::group_btree_axioms};

pub struct Graph<T> {
    pub matrix: Vec<Vec<Option<usize>>>,
    pub nodes: BTreeMap<usize, Option<T>>,
}

/// The matrix as a sequence of rows.
pub open spec fn rows_of(matrix: Seq<Vec<Option<usize>>>) -> Seq<Seq<Option<usize>>> {
    Seq::new(matrix.len(), |i: int| matrix[i]@)
}

/// A row with empty cells added up to the length `n`.
pub open spec fn padded(row: Seq<Option<usize>>, n: int) -> Seq<Option<usize>> {
    if row.len() >= n {
        row
    } else {
        row + Seq::new((n - row.len()) as nat, |k: int| None::<usize>)
    }
}

/// A matrix grown to `n`: it has at least `n` rows, and each of the first `n` rows has
/// at least `n` cells. Nothing that was there changes.
pub open spec fn grown(rows: Seq<Seq<Option<usize>>>, n: int) -> Seq<Seq<Option<usize>>> {
    Seq::new(
        if rows.len() >= n {
            rows.len()
        } else {
            n as nat
        },
        |i: int|
            if i < n {
                padded(
                    if i < rows.len() {
                        rows[i]
                    } else {
                        Seq::empty()
                    },
                    n,
                )
            } else {
                rows[i]
            },
    )
}

/// The matrix with the cells from `a` to `b` and from `b` to `a` set to `cell`.
pub open spec fn linked(rows: Seq<Seq<Option<usize>>>, a: int, b: int, cell: Option<usize>) -> Seq<
    Seq<Option<usize>>,
> {
    let first = rows.update(a, rows[a].update(b, cell));
    first.update(b, first[b].update(a, cell))
}

/// The matrix with all edges between `index` and the vertices below `upto` removed.
pub open spec fn unlinked(rows: Seq<Seq<Option<usize>>>, index: int, upto: int) -> Seq<
    Seq<Option<usize>>,
>
    decreases upto,
{
    if upto <= 0 {
        rows
    } else {
        linked(unlinked(rows, index, upto - 1), upto - 1, index, None)
    }
}

/// The largest key of the map, zero for an empty map.
pub open spec fn is_max_key<V>(nodes: Map<usize, V>, key: usize) -> bool {
    if nodes.dom().len() == 0 {
        key == 0
    } else {
        nodes.contains_key(key) && forall|k: usize| nodes.contains_key(k) ==> k <= key
    }
}

/// `format!("{:<2}", x)`: the decimal digits of `x`, with a space behind a single digit.
pub uninterp spec fn left_aligned(x: usize) -> Seq<char>;

/// The `format!` macro with `{:<2}`: the number in decimal, left-aligned in a field of
/// two characters.
#[verifier::external_body]
fn left_align(x: usize) -> (text: String)
    ensures
        text@ == left_aligned(x),
{
    format!("{:<2}", x)
}

/// The text of one cell: the weight, or a dot for no edge, in a field of two characters.
pub open spec fn cell_text(cell: Option<usize>) -> Seq<char> {
    match cell {
        Some(e) => left_aligned(e),
        None => seq!['.', ' '],
    }
}

/// The header: two spaces and the numbers from zero below `n`.
pub open spec fn header_text(n: int) -> Seq<char>
    decreases n,
{
    if n <= 0 {
        seq![' ', ' ']
    } else {
        header_text(n - 1) + left_aligned((n - 1) as usize)
    }
}

/// The first `n` cells of a row.
pub open spec fn cells_text(row: Seq<Option<usize>>, n: int) -> Seq<char>
    decreases n,
{
    if n <= 0 {
        Seq::empty()
    } else {
        cells_text(row, n - 1) + cell_text(row[n - 1])
    }
}

/// The first `n` rows, each on a line of its own behind its number, with their first
/// `width` cells.
pub open spec fn rows_text(rows: Seq<Seq<Option<usize>>>, n: int, width: int) -> Seq<char>
    decreases n,
{
    if n <= 0 {
        Seq::empty()
    } else {
        rows_text(rows, n - 1, width) + seq!['\n'] + left_aligned((n - 1) as usize) + cells_text(
            rows[n - 1],
            width,
        )
    }
}

impl<T> Graph<T> {
    /// The rows of the matrix.
    pub open spec fn rows(&self) -> Seq<Seq<Option<usize>>> {
        rows_of(self.matrix@)
    }

    /// The invariant: every row is at least as long as the matrix has rows, and the
    /// matrix has a row for every vertex.
    pub open spec fn wf(&self) -> bool {
        &&& forall|i: int| 0 <= i < self.rows().len() ==> (#[trigger] self.rows()[i]).len() >= self.rows().len()
        &&& forall|k: usize| #[trigger] self.nodes@.contains_key(k) ==> k < self.rows().len()
    }
}

/// The keys below `n`.
pub open spec fn keys_below(n: nat) -> Set<usize> {
    Set::new(|k: usize| k < n)
}

/// There are `n` keys below `n`.
pub proof fn lemma_keys_below(n: nat)
    requires
        n <= usize::MAX,
    ensures
        keys_below(n).finite(),
        keys_below(n).len() == n,
    decreases n,
{
    if n == 0 {
        assert(keys_below(0) =~= Set::<usize>::empty());
    } else {
        lemma_keys_below((n - 1) as nat);
        assert(keys_below(n) =~= keys_below((n - 1) as nat).insert((n - 1) as usize));
    }
}

impl<T: Ord> Graph<T> {
    /// A graph without a vertex.
    pub fn new() -> (graph: Self)
        ensures
            graph.wf(),
            graph.rows().len() == 0,
            graph.nodes@ == Map::<usize, Option<T>>::empty(),
    {
        Self { matrix: Vec::new(), nodes: BTreeMap::new() }
    }

    pub fn contains(&self, index: usize) -> (held: bool)
        ensures
            held == self.nodes@.contains_key(index),
    {
        self.nodes.contains_key(&index)
    }

    pub fn is_empty(&self) -> (empty: bool)
        ensures
            empty == (self.nodes@.dom().len() == 0),
    {
        self.len() == 0
    }

    pub fn len(&self) -> (n: usize)
        ensures
            n == self.nodes@.dom().len(),
    {
        self.nodes.len()
    }

    /// Puts a vertex without a value at `index`. The matrix grows to `new_len` where the
    /// graph holds no more than `index` vertices.
    pub fn insert_none(&mut self, index: usize, new_len: usize)
        ensures
            old(self).wf() && index < new_len ==> final(self).wf(),
            final(self).nodes@ == old(self).nodes@.insert(index, None),
            final(self).rows() == if old(self).nodes@.dom().len() > index {
                old(self).rows()
            } else {
                grown(old(self).rows(), new_len as int)
            },
    {
        let rows = self.matrix.len();
        self.may_expand(index, new_len);
        self.nodes.insert(index, None);
        proof {
            assert(old(self).rows().len() == rows);
            if old(self).wf() && index < new_len {
                Self::lemma_insert_keeps_wf(old(self), self, index, None, new_len);
            }
        }
    }

    /// Puts a vertex with a value at `index`. The matrix grows to `new_len` where the
    /// graph holds no more than `index` vertices.
    pub fn insert_value(&mut self, index: usize, value: T, new_len: usize)
        ensures
            old(self).wf() && index < new_len ==> final(self).wf(),
            final(self).nodes@ == old(self).nodes@.insert(index, Some(value)),
            final(self).rows() == if old(self).nodes@.dom().len() > index {
                old(self).rows()
            } else {
                grown(old(self).rows(), new_len as int)
            },
    {
        let rows = self.matrix.len();
        self.may_expand(index, new_len);
        self.nodes.insert(index, Some(value));
        proof {
            assert(old(self).rows().len() == rows);
            if old(self).wf() && index < new_len {
                Self::lemma_insert_keeps_wf(old(self), self, index, Some(value), new_len);
            }
        }
    }

    /// The largest index of a vertex, zero for a graph without vertices.
    pub fn max_key(&self) -> (key: usize)
        ensures
            is_max_key(self.nodes@, key),
    {
        let ghost all = vstd::std_specs::btree::spec_keys_iter(&self.nodes).remaining();
        let mut best: usize = 0;
        let mut any = false;
        proof {
            vstd::std_specs::btree::axiom_spec_keys_iter(&self.nodes);
        }
        for k in it: self.nodes.keys()
            invariant
                it.seq() == all,
                all.unref().to_set() == self.nodes@.dom(),
                all.len() == self.nodes@.dom().len(),
                any == (it.index() > 0),
                !any ==> best == 0,
                any ==> exists|i: int| 0 <= i < it.index() && *all[i] == best,
                forall|i: int| 0 <= i < it.index() ==> *(#[trigger] all[i]) <= best,
        {
            if !any || *k > best {
                best = *k;
            }
            any = true;
        }
        assert(is_max_key(self.nodes@, best)) by {
            if any {
                let i = choose|i: int| 0 <= i < all.len() && *all[i] == best;
                assert(all.unref()[i] == best);
                assert(all.unref().to_set().contains(best));
                assert forall|k: usize| self.nodes@.contains_key(k) implies k <= best by {
                    assert(all.unref().to_set().contains(k));
                    let j = choose|j: int| 0 <= j < all.unref().len() && all.unref()[j] == k;
                    assert(*all[j] == k);
                }
            }
        }
        best
    }

    /// Grows the matrix to `new_len` where the graph holds no more than `index`
    /// vertices, and says whether it did.
    pub fn may_expand(&mut self, index: usize, new_len: usize) -> (expanded: bool)
        ensures
            expanded == (old(self).nodes@.dom().len() <= index),
            final(self).nodes == old(self).nodes,
            final(self).rows() == if expanded {
                grown(old(self).rows(), new_len as int)
            } else {
                old(self).rows()
            },
    {
        if self.len() > index {
            false
        } else {
            let ghost before = self.rows();
            while self.matrix.len() < new_len
                invariant
                    self.nodes == old(self).nodes,
                    before == old(self).rows(),
                    self.rows().len() >= before.len(),
                    self.rows().len() <= before.len() || self.rows().len() <= new_len,
                    forall|i: int| 0 <= i < before.len() ==> self.rows()[i] == before[i],
                    forall|i: int|
                        before.len() <= i < self.rows().len() ==> self.rows()[i] == Seq::<
                            Option<usize>,
                        >::empty(),
                decreases new_len - self.matrix@.len(),
            {
                let ghost held = self.matrix@;
                self.matrix.push(Vec::new());
                assert forall|i: int| 0 <= i < self.rows().len() implies self.rows()[i] == (if i
                    < held.len() {
                    rows_of(held)[i]
                } else {
                    Seq::<Option<usize>>::empty()
                }) by {
                    if i < held.len() {
                        assert(self.matrix@[i] == held[i]);
                    }
                }
            }
            let ghost wide = self.rows();
            let mut i: usize = 0;
            while i < new_len
                invariant
                    i <= new_len <= self.rows().len(),
                    self.nodes == old(self).nodes,
                    self.rows().len() == wide.len(),
                    forall|k: int| 0 <= k < i ==> self.rows()[k] == padded(wide[k], new_len as int),
                    forall|k: int| i <= k < wide.len() ==> self.rows()[k] == wide[k],
                decreases new_len - i,
            {
                let ghost row = self.rows()[i as int];
                while self.matrix[i].len() < new_len
                    invariant
                        i < new_len <= self.rows().len(),
                        self.nodes == old(self).nodes,
                        self.rows().len() == wide.len(),
                        row == wide[i as int],
                        forall|k: int|
                            0 <= k < i ==> self.rows()[k] == padded(wide[k], new_len as int),
                        forall|k: int| i < k < wide.len() ==> self.rows()[k] == wide[k],
                        self.rows()[i as int].len() >= row.len(),
                        self.rows()[i as int].len() <= row.len() || self.rows()[i as int].len()
                            <= new_len,
                        forall|c: int| 0 <= c < row.len() ==> self.rows()[i as int][c] == row[c],
                        forall|c: int|
                            row.len() <= c < self.rows()[i as int].len() ==> self.rows()[i as int][c]
                                == None::<usize>,
                    decreases new_len - self.matrix@[i as int]@.len(),
                {
                    let ghost held = self.matrix@;
                    self.matrix[i].push(None);
                    assert forall|k: int| 0 <= k < self.rows().len() && k != i implies self.rows()[k]
                        == rows_of(held)[k] by {
                        assert(self.matrix@[k] == held[k]);
                    }
                    assert(self.rows()[i as int] == rows_of(held)[i as int].push(None::<usize>));
                    assert forall|k: int| 0 <= k < i implies self.rows()[k] == padded(
                        wide[k],
                        new_len as int,
                    ) by {
                        assert(self.rows()[k] == rows_of(held)[k]);
                    }
                    assert forall|k: int| i < k < wide.len() implies self.rows()[k] == wide[k] by {
                        assert(self.rows()[k] == rows_of(held)[k]);
                    }
                }
                assert(self.rows()[i as int] =~= padded(row, new_len as int));
                i += 1;
            }
            assert(self.rows() =~= grown(before, new_len as int));
            true
        }
    }

    fn set_cell(&mut self, i: usize, j: usize, cell: Option<usize>)
        requires
            i < old(self).rows().len(),
            j < old(self).rows()[i as int].len(),
        ensures
            final(self).nodes == old(self).nodes,
            final(self).rows() == old(self).rows().update(
                i as int,
                old(self).rows()[i as int].update(j as int, cell),
            ),
    {
        let _ = self.matrix[i].remove(j);
        self.matrix[i].insert(j, cell);
        assert(self.rows()[i as int] =~= old(self).rows()[i as int].update(j as int, cell));
        assert(self.rows() =~= old(self).rows().update(
            i as int,
            old(self).rows()[i as int].update(j as int, cell),
        ));
    }

    fn remove_vertex(&mut self, index: usize) -> (removed: bool)
        ensures
            removed == old(self).nodes@.contains_key(index),
            final(self).nodes@ == old(self).nodes@.remove(index),
            final(self).matrix == old(self).matrix,
    {
        if self.contains(index) {
            self.nodes.remove(&index);
            true
        } else {
            assert(self.nodes@.remove(index) =~= self.nodes@);
            false
        }
    }

    fn remove_edge(&mut self, from: usize, to: usize)
        requires
            from < old(self).rows().len(),
            to < old(self).rows().len(),
            to < old(self).rows()[from as int].len(),
            from < old(self).rows()[to as int].len(),
        ensures
            final(self).nodes == old(self).nodes,
            final(self).rows() == linked(old(self).rows(), from as int, to as int, None),
    {
        self.set_cell(from, to, None);
        self.set_cell(to, from, None);
    }
}

/// A map whose keys all lie below `n` has at most `n` keys.
pub proof fn lemma_keys_fit<V>(nodes: Map<usize, V>, n: nat)
    requires
        n <= usize::MAX,
        nodes.dom().finite(),
        forall|k: usize| #[trigger] nodes.contains_key(k) ==> k < n,
    ensures
        nodes.dom().len() <= n,
{
    lemma_keys_below(n);
    assert(nodes.dom().subset_of(keys_below(n)));
    vstd::set_lib::lemma_len_subset(nodes.dom(), keys_below(n));
}

/// Growing a valid matrix beyond `index` gives a valid matrix with a row for `index`.
pub proof fn lemma_grown_wf(rows: Seq<Seq<Option<usize>>>, n: int)
    requires
        forall|i: int| 0 <= i < rows.len() ==> (#[trigger] rows[i]).len() >= rows.len(),
        0 <= n,
    ensures
        grown(rows, n).len() >= n,
        grown(rows, n).len() >= rows.len(),
        forall|i: int|
            0 <= i < grown(rows, n).len() ==> (#[trigger] grown(rows, n)[i]).len() >= grown(
                rows,
                n,
            ).len(),
{
    let g = grown(rows, n);
    assert forall|i: int| 0 <= i < g.len() implies (#[trigger] g[i]).len() >= g.len() by {
        if i < rows.len() {
            assert(rows[i].len() >= rows.len());
        }
    }
}

/// The vertices and the matrix after a vertex without a value was put at `index`, if
/// there was none: the matrix grows to `new_len` where no more than `index` vertices
/// were held.
pub open spec fn with_vertex<T>(
    nodes: Map<usize, Option<T>>,
    rows: Seq<Seq<Option<usize>>>,
    index: usize,
    new_len: usize,
) -> (Map<usize, Option<T>>, Seq<Seq<Option<usize>>>) {
    if nodes.contains_key(index) {
        (nodes, rows)
    } else {
        (
            nodes.insert(index, None),
            if nodes.dom().len() > index {
                rows
            } else {
                grown(rows, new_len as int)
            },
        )
    }
}

impl<T: Ord> Graph<T> {
    /// Inserting a vertex into a valid graph, with a length beyond its index to grow
    /// to, leaves a valid graph.
    pub proof fn lemma_insert_keeps_wf(
        before: &Self,
        after: &Self,
        index: usize,
        value: Option<T>,
        new_len: usize,
    )
        requires
            before.wf(),
            before.rows().len() <= usize::MAX,
            index < new_len,
            after.nodes@ == before.nodes@.insert(index, value),
            after.rows() == if before.nodes@.dom().len() > index {
                before.rows()
            } else {
                grown(before.rows(), new_len as int)
            },
        ensures
            after.wf(),
    {
        lemma_grown_wf(before.rows(), new_len as int);
        if before.nodes@.dom().len() > index {
            lemma_keys_fit(before.nodes@, before.rows().len());
        }
    }

    fn may_insert(&mut self, index: usize, new_len: usize)
        requires
            old(self).wf(),
            index < new_len,
        ensures
            final(self).wf(),
            (final(self).nodes@, final(self).rows()) == with_vertex(
                old(self).nodes@,
                old(self).rows(),
                index,
                new_len,
            ),
    {
        if !self.nodes.contains_key(&index) {
            self.insert_none(index, new_len);
        }
    }

    /// Links `from` and `to` with an edge of the given weight, in both directions. A
    /// vertex that the graph does not hold yet is put in without a value, and the matrix
    /// grows for it to the length given for it, which lies beyond its index.
    pub fn connect_edge(
        &mut self,
        from: usize,
        to: usize,
        weight: usize,
        from_len: usize,
        to_len: usize,
    )
        requires
            old(self).wf(),
            from < from_len,
            to < to_len,
        ensures
            final(self).wf(),
            ({
                let first = with_vertex(old(self).nodes@, old(self).rows(), from, from_len);
                let second = with_vertex(first.0, first.1, to, to_len);
                final(self).nodes@ == second.0 && final(self).rows() == linked(
                    second.1,
                    from as int,
                    to as int,
                    Some(weight),
                )
            }),
    {
        self.may_insert(from, from_len);
        self.may_insert(to, to_len);
        proof {
            assert(self.nodes@.contains_key(from));
            assert(self.nodes@.contains_key(to));
            assert(self.rows()[from as int].len() >= self.rows().len());
            assert(self.rows()[to as int].len() >= self.rows().len());
        }
        let ghost before = self.rows();
        self.set_cell(from, to, Some(weight));
        self.set_cell(to, from, Some(weight));
        proof {
            let after = self.rows();
            assert forall|i: int| 0 <= i < after.len() implies (#[trigger] after[i]).len()
                >= after.len() by {
                assert(before[i].len() >= before.len());
            }
        }
    }

    /// Takes the vertex at `index` out, with its edges to the vertices below the largest
    /// index that is left. `false`, with nothing changed, where there is no such vertex.
    pub fn remove(&mut self, index: usize) -> (removed: bool)
        requires
            old(self).wf(),
        ensures
            final(self).wf(),
            removed == old(self).nodes@.contains_key(index),
            final(self).nodes@ == old(self).nodes@.remove(index),
            !removed ==> final(self).rows() == old(self).rows(),
            removed ==> forall|top: usize|
                is_max_key(final(self).nodes@, top) ==> final(self).rows() == unlinked(
                    old(self).rows(),
                    index as int,
                    top as int,
                ),
    {
        if self.remove_vertex(index) {
            let top = self.max_key();
            proof {
                if self.nodes@.dom().len() == 0 {
                    assert(top == 0);
                } else {
                    assert(old(self).nodes@.contains_key(top));
                }
            }
            let mut i: usize = 0;
            while i < top
                invariant
                    i <= top,
                    top < old(self).rows().len() || top == 0,
                    index < old(self).rows().len(),
                    self.nodes@ == old(self).nodes@.remove(index),
                    self.rows().len() == old(self).rows().len(),
                    forall|r: int|
                        0 <= r < self.rows().len() ==> (#[trigger] self.rows()[r]).len()
                            >= self.rows().len(),
                    self.rows() == unlinked(old(self).rows(), index as int, i as int),
                decreases top - i,
            {
                proof {
                    assert(self.rows()[i as int].len() >= self.rows().len());
                    assert(self.rows()[index as int].len() >= self.rows().len());
                }
                let ghost before = self.rows();
                self.remove_edge(i, index);
                proof {
                    let after = self.rows();
                    assert forall|r: int| 0 <= r < after.len() implies (#[trigger] after[r]).len()
                        >= after.len() by {
                        assert(before[r].len() >= before.len());
                    }
                }
                i += 1;
            }
            proof {
                assert forall|other: usize| is_max_key(self.nodes@, other) implies other == top by {
                    if self.nodes@.dom().len() != 0 {
                        assert(self.nodes@.contains_key(other));
                        assert(self.nodes@.contains_key(top));
                    }
                }
            }
            true
        } else {
            false
        }
    }

    /// The matrix as text: `Graph: empty` for a graph without vertices; otherwise a
    /// header with the indices up to the largest one, and for each of them a line with
    /// the index and the weights of its edges, a dot standing for no edge.
    pub fn to_string(&self) -> (text: String)
        requires
            self.wf(),
        ensures
            self.nodes@.dom().len() == 0 ==> text@ == "Graph: empty"@,
            self.nodes@.dom().len() != 0 ==> forall|top: usize|
                is_max_key(self.nodes@, top) ==> text@ == header_text(top + 1) + rows_text(
                    self.rows(),
                    top + 1,
                    top + 1,
                ),
    {
        if self.is_empty() {
            "Graph: empty".to_owned()
        } else {
            let max = self.max_key();
            let rows = self.matrix.len();
            proof {
                assert(self.rows().len() == rows);
                reveal_strlit("  ");
                reveal_strlit("\n");
                reveal_strlit(". ");
                assert(self.nodes@.contains_key(max));
                assert forall|other: usize| is_max_key(self.nodes@, other) implies other == max by {
                    assert(self.nodes@.contains_key(other));
                }
            }
            let mut output = "  ".to_owned();
            assert(output@ =~= header_text(0));
            let mut x: usize = 0;
            while x <= max
                invariant
                    x <= max + 1,
                    max < usize::MAX,
                    output@ == header_text(x as int),
                decreases max + 1 - x,
            {
                let label = left_align(x);
                output.append(label.as_str());
                x += 1;
            }
            let ghost header = output@;
            let mut i: usize = 0;
            assert(output@ =~= header + rows_text(self.rows(), 0, max + 1));
            while i <= max
                invariant
                    i <= max + 1,
                    max < usize::MAX,
                    max < self.rows().len(),
                    forall|r: int|
                        0 <= r < self.rows().len() ==> (#[trigger] self.rows()[r]).len()
                            >= self.rows().len(),
                    "\n"@ == seq!['\n'],
                    ". "@ == seq!['.', ' '],
                    output@ == header + rows_text(self.rows(), i as int, max + 1),
                decreases max + 1 - i,
            {
                let ghost done = output@;
                output.append("\n");
                let label = left_align(i);
                output.append(label.as_str());
                let ghost start = output@;
                assert(self.rows()[i as int].len() >= self.rows().len());
                let mut j: usize = 0;
                assert(output@ =~= start + cells_text(self.rows()[i as int], 0));
                while j <= max
                    invariant
                        j <= max + 1,
                        max < usize::MAX,
                        i <= max < self.rows().len(),
                        self.rows()[i as int].len() >= self.rows().len(),
                        ". "@ == seq!['.', ' '],
                        output@ == start + cells_text(self.rows()[i as int], j as int),
                    decreases max + 1 - j,
                {
                    let ghost sofar = output@;
                    match self.matrix[i][j] {
                        Some(e) => {
                            let cell = left_align(e);
                            output.append(cell.as_str());
                        },
                        None => {
                            output.append(". ");
                        },
                    }
                    assert(self.matrix@[i as int]@[j as int] == self.rows()[i as int][j as int]);
                    assert(output@ =~= sofar + cell_text(self.rows()[i as int][j as int]));
                    j += 1;
                    assert(output@ =~= start + cells_text(self.rows()[i as int], j as int));
                }
                i += 1;
                assert(output@ =~= header + rows_text(self.rows(), i as int, max + 1));
            }
            output
        }
    }
}

} // verus!
