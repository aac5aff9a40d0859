//! Disjoint sets over the keys `0..len`, each set known by its root.

use vstd::prelude::*;

verus! {

#[derive(Debug)]
pub struct DisjointSet {
    data: Vec<Option<usize>>,
    len: usize,
}

/// Whether every parent link points to a larger key inside the table.
pub open spec fn links_upward(parents: Seq<Option<usize>>) -> bool {
    forall|i: int|
        0 <= i < parents.len() ==> (#[trigger] parents[i] matches Some(p) ==> i < p
            < parents.len())
}

/// The root that the parent links lead to from `key`.
pub open spec fn root_of(parents: Seq<Option<usize>>, key: int) -> int
    decreases parents.len() - key,
{
    if 0 <= key < parents.len() {
        match parents[key] {
            Some(p) => if key < p < parents.len() {
                root_of(parents, p as int)
            } else {
                key
            },
            None => key,
        }
    } else {
        key
    }
}

/// The root of a key of a valid table is a key of the table without a parent.
pub proof fn lemma_root_is_root(parents: Seq<Option<usize>>, key: int)
    requires
        links_upward(parents),
        0 <= key < parents.len(),
    ensures
        key <= root_of(parents, key) < parents.len(),
        parents[root_of(parents, key)] is None,
    decreases parents.len() - key,
{
    match parents[key] {
        Some(p) => {
            lemma_root_is_root(parents, p as int);
        },
        None => {},
    }
}

impl View for DisjointSet {
    type V = Seq<Option<usize>>;

    /// The parent of every key, `None` for a root.
    closed spec fn view(&self) -> Seq<Option<usize>> {
        self.data@
    }
}

impl DisjointSet {
    /// The invariant: the table has the length it was made with and links point upward.
    pub closed spec fn wf(&self) -> bool {
        &&& self.len == self.data@.len()
        &&& links_upward(self.data@)
    }

    /// A valid table has upward links.
    pub proof fn lemma_wf(&self)
        requires
            self.wf(),
        ensures
            links_upward(self@),
    {
    }

    /// `len` sets of one key each.
    pub fn new(len: usize) -> (set: Self)
        ensures
            set.wf(),
            set@.len() == len,
            forall|i: int| 0 <= i < len ==> set@[i] is None,
    {
        let mut data: Vec<Option<usize>> = Vec::with_capacity(len);
        let mut i: usize = 0;
        while i < len
            invariant
                i <= len,
                data@.len() == i,
                forall|k: int| 0 <= k < i ==> data@[k] is None,
            decreases len - i,
        {
            data.push(None);
            i += 1;
        }
        Self { data, len }
    }

    /// Makes `key` a root again. The keys below it stay linked to it.
    pub fn reset(&mut self, key: usize)
        requires
            old(self).wf(),
            key < old(self)@.len(),
        ensures
            final(self).wf(),
            final(self)@ == old(self)@.update(key as int, None),
    {
        self.data[key] = None;
    }

    /// The root of the set that holds `key`.
    pub fn find(&self, key: usize) -> (root: Option<usize>)
        requires
            self.wf(),
            key < self@.len(),
        ensures
            root == Some(root_of(self@, key as int) as usize),
            0 <= root_of(self@, key as int) < self@.len(),
            self@[root_of(self@, key as int)] is None,
    {
        let mut p = key;
        proof {
            lemma_root_is_root(self@, key as int);
        }
        loop
            invariant
                self.wf(),
                p < self.data@.len(),
                root_of(self.data@, p as int) == root_of(self.data@, key as int),
            ensures
                p < self.data@.len(),
                self.data@[p as int] is None,
                root_of(self.data@, p as int) == root_of(self.data@, key as int),
            decreases self.data@.len() - p,
        {
            match self.data[p] {
                Some(val) => {
                    p = val;
                },
                None => {
                    break ;
                },
            }
        }
        Some(p)
    }

    /// Joins the sets of `x` and `y`: the smaller of the two roots is linked to the larger.
    pub fn union(&mut self, x: usize, y: usize)
        requires
            old(self).wf(),
            x < old(self)@.len(),
            y < old(self)@.len(),
        ensures
            final(self).wf(),
            ({
                let rx = root_of(old(self)@, x as int);
                let ry = root_of(old(self)@, y as int);
                if rx == ry {
                    final(self)@ == old(self)@
                } else if rx < ry {
                    final(self)@ == old(self)@.update(rx, Some(ry as usize))
                } else {
                    final(self)@ == old(self)@.update(ry, Some(rx as usize))
                }
            }),
    {
        let rx = self.find(x);
        let ry = self.find(y);
        assert(rx == Some(root_of(self@, x as int) as usize));
        assert(ry == Some(root_of(self@, y as int) as usize));
        let mut x = match rx {
            Some(r) => r,
            None => x,
        };
        let mut y = match ry {
            Some(r) => r,
            None => y,
        };
        if x == y {
            return ;
        }
        if x > y {
            let t = x;
            x = y;
            y = t;
        }
        self.data[x] = Some(y);
    }
}

} // verus!
