//! Splitting a string at a delimiter, piece by piece.

use crate::algorithm::bm::bm;
use crate::text::{find_char, first_occurrence, is_first_position};
use vstd::prelude::*;
use vstd::string::StrSliceExecFns;

verus! {

pub trait Delimiter {
    /// Whether `range` is where the delimiter stands first in `s`, as a start and an end
    /// counted in characters; `None` where it does not stand in `s`.
    spec fn finds(&self, s: Seq<char>, range: Option<(usize, usize)>) -> bool;

    fn find_next(&self, s: &str) -> (range: Option<(usize, usize)>)
        ensures
            self.finds(s@, range),
            range matches Some((start, end)) ==> start <= end <= s@.len(),
    ;
}

/// Whether cutting `rest` at `range` gives `piece` and leaves `after`: the piece stands
/// before the range and what is left goes on behind it; without a range the piece is the
/// whole rest and nothing is left.
pub open spec fn split_at_range(
    rest: Seq<char>,
    range: Option<(usize, usize)>,
    piece: Seq<char>,
    after: Option<Seq<char>>,
) -> bool {
    match range {
        Some((start, end)) => start <= end <= rest.len() && piece == rest.subrange(
            0,
            start as int,
        ) && after == Some(rest.subrange(end as int, rest.len() as int)),
        None => piece == rest && after is None,
    }
}

#[derive(Debug)]
pub struct StrSplit<'a, D> {
    remainder: Option<&'a str>,
    delimiter: D,
}

impl<'a, D> StrSplit<'a, D> {
    /// What is still to be split; `None` after the last piece.
    pub closed spec fn rest(&self) -> Option<Seq<char>> {
        match self.remainder {
            Some(r) => Some(r@),
            None => None,
        }
    }

    pub closed spec fn delimiter(&self) -> D {
        self.delimiter
    }

    pub fn new(content: &'a str, delimiter: D) -> (split: Self)
        ensures
            split.rest() == Some(content@),
            split.delimiter() == delimiter,
    {
        Self { remainder: Some(content), delimiter }
    }
}

impl<'a, D> StrSplit<'a, D> where D: Delimiter {
    /// The next piece: what stands before the delimiter, with the rest going on behind
    /// it; the whole rest where the delimiter does not stand in it; `None` after that.
    pub fn next(&mut self) -> (piece: Option<&'a str>)
        ensures
            final(self).delimiter() == old(self).delimiter(),
            old(self).rest() is None ==> piece is None && final(self).rest() is None,
            old(self).rest() is Some ==> piece is Some,
            old(self).rest() is Some ==> exists|range: Option<(usize, usize)>|
                #![trigger old(self).delimiter().finds(old(self).rest()->0, range)]
                old(self).delimiter().finds(old(self).rest()->0, range) && split_at_range(
                    old(self).rest()->0,
                    range,
                    piece->0@,
                    final(self).rest(),
                ),
    {
        let remainder: &'a str = match self.remainder {
            Some(r) => r,
            None => {
                return None;
            },
        };
        let range = self.delimiter.find_next(remainder);
        let piece = match range {
            Some((start, end)) => {
                let len = remainder.unicode_len();
                let former = remainder.substring_char(0, start);
                self.remainder = Some(remainder.substring_char(end, len));
                former
            },
            None => {
                self.remainder = None;
                remainder
            },
        };
        let found = Some(piece);
        assert(old(self).rest() == Some(remainder@));
        assert(old(self).delimiter().finds(old(self).rest()->0, range) && split_at_range(
            old(self).rest()->0,
            range,
            found->0@,
            self.rest(),
        ));
        found
    }
}

impl Delimiter for &str {
    /// The first place at which the delimiter stands as a whole.
    open spec fn finds(&self, s: Seq<char>, range: Option<(usize, usize)>) -> bool {
        match range {
            Some((start, end)) => first_occurrence(s, self@, Some(start)) && end == start
                + self@.len(),
            None => first_occurrence(s, self@, None),
        }
    }

    fn find_next(&self, s: &str) -> (range: Option<(usize, usize)>) {
        match bm(s, self) {
            Some(start) => {
                let len = self.unicode_len();
                Some((start, start + len))
            },
            None => None,
        }
    }
}

impl Delimiter for char {
    /// The first place at which the character stands.
    open spec fn finds(&self, s: Seq<char>, range: Option<(usize, usize)>) -> bool {
        match range {
            Some((start, end)) => is_first_position(s, *self, start as int) && end == start + 1,
            None => !s.contains(*self),
        }
    }

    fn find_next(&self, s: &str) -> (range: Option<(usize, usize)>) {
        match find_char(s, *self) {
            Some(idx) => Some((idx, idx + 1)),
            None => None,
        }
    }
}

/// What stands in `s` before the first `c`: the whole of `s` without a `c`.
pub fn until_char(s: &str, c: char) -> (piece: &str)
    ensures
        !s@.contains(c) ==> piece@ == s@,
        forall|at: int| is_first_position(s@, c, at) ==> piece@ == s@.subrange(0, at),
{
    let mut split = StrSplit::new(s, c);
    let piece = split.next();
    match piece {
        Some(p) => {
            assert forall|at: int| is_first_position(s@, c, at) implies p@ == s@.subrange(
                0,
                at,
            ) by {
                let range = choose|range: Option<(usize, usize)>|
                    #![trigger c.finds(s@, range)]
                    c.finds(s@, range) && split_at_range(s@, range, p@, split.rest());
                match range {
                    Some((start, end)) => {
                        crate::text::lemma_first_position_unique(s@, c, at, start as int);
                    },
                    None => {
                        assert(s@[at] == c);
                    },
                }
            }
            p
        },
        None => s,
    }
}

} // verus!
