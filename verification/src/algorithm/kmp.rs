//! Knuth-Morris-Pratt string matching over characters.

use crate::text::{first_occurrence, lemma_occurrence, occurs_at, to_chars};
use vstd::prelude::*;

verus! {

/// Whether the first `t` characters of `pat` are also the last `t` of its first `j`, with
/// `t` below `j`.
pub open spec fn is_border(pat: Seq<char>, j: int, t: int) -> bool {
    0 <= t < j <= pat.len() && pat.subrange(0, t) == pat.subrange(j - t, j)
}

/// An entry of the fallback table as a number: `-1` for an empty entry.
pub open spec fn entry_value(entry: Option<usize>) -> int {
    match entry {
        Some(v) => v as int,
        None => -1,
    }
}

/// Whether `v` is where the scan falls back to from position `k` of the pattern: the
/// longest border of the first `k` characters that is followed by another character than
/// the one at `k`, or `-1` where there is no such border.
pub open spec fn is_fallback(pat: Seq<char>, k: int, v: int) -> bool {
    &&& 0 <= k < pat.len()
    &&& -1 <= v
    &&& v >= 0 ==> is_border(pat, k, v) && pat[v] != pat[k]
    &&& forall|b: int| v < b && #[trigger] is_border(pat, k, b) ==> pat[b] == pat[k]
}

/// Whether `next` is the fallback table of `pat`, which is not empty.
pub open spec fn is_fallback_table(pat: Seq<char>, next: Seq<Option<usize>>) -> bool {
    &&& pat.len() > 0
    &&& next.len() == pat.len()
    &&& forall|k: int| 0 <= k < next.len() ==> is_fallback(pat, k, entry_value(#[trigger] next[k]))
}

/// A border of a border is a border.
pub proof fn lemma_border_of_border(pat: Seq<char>, j: int, t: int, v: int)
    requires
        is_border(pat, j, t),
        is_border(pat, t, v),
    ensures
        is_border(pat, j, v),
{
    let a = pat.subrange(0, t);
    let b = pat.subrange(j - t, j);
    assert(a.subrange(t - v, t) =~= pat.subrange(t - v, t));
    assert(b.subrange(t - v, t) =~= pat.subrange(j - v, j));
}

/// Of two borders the shorter is a border of the longer.
pub proof fn lemma_border_within(pat: Seq<char>, j: int, t: int, b: int)
    requires
        is_border(pat, j, t),
        is_border(pat, j, b),
        b < t,
    ensures
        is_border(pat, t, b),
{
    let front = pat.subrange(0, t);
    let back = pat.subrange(j - t, j);
    assert(front.subrange(t - b, t) =~= pat.subrange(t - b, t));
    assert(back.subrange(t - b, t) =~= pat.subrange(j - b, j));
}

/// A border grows by one where the characters behind it and behind the prefix agree, and
/// the empty border is a border of every prefix that is not empty.
pub proof fn lemma_border_grows(pat: Seq<char>, j: int, t: int)
    requires
        0 <= j < pat.len(),
        t == -1 || (is_border(pat, j, t) && pat[t] == pat[j]),
    ensures
        is_border(pat, j + 1, t + 1),
{
    if t == -1 {
        assert(pat.subrange(0, 0) =~= pat.subrange(j + 1, j + 1));
    } else {
        assert(pat.subrange(0, t + 1) =~= pat.subrange(0, t).push(pat[t]));
        assert(pat.subrange(j - t, j + 1) =~= pat.subrange(j - t, j).push(pat[j]));
    }
}

/// A border that is not empty is a border of the prefix that is shorter by one,
/// lengthened by the character behind that prefix.
pub proof fn lemma_border_shrinks(pat: Seq<char>, j: int, b: int)
    requires
        is_border(pat, j + 1, b),
        b >= 1,
    ensures
        is_border(pat, j, b - 1),
        pat[b - 1] == pat[j],
{
    let front = pat.subrange(0, b);
    let back = pat.subrange(j + 1 - b, j + 1);
    assert(front[b - 1] == back[b - 1]);
    assert(front.subrange(0, b - 1) =~= pat.subrange(0, b - 1));
    assert(back.subrange(0, b - 1) =~= pat.subrange(j + 1 - b, j));
}

/// The fallback from a position is unique.
pub proof fn lemma_fallback_unique(pat: Seq<char>, k: int, v: int, w: int)
    requires
        is_fallback(pat, k, v),
        is_fallback(pat, k, w),
    ensures
        v == w,
{
    if v < w {
        assert(is_border(pat, k, w));
    } else if w < v {
        assert(is_border(pat, k, v));
    }
}

/// Whether `found` is the first position from `from` on at which `pat` stands in `s`, or
/// `None` where it stands at no position from `from` on.
pub open spec fn first_occurrence_from(
    s: Seq<char>,
    pat: Seq<char>,
    from: int,
    found: Option<usize>,
) -> bool {
    match found {
        Some(at) => from <= at && occurs_at(s, pat, at as int) && forall|p: int|
            from <= p < at ==> !occurs_at(s, pat, p),
        None => forall|p: int| from <= p ==> !occurs_at(s, pat, p),
    }
}

/// From position zero on, the first occurrence is the first occurrence.
pub proof fn lemma_first_occurrence_from_zero(s: Seq<char>, pat: Seq<char>, found: Option<usize>)
    ensures
        first_occurrence_from(s, pat, 0, found) <==> first_occurrence(s, pat, found),
{
}

/// What a fallback skips: where the scan has read `jj` characters of the pattern up to
/// position `i` of the text and the next characters differ, the pattern stands at none of
/// the positions between the old start and the new one, and the text up to `i` still
/// ends with the border fallen back to.
pub proof fn lemma_fallback_skips(s: Seq<char>, pat: Seq<char>, i: int, jj: int, v: int)
    requires
        0 <= jj < pat.len(),
        jj <= i < s.len(),
        s.subrange(i - jj, i) == pat.subrange(0, jj),
        s[i] != pat[jj],
        is_fallback(pat, jj, v),
    ensures
        forall|p: int| i - jj <= p < i - v ==> !occurs_at(s, pat, p),
        v >= 0 ==> s.subrange(i - v, i) == pat.subrange(0, v),
{
    let known = s.subrange(i - jj, i);
    let prefix = pat.subrange(0, jj);
    if v >= 0 {
        assert(known.subrange(jj - v, jj) =~= s.subrange(i - v, i));
        assert(prefix.subrange(jj - v, jj) =~= pat.subrange(jj - v, jj));
    }
    assert forall|p: int| i - jj <= p < i - v implies !occurs_at(s, pat, p) by {
        if occurs_at(s, pat, p) {
            let b = i - p;
            lemma_occurrence(s, pat, p, b);
            let whole = s.subrange(p, p + pat.len());
            assert(whole.subrange(0, b) =~= s.subrange(i - b, i));
            assert(whole.subrange(0, b) =~= pat.subrange(0, b));
            assert(known.subrange(jj - b, jj) =~= s.subrange(i - b, i));
            assert(prefix.subrange(jj - b, jj) =~= pat.subrange(jj - b, jj));
            if b < jj {
                assert(is_border(pat, jj, b));
            }
        }
    }
}

pub struct KmpPattern {
    pat: Vec<char>,
    next: Vec<Option<usize>>,
    len: usize,
}

/// The measure that both loops count down: twice what is left to read, plus the position
/// in the pattern.
pub open spec fn steps_left(total: int, read: int, at: Option<usize>) -> int {
    2 * (total - read) + entry_value(at) + 1
}

impl KmpPattern {
    /// The characters of the pattern.
    pub closed spec fn pattern(&self) -> Seq<char> {
        self.pat@
    }

    /// The fallback table.
    pub closed spec fn table(&self) -> Seq<Option<usize>> {
        self.next@
    }

    /// The invariant: the length is that of the pattern, which is not empty, and the table
    /// is its fallback table.
    pub closed spec fn wf(&self) -> bool {
        &&& self.len == self.pat@.len()
        &&& is_fallback_table(self.pat@, self.next@)
    }

    /// What the invariant says of the pattern and the table.
    pub proof fn lemma_wf(&self)
        requires
            self.wf(),
        ensures
            is_fallback_table(self.pattern(), self.table()),
    {
    }

    /// Prepares a pattern, which must not be empty, for searching.
    pub fn new(pat: &str) -> (obj: Self)
        requires
            pat@.len() > 0,
        ensures
            obj.wf(),
            obj.pattern() == pat@,
    {
        let chars = to_chars(pat);
        let len = chars.len();
        let mut obj = Self { pat: chars, next: Vec::new(), len };
        obj.build_next();
        obj
    }

    /// The position at which the scan ends. `None` exactly when the text is shorter than
    /// the pattern. The scan starts behind the first character of the text: where the
    /// position leaves room for the pattern, it is the first position from the second
    /// character on at which the pattern stands; where it does not, the pattern stands at
    /// no position from the second character on.
    pub fn kmp_find_in(&self, s: &str) -> (found: Option<usize>)
        requires
            self.wf(),
        ensures
            found is None <==> self.pattern().len() > s@.len(),
            found matches Some(at) ==> at <= s@.len() && first_occurrence_from(
                s@,
                self.pattern(),
                1,
                if at + self.pattern().len() <= s@.len() {
                    Some(at)
                } else {
                    None
                },
            ),
    {
        let s: Vec<char> = to_chars(s);
        let n: usize = s.len();
        if self.len > n || self.len == 0 {
            return None;
        }
        Some(self.scan(&s, None))
    }

    /// Scans the text from the state `start`: an empty state, which steps over the first
    /// character, or the state at the front of the pattern.
    fn scan(&self, s: &Vec<char>, start: Option<usize>) -> (at: usize)
        requires
            self.wf(),
            0 < self.len <= s@.len(),
            start is None || start == Some(0usize),
        ensures
            at <= s@.len(),
            first_occurrence_from(
                s@,
                self.pat@,
                -entry_value(start),
                if at + self.pat@.len() <= s@.len() {
                    Some(at)
                } else {
                    None
                },
            ),
    {
        let n: usize = s.len();
        let ghost pat = self.pat@;
        let ghost from = -entry_value(start);
        let mut i: usize = 0;
        let mut j: Option<usize> = start;
        assert(s@.subrange(0, 0) =~= pat.subrange(0, 0));
        loop
            invariant
                self.wf(),
                pat == self.pat@,
                n == s@.len(),
                0 < self.len <= n,
                i <= n,
                0 <= from <= 1,
                j is None ==> i < n,
                j matches Some(jj) ==> jj <= self.len && jj <= i && s@.subrange(i - jj, i as int)
                    == pat.subrange(0, jj as int),
                forall|p: int| from <= p < i - entry_value(j) ==> !occurs_at(s@, pat, p),
                from <= i - entry_value(j),
            ensures
                i <= n,
                0 <= from <= 1,
                j matches Some(jj) && jj <= self.len && jj <= i && s@.subrange(i - jj, i as int)
                    == pat.subrange(0, jj as int),
                forall|p: int| from <= p < i - entry_value(j) ==> !occurs_at(s@, pat, p),
                from <= i - entry_value(j),
                entry_value(j) >= self.len || i == n,
            decreases steps_left(n as int, i as int, j),
        {
            let at = match j {
                Some(jj) => jj,
                None => 0,
            };
            if !(at < self.len && i < n) {
                break ;
            }
            let advance = match j {
                None => true,
                Some(jj) => s[i] == self.pat[jj],
            };
            if advance {
                let ghost before = i;
                i += 1;
                match j {
                    Some(idx) => {
                        assert(s@.subrange(i - (idx + 1), i as int) =~= s@.subrange(
                            before - idx,
                            before as int,
                        ).push(s@[before as int]));
                        assert(pat.subrange(0, idx + 1) =~= pat.subrange(0, idx as int).push(
                            pat[idx as int],
                        ));
                        j = Some(idx + 1);
                    },
                    None => {
                        assert(s@.subrange(i as int, i as int) =~= pat.subrange(0, 0));
                        j = Some(0);
                    },
                }
            } else {
                let jj = match j {
                    Some(jj) => jj,
                    None => 0,
                };
                let fallback = self.next[jj];
                proof {
                    assert(is_fallback(pat, jj as int, entry_value(self.next@[jj as int])));
                    lemma_fallback_skips(s@, pat, i as int, jj as int, entry_value(fallback));
                }
                j = fallback;
            }
        }
        let at = match j {
            Some(idx) => i - idx,
            None => i,
        };
        proof {
            let jj = j->0;
            if at + self.len <= n {
                assert(jj == self.len);
                assert(s@.subrange(at as int, at + self.len) =~= pat);
            } else {
                assert forall|p: int| from <= p implies !occurs_at(s@, pat, p) by {
                    if occurs_at(s@, pat, p) {
                        assert(p < at);
                    }
                }
            }
        }
        at
    }

    fn build_next(&mut self)
        requires
            old(self).len == old(self).pat@.len(),
            old(self).len > 0,
        ensures
            final(self).wf(),
            final(self).pat == old(self).pat,
    {
        let ghost pat = self.pat@;
        let mut next: Vec<Option<usize>> = Vec::new();
        next.push(None);
        let mut t: Option<usize> = None;
        let mut i: usize = 0;
        while i < self.len - 1
            invariant
                pat == self.pat@,
                self.len == pat.len(),
                self.len > 0,
                self.pat == old(self).pat,
                i < self.len,
                next@.len() == i + 1,
                forall|k: int|
                    0 <= k < next@.len() ==> is_fallback(pat, k, entry_value(#[trigger] next@[k])),
                t matches Some(tt) ==> is_border(pat, i as int, tt as int),
                forall|b: int|
                    entry_value(t) < b && #[trigger] is_border(pat, i as int, b) ==> pat[b]
                        != pat[i as int],
            decreases steps_left(self.len as int, i as int, t),
        {
            let advance = match t {
                None => true,
                Some(tt) => self.pat[i] == self.pat[tt],
            };
            if advance {
                let tt: usize = match t {
                    Some(idx) => idx + 1,
                    None => 0,
                };
                proof {
                    lemma_border_grows(pat, i as int, entry_value(t));
                    assert forall|b: int| #[trigger] is_border(pat, i + 1, b) implies b <= tt by {
                        if b >= 1 {
                            lemma_border_shrinks(pat, i as int, b);
                        }
                    }
                }
                i += 1;
                t = Some(tt);
                if self.pat[i] != self.pat[tt] {
                    next.push(t);
                } else {
                    let entry = next[tt];
                    proof {
                        let v = entry_value(entry);
                        assert(is_fallback(pat, tt as int, v));
                        if v >= 0 {
                            lemma_border_of_border(pat, i as int, tt as int, v);
                        }
                        assert forall|b: int| v < b && #[trigger] is_border(
                            pat,
                            i as int,
                            b,
                        ) implies pat[b] == pat[i as int] by {
                            if b < tt {
                                lemma_border_within(pat, i as int, tt as int, b);
                            }
                        }
                    }
                    next.push(entry);
                }
            } else {
                let tt = match t {
                    Some(tt) => tt,
                    None => 0,
                };
                let entry = next[tt];
                proof {
                    let v = entry_value(entry);
                    assert(is_fallback(pat, tt as int, v));
                    if v >= 0 {
                        lemma_border_of_border(pat, i as int, tt as int, v);
                    }
                    assert forall|b: int| v < b && #[trigger] is_border(pat, i as int, b) implies pat[b]
                        != pat[i as int] by {
                        if b < tt {
                            lemma_border_within(pat, i as int, tt as int, b);
                        }
                    }
                }
                t = entry;
            }
        }
        self.next = next;
    }
}

/// Searches `pat` in `s` with a table built on the spot. `None` when the pattern is empty
/// or longer than the text. Otherwise the position at which the scan ends: the first
/// position of the pattern where it leaves room for the pattern, and a position that
/// leaves no room where the pattern stands nowhere in the text.
pub fn kmp(s: &str, pat: &str) -> (found: Option<usize>)
    ensures
        found is None <==> (pat@.len() > s@.len() || pat@.len() == 0),
        found matches Some(at) ==> at <= s@.len() && first_occurrence(
            s@,
            pat@,
            if at + pat@.len() <= s@.len() {
                Some(at)
            } else {
                None
            },
        ),
{
    let text = to_chars(s);
    let n = text.len();
    let m = pat.unicode_len();
    if m > n || m == 0 {
        return None;
    }
    let pattern = KmpPattern::new(pat);
    let at = pattern.scan(&text, Some(0));
    proof {
        lemma_first_occurrence_from_zero(
            s@,
            pat@,
            if at + pat@.len() <= s@.len() {
                Some(at)
            } else {
                None
            },
        );
    }
    Some(at)
}

/// The fallback table with `-1` for an empty entry.
pub open spec fn signed_table(next: Seq<Option<usize>>) -> Seq<isize> {
    Seq::new(
        next.len(),
        |k: int|
            match next[k] {
                Some(v) => v as isize,
                None => -1isize,
            },
    )
}

/// The fallback table of a pattern, which must not be empty, with `-1` for an empty entry.
pub fn kmp_build_next(s: &str) -> (next: Vec<isize>)
    requires
        s@.len() > 0,
    ensures
        exists|table: Seq<Option<usize>>| #[trigger]
            is_fallback_table(s@, table) && next@ == signed_table(table),
{
    let pattern = KmpPattern::new(s);
    let mut next: Vec<isize> = Vec::new();
    let mut k: usize = 0;
    while k < pattern.next.len()
        invariant
            k <= pattern.next@.len(),
            next@.len() == k,
            forall|a: int| 0 <= a < k ==> next@[a] == signed_table(pattern.next@)[a],
        decreases pattern.next@.len() - k,
    {
        let entry: isize = match pattern.next[k] {
            Some(v) => #[verifier::truncate]
            (v as isize),
            None => -1,
        };
        next.push(entry);
        k += 1;
    }
    assert(next@ =~= signed_table(pattern.next@));
    next
}

} // verus!
