//! Strings as sequences of characters.

use vstd::prelude::*;
use vstd::std_specs::iter::IteratorSpec;

verus! {

/// The characters of `s`, in order.
pub fn to_chars(s: &str) -> (chars: Vec<char>)
    ensures
        chars@ == s@,
{
    broadcast use vstd::string::group_string_axioms;

    let mut it = s.chars();
    let mut chars: Vec<char> = Vec::new();
    loop
        invariant
            chars@ + it.remaining() == s@,
            it.decrease() is Some,
        ensures
            chars@ == s@,
        decreases it.decrease()->0,
    {
        let ghost before = it.remaining();
        let ghost done = chars@;
        match it.next() {
            Some(c) => {
                chars.push(c);
                assert(before =~= seq![c] + before.drop_first());
                assert(chars@ + it.remaining() =~= done + before);
            },
            None => {
                assert(chars@ + before =~= chars@);
                break ;
            },
        }
    }
    chars
}

/// Whether `pat` stands in `s` at position `at`.
pub open spec fn occurs_at(s: Seq<char>, pat: Seq<char>, at: int) -> bool {
    0 <= at && at + pat.len() <= s.len() && s.subrange(at, at + pat.len()) == pat
}

/// Whether `found` is the first position at which `pat` stands in `s`, or `None` where
/// it stands nowhere.
pub open spec fn first_occurrence(s: Seq<char>, pat: Seq<char>, found: Option<usize>) -> bool {
    match found {
        Some(at) => occurs_at(s, pat, at as int) && forall|p: int|
            0 <= p < at ==> !occurs_at(s, pat, p),
        None => forall|p: int| !occurs_at(s, pat, p),
    }
}

/// Where `pat` stands at `p`, every character of it is the one of `s` behind `p`.
pub proof fn lemma_occurrence(s: Seq<char>, pat: Seq<char>, p: int, x: int)
    requires
        occurs_at(s, pat, p),
        0 <= x < pat.len(),
    ensures
        s[p + x] == pat[x],
{
    assert(s.subrange(p, p + pat.len())[x] == s[p + x]);
}

/// Whether `at` is the first position of `c` in `s`.
pub open spec fn is_first_position(s: Seq<char>, c: char, at: int) -> bool {
    &&& 0 <= at < s.len()
    &&& s[at] == c
    &&& forall|k: int| 0 <= k < at ==> s[k] != c
}

/// The first position at which `c` stands in `s`, counted in characters.
pub fn find_char(s: &str, c: char) -> (found: Option<usize>)
    ensures
        found matches Some(at) ==> is_first_position(s@, c, at as int),
        found is None ==> !s@.contains(c),
        s@.len() <= usize::MAX,
{
    let chars = to_chars(s);
    let mut i: usize = 0;
    while i < chars.len()
        invariant
            chars@ == s@,
            i <= chars@.len(),
            forall|k: int| 0 <= k < i ==> s@[k] != c,
        decreases chars@.len() - i,
    {
        if chars[i] == c {
            return Some(i);
        }
        i += 1;
    }
    None
}

/// The first position of a character is the only one.
pub proof fn lemma_first_position_unique(s: Seq<char>, c: char, a: int, b: int)
    requires
        is_first_position(s, c, a),
        is_first_position(s, c, b),
    ensures
        a == b,
{
}

/// `str::trim`: the string without its leading and trailing whitespace.
pub uninterp spec fn trimmed(s: Seq<char>) -> Seq<char>;

/// `str::trim`: the slice of `s` that is left when leading and trailing whitespace, as
/// Unicode defines it, is taken away.
#[verifier::external_body]
pub(crate) fn trim(s: &str) -> (t: &str)
    ensures
        t@ == trimmed(s@),
{
    s.trim()
}

/// `str::to_lowercase`: the lowercase equivalent of the string.
pub uninterp spec fn lowercase_of(s: Seq<char>) -> Seq<char>;

/// `str::to_lowercase`: a new string with every character mapped to lowercase, as
/// Unicode defines it.
#[verifier::external_body]
pub(crate) fn to_lowercase(s: &str) -> (lower: String)
    ensures
        lower@ == lowercase_of(s@),
{
    s.to_lowercase()
}

/// A line without the carriage return at its end, where it has one.
pub open spec fn without_carriage_return(line: Seq<char>) -> Seq<char> {
    if line.len() > 0 && line.last() == '\r' {
        line.drop_last()
    } else {
        line
    }
}

/// The lines of `s` from the line that starts at `start`, where no line feed stands
/// between `start` and `at`.
pub open spec fn lines_from(s: Seq<char>, start: int, at: int) -> Seq<Seq<char>>
    decreases s.len() - at,
{
    if at >= s.len() {
        if start < s.len() {
            seq![s.subrange(start, s.len() as int)]
        } else {
            Seq::empty()
        }
    } else if s[at] == '\n' {
        seq![without_carriage_return(s.subrange(start, at))] + lines_from(s, at + 1, at + 1)
    } else {
        lines_from(s, start, at + 1)
    }
}

/// The lines of the string. A line ends with a line feed, or with a carriage return
/// directly followed by a line feed; neither belongs to the line. What follows the last
/// line feed is a line of its own unless it is empty, and keeps a carriage return at its
/// end.
pub open spec fn lines_of(s: Seq<char>) -> Seq<Seq<char>> {
    lines_from(s, 0, 0)
}

/// The characters of each string slice.
pub open spec fn views_of(parts: Seq<&str>) -> Seq<Seq<char>> {
    Seq::new(parts.len(), |i: int| parts[i]@)
}

/// `str::lines`: the lines of the string in order, split at every line feed, each
/// without its line feed and without a carriage return directly before it; what follows
/// the last line feed is the last line unless nothing follows.
#[verifier::external_body]
pub(crate) fn lines<'a>(s: &'a str) -> (parts: Vec<&'a str>)
    ensures
        views_of(parts@) == lines_of(s@),
{
    s.lines().collect()
}

/// Whether two string slices hold the same characters.
pub fn same_text(a: &str, b: &str) -> (same: bool)
    ensures
        same == (a@ == b@),
{
    let a = a.to_owned();
    let b = b.to_owned();
    a == b
}

} // verus!
