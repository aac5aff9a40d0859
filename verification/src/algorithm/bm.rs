//! Boyer-Moore string matching over characters, with the bad-character rule.

use crate::text::{first_occurrence, lemma_occurrence, occurs_at, to_chars};
use std::collections::HashMap;
use vstd::prelude::*;

verus! {

/// The number that stands for a character in the bad-character table.
pub open spec fn code(c: char) -> u32 {
    c as u32
}

/// Whether `table` gives, for every character of `pat` and for no other, the last
/// position at which it stands.
pub open spec fn is_last_position_table(pat: Seq<char>, table: Map<u32, usize>) -> bool {
    &&& forall|at: int|
        0 <= at < pat.len() ==> table.contains_key(code(#[trigger] pat[at])) && table[code(
            pat[at],
        )] >= at
    &&& forall|c: u32| #[trigger]
        table.contains_key(c) ==> table[c] < pat.len() && code(pat[table[c] as int]) == c
}

/// Two characters with one code are one character.
pub proof fn lemma_code_is_injective(a: char, b: char)
    ensures
        code(a) == code(b) ==> a == b,
{
}

/// Searches `pat` in `s`: the first position at which it stands, counted in characters.
pub fn bm(s: &str, pat: &str) -> (found: Option<usize>)
    ensures
        first_occurrence(s@, pat@, found),
        s@.len() <= usize::MAX,
        pat@.len() <= usize::MAX,
{
    let s_char = to_chars(s);
    let pat_char = to_chars(pat);
    let n = s_char.len();
    let m = pat_char.len();

    if m > n {
        return None;
    }
    if m == 0 {
        assert(s@.subrange(0, 0) =~= pat@);
        return Some(0);
    }
    let bc = build_bc(pat);
    let _gs = build_gs(pat);

    let mut i: usize = 0;
    let mut j: usize = m - 1;
    let mut hit = false;
    while i <= n - m
        invariant_except_break
            !hit,
        invariant
            s_char@ == s@,
            pat_char@ == pat@,
            n == s@.len(),
            m == pat@.len(),
            0 < m <= n,
            j < m,
            i <= n,
            is_last_position_table(pat@, bc@),
            forall|p: int| 0 <= p < i ==> !occurs_at(s@, pat@, p),
            i <= n - m ==> forall|k: int| j < k < m ==> s@[i + k] == pat@[k],
        ensures
            i <= n,
            hit ==> i <= n - m && occurs_at(s@, pat@, i as int),
            !hit ==> i > n - m,
            forall|p: int| 0 <= p < i ==> !occurs_at(s@, pat@, p),
        decreases n - i, j,
    {
        if s_char[i + j] == pat_char[j] {
            if j == 0 {
                assert(s@.subrange(i as int, i + m) =~= pat@);
                hit = true;
                break ;
            }
            j -= 1;
        } else {
            let c = s_char[i + j];
            let ghost start = i;
            let ghost at = j;
            match bc.get(&(c as u32)) {
                Some(t) => {
                    let t = *t;
                    assert(t != j) by {
                        lemma_code_is_injective(pat@[t as int], c);
                    }
                    if t > j {
                        i += 1;
                    } else {
                        i += j - t;
                    }
                },
                None => {
                    i += j + 1;
                },
            }
            assert forall|p: int| start <= p < i implies !occurs_at(s@, pat@, p) by {
                if occurs_at(s@, pat@, p) {
                    let k = p - start;
                    lemma_occurrence(s@, pat@, p, at - k);
                    assert(pat@[at - k] == c);
                    assert(bc@.contains_key(code(pat@[at - k])));
                }
            }
            j = m - 1;
        }
    }
    if hit {
        Some(i)
    } else {
        assert forall|p: int| !occurs_at(s@, pat@, p) by {
            if occurs_at(s@, pat@, p) {
                assert(p <= n - m);
            }
        }
        None
    }
}

/// Create bad character table
pub fn build_bc(pat: &str) -> (map: HashMap<u32, usize>)
    ensures
        is_last_position_table(pat@, map@),
{
    let chars = to_chars(pat);
    let mut map: HashMap<u32, usize> = HashMap::new();
    let mut i: usize = 0;
    while i < chars.len()
        invariant
            chars@ == pat@,
            i <= chars@.len(),
            forall|at: int|
                0 <= at < i ==> map@.contains_key(code(#[trigger] chars@[at])) && map@[code(
                    chars@[at],
                )] >= at,
            forall|c: u32| #[trigger]
                map@.contains_key(c) ==> map@[c] < i && code(chars@[map@[c] as int]) == c,
        decreases chars@.len() - i,
    {
        let c = chars[i];
        map.insert(c as u32, i);
        i += 1;
    }
    map
}

/// Create good suffix table
pub fn build_gs(pat: &str) -> (table: Vec<Option<usize>>)
    ensures
        table@.len() == pat@.len(),
        forall|k: int| 0 <= k < table@.len() ==> table@[k] is None,
{
    let n = pat.unicode_len();
    let mut table: Vec<Option<usize>> = Vec::new();
    let mut i: usize = 0;
    while i < n
        invariant
            i <= n,
            table@.len() == i,
            forall|k: int| 0 <= k < table@.len() ==> table@[k] is None,
        decreases n - i,
    {
        table.push(None);
        i += 1;
    }
    table
}

} // verus!
