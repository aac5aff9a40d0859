//! Taking tokens off the front of a string.

use crate::text::{find_char, is_first_position};
use vstd::prelude::*;
use vstd::string::StrSliceExecFns;

verus! {

/// Takes the token before the first `pat` off the front of `s`: the token is returned and
/// `s` goes on behind the `pat`. Without a `pat` the whole of `s` is the token and `s`
/// becomes empty.
pub fn strtok<'a>(s: &'a mut &str, pat: char) -> (token: &'a str)
    ensures
        !old(s)@.contains(pat) ==> token@ == old(s)@ && final(s)@ == Seq::<char>::empty(),
        forall|at: int|
            is_first_position(old(s)@, pat, at) ==> token@ == old(s)@.subrange(0, at) && final(s)@ == old(s)@.subrange(at + 1, old(s)@.len() as int),
{
    let whole: &str = *s;
    match find_char(whole, pat) {
        Some(idx) => {
            let len = whole.unicode_len();
            let preffix = whole.substring_char(0, idx);
            let suffix = whole.substring_char(idx + 1, len);
            *s = suffix;
            assert forall|at: int| is_first_position(whole@, pat, at) implies at == idx by {
                crate::text::lemma_first_position_unique(whole@, pat, at, idx as int);
            }
            preffix
        },
        None => {
            let preffix = whole;
            proof {
                reveal_strlit("");
            }
            *s = "";
            assert(s@ =~= Seq::<char>::empty());
            preffix
        },
    }
}

} // verus!
