//! The command line of the comparison tool.

use crate::text::{find_char, is_first_position, trim, trimmed};
use vstd::prelude::*;
use vstd::string::StrSliceExecFns;

verus! {

/// Diff two http requests and compare the difference of the responses.
#[derive(Debug)]
pub struct Args {
    pub action: Action,
}

#[derive(Debug)]
#[non_exhaustive]
pub enum Action {
    /// The default xdiff action.
    Run(RunArgs),
    /// Parse URLs to generate a profile.
    Parse,
}

#[derive(Debug)]
pub struct RunArgs {
    /// The config file name.
    pub config: Option<String>,
    /// The profile name in config.
    pub profile: String,
    /// The override args from cli input. Could be used to override the query, headers and body of the request.
    ///
    /// - For query params, use `-o key=value`.
    /// - For headers, use `-o %key=value`.
    /// - For body, use `-o @key=value`.
    pub override_args: Vec<KeyVal>,
}

#[derive(Debug, Clone, Copy, PartialEq, Eq, Structural)]
pub enum KeyValType {
    Query,
    Header,
    Body,
}

#[derive(Debug, PartialEq, Eq)]
pub struct KeyVal {
    pub key_type: KeyValType,
    pub key: String,
    pub value: String,
}

impl Clone for KeyVal {
    fn clone(&self) -> (copy: Self)
        ensures
            copy == *self,
    {
        KeyVal { key_type: self.key_type, key: self.key.clone(), value: self.value.clone() }
    }
}

/// Why a string is no key-value pair.
#[derive(Debug, Clone, Copy, PartialEq, Eq, Structural)]
pub enum KeyValError {
    /// The string holds no `=`.
    MissingValue,
    /// The key is empty or starts with something else than `%`, `@` or an ASCII letter.
    InvalidKey,
}

/// Whether `c` is one of the ASCII letters.
pub open spec fn is_ascii_letter(c: char) -> bool {
    ('a' <= c && c <= 'z') || ('A' <= c && c <= 'Z')
}

/// What a trimmed key stands for: its kind and its name, or `None` for a key that is
/// not valid.
pub open spec fn classify(key: Seq<char>) -> Option<(KeyValType, Seq<char>)> {
    if key.len() == 0 {
        None
    } else if key[0] == '%' {
        Some((KeyValType::Header, key.subrange(1, key.len() as int)))
    } else if key[0] == '@' {
        Some((KeyValType::Body, key.subrange(1, key.len() as int)))
    } else if is_ascii_letter(key[0]) {
        Some((KeyValType::Query, key))
    } else {
        None
    }
}

/// What the string `s`, with its first `=` at `at`, parses to.
pub open spec fn parsed_at(s: Seq<char>, at: int) -> Result<
    (KeyValType, Seq<char>, Seq<char>),
    KeyValError,
> {
    let key = trimmed(s.subrange(0, at));
    let value = trimmed(s.subrange(at + 1, s.len() as int));
    match classify(key) {
        Some((kind, name)) => Ok((kind, name, value)),
        None => Err(KeyValError::InvalidKey),
    }
}

/// Parses `key=value`, both trimmed: `%key` names a header, `@key` a field of the body,
/// and a key that starts with an ASCII letter a query parameter. The value is what
/// follows the first `=`.
pub fn parse_key_val(s: &str) -> (parsed: Result<KeyVal, KeyValError>)
    ensures
        !s@.contains('=') ==> parsed == Err::<KeyVal, KeyValError>(KeyValError::MissingValue),
        forall|at: int|
            is_first_position(s@, '=', at) ==> match parsed_at(s@, at) {
                Ok((kind, name, value)) => parsed matches Ok(kv) && kv.key_type == kind && kv.key@
                    == name && kv.value@ == value,
                Err(e) => parsed == Err::<KeyVal, KeyValError>(e),
            },
{
    let at = match find_char(s, '=') {
        Some(at) => at,
        None => {
            return Err(KeyValError::MissingValue);
        },
    };
    assert forall|other: int| is_first_position(s@, '=', other) implies other == at by {
        crate::text::lemma_first_position_unique(s@, '=', other, at as int);
    }
    let len = s.unicode_len();
    let key = trim(s.substring_char(0, at));
    let value = trim(s.substring_char(at + 1, len));
    let key_len = key.unicode_len();
    if key_len == 0 {
        return Err(KeyValError::InvalidKey);
    }
    let first = key.get_char(0);
    let (key_type, key) = if first == '%' {
        (KeyValType::Header, key.substring_char(1, key_len))
    } else if first == '@' {
        (KeyValType::Body, key.substring_char(1, key_len))
    } else if (first >= 'a' && first <= 'z') || (first >= 'A' && first <= 'Z') {
        (KeyValType::Query, key)
    } else {
        return Err(KeyValError::InvalidKey);
    };
    Ok(KeyVal { key_type, key: key.to_owned(), value: value.to_owned() })
}

#[derive(Debug)]
pub struct OverrideArgs {
    pub headers: Vec<(String, String)>,
    pub body: Vec<(String, String)>,
    pub query: Vec<(String, String)>,
}

/// The pairs of the arguments of one kind, in their order.
pub open spec fn pairs_of(args: Seq<KeyVal>, kind: KeyValType) -> Seq<(String, String)>
    decreases args.len(),
{
    if args.len() == 0 {
        Seq::empty()
    } else {
        let before = pairs_of(args.drop_last(), kind);
        if args.last().key_type == kind {
            before.push((args.last().key, args.last().value))
        } else {
            before
        }
    }
}

impl OverrideArgs {
    /// Sorts the arguments by kind: the query arguments go to the headers, the header
    /// arguments to the body and the body arguments to the query, each in their order.
    pub fn from(args: Vec<KeyVal>) -> (sorted: Self)
        ensures
            sorted.headers@ == pairs_of(args@, KeyValType::Query),
            sorted.body@ == pairs_of(args@, KeyValType::Header),
            sorted.query@ == pairs_of(args@, KeyValType::Body),
    {
        let mut headers: Vec<(String, String)> = Vec::new();
        let mut body: Vec<(String, String)> = Vec::new();
        let mut query: Vec<(String, String)> = Vec::new();
        let mut i: usize = 0;
        assert(args@.take(0) =~= Seq::<KeyVal>::empty());
        while i < args.len()
            invariant
                i <= args@.len(),
                headers@ == pairs_of(args@.take(i as int), KeyValType::Query),
                body@ == pairs_of(args@.take(i as int), KeyValType::Header),
                query@ == pairs_of(args@.take(i as int), KeyValType::Body),
            decreases args@.len() - i,
        {
            let arg = &args[i];
            proof {
                let next = args@.take(i + 1);
                assert(next.drop_last() =~= args@.take(i as int));
                assert(next.last() == *arg);
            }
            match arg.key_type {
                KeyValType::Query => headers.push((arg.key.clone(), arg.value.clone())),
                KeyValType::Header => body.push((arg.key.clone(), arg.value.clone())),
                KeyValType::Body => query.push((arg.key.clone(), arg.value.clone())),
            }
            i += 1;
        }
        assert(args@.take(args@.len() as int) =~= args@);
        Self { headers, body, query }
    }
}

impl Default for OverrideArgs {
    /// No argument of any kind.
    fn default() -> (none: Self)
        ensures
            none.headers@.len() == 0,
            none.body@.len() == 0,
            none.query@.len() == 0,
    {
        Self { headers: Vec::new(), body: Vec::new(), query: Vec::new() }
    }
}

} // verus!
