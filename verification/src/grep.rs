//! Searching the lines of a text for a query.

use crate::algorithm::bm::bm;
use crate::text::{lines, lines_of, lowercase_of, occurs_at, to_lowercase, views_of};
use vstd::prelude::*;

verus! {

pub struct Config {
    pub query: String,
    pub filename: String,
    pub case_sensitive: bool,
}

/// Why the arguments do not make a configuration.
#[derive(Debug, Clone, Copy, PartialEq, Eq, Structural)]
pub enum ConfigError {
    /// No query string follows the program name.
    MissingQuery,
    /// No filename follows the query.
    MissingFilename,
}

impl ConfigError {
    /// The message for the user.
    pub fn message(&self) -> (text: &'static str)
        ensures
            text@ == match self {
                ConfigError::MissingQuery => "Didn't get a query string"@,
                ConfigError::MissingFilename => "Didn't get a filename"@,
            },
    {
        match self {
            ConfigError::MissingQuery => "Didn't get a query string",
            ConfigError::MissingFilename => "Didn't get a filename",
        }
    }
}

impl Config {
    /// Reads the configuration from the program's arguments, the program name first, and
    /// from whether the environment sets `CASE_SENSITIVE`. The query is the second
    /// argument and the filename the third. A fourth argument decides the case
    /// sensitivity: it is on exactly for `true`. Without a fourth argument it is on
    /// exactly when the environment does not set the variable.
    pub fn try_parse_config(args: Vec<String>, env_sets_case_sensitive: bool) -> (config: Result<
        Config,
        ConfigError,
    >)
        ensures
            args@.len() < 2 ==> config == Err::<Config, ConfigError>(ConfigError::MissingQuery),
            args@.len() == 2 ==> config == Err::<Config, ConfigError>(ConfigError::MissingFilename),
            args@.len() >= 3 ==> (config matches Ok(c) && c.query@ == args@[1]@ && c.filename@
                == args@[2]@ && c.case_sensitive == if args@.len() >= 4 {
                args@[3]@ == "true"@
            } else {
                !env_sets_case_sensitive
            }),
    {
        if args.len() < 2 {
            return Err(ConfigError::MissingQuery);
        }
        if args.len() < 3 {
            return Err(ConfigError::MissingFilename);
        }
        let query = args[1].clone();
        let filename = args[2].clone();
        let case_sensitive = if args.len() >= 4 {
            let wanted = "true".to_owned();
            args[3] == wanted
        } else {
            !env_sets_case_sensitive
        };
        Ok(Config { query, filename, case_sensitive })
    }
}

/// Whether `needle` stands somewhere in `hay`.
pub open spec fn contains_text(hay: Seq<char>, needle: Seq<char>) -> bool {
    exists|at: int| occurs_at(hay, needle, at)
}

/// Whether a line is kept: the lowercased query stands in the line as it is when the
/// search is case sensitive, and in the lowercased line otherwise.
pub open spec fn line_matches(line: Seq<char>, query: Seq<char>, sensitive: bool) -> bool {
    if sensitive {
        contains_text(line, lowercase_of(query))
    } else {
        contains_text(lowercase_of(line), lowercase_of(query))
    }
}

/// The lines that are kept, in their order.
pub open spec fn matching_lines(lines: Seq<Seq<char>>, query: Seq<char>, sensitive: bool) -> Seq<
    Seq<char>,
>
    decreases lines.len(),
{
    if lines.len() == 0 {
        Seq::empty()
    } else {
        let before = matching_lines(lines.drop_last(), query, sensitive);
        if line_matches(lines.last(), query, sensitive) {
            before.push(lines.last())
        } else {
            before
        }
    }
}

/// Whether `needle` stands somewhere in `hay`.
pub fn contains(hay: &str, needle: &str) -> (found: bool)
    ensures
        found == contains_text(hay@, needle@),
{
    bm(hay, needle).is_some()
}

/// The lines of `contents` in which the query stands. The query is always lowercased;
/// the lines are lowercased only when the search is not case sensitive.
pub fn search<'a>(query: &str, contents: &'a str, sensitive: bool) -> (found: Vec<&'a str>)
    ensures
        views_of(found@) == matching_lines(lines_of(contents@), query@, sensitive),
{
    let lowered = to_lowercase(query);
    let all = lines(contents);
    let mut found: Vec<&'a str> = Vec::new();
    let mut i: usize = 0;
    assert(views_of(all@).take(0) =~= Seq::<Seq<char>>::empty());
    assert(views_of(found@) =~= Seq::<Seq<char>>::empty());
    while i < all.len()
        invariant
            i <= all@.len(),
            lowered@ == lowercase_of(query@),
            views_of(found@) == matching_lines(views_of(all@).take(i as int), query@, sensitive),
        decreases all@.len() - i,
    {
        let line: &'a str = all[i];
        let keep = if sensitive {
            contains(line, lowered.as_str())
        } else {
            contains(to_lowercase(line).as_str(), lowered.as_str())
        };
        let ghost kept = found@;
        proof {
            let sofar = views_of(all@).take(i as int);
            let next = views_of(all@).take(i + 1);
            assert(next.drop_last() =~= sofar);
            assert(next.last() == line@);
        }
        if keep {
            found.push(line);
            assert(views_of(found@) =~= views_of(kept).push(line@));
        }
        i += 1;
    }
    assert(views_of(all@).take(all@.len() as int) =~= views_of(all@));
    found
}

} // verus!
