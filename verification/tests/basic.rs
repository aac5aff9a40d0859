use pow::basic::encoder::{Encode, Event};
use pow::basic::fibonacci::Fibonacci;
use pow::basic::strsplit::{until_char, Delimiter, StrSplit};
use pow::basic::strtok::strtok;
use pow::basic::user::{Gender, User};
use pow::grep::{contains, search, Config, ConfigError};
use pow::kv::{respond, Command, Request, Response};
use pow::xdiff::cli::{parse_key_val, KeyVal, KeyValError, KeyValType, OverrideArgs};
use pow::xdiff::profile::ResponseProfile;

#[test]
fn test_encode() {
    let event = Event::new(1234_u64, "hello world".to_string());
    let encode = event.encode().unwrap();
    println!("{:#?}", encode);
}

#[test]
fn encode_is_id_then_data() {
    let event = Event::new(0x0102_0304_0506_0708_u64, "hi".to_string());
    assert_eq!(event.encode().unwrap(), vec![1, 2, 3, 4, 5, 6, 7, 8, b'h', b'i']);
    assert_eq!(1234_u64.encode().unwrap(), 1234_u64.to_be_bytes().to_vec());
}

#[test]
fn test_fibonacci() {
    let mut fib = Fibonacci::new(10);
    assert_eq!(fib.next(), Some(1));

    let mut i = 0;
    while let Some(item) = fib.next() {
        println!("{}: {}", i, item);
        i += 1;
    }
    assert_eq!(i, 9);
}

#[test]
fn fibonacci_values() {
    let mut fib = Fibonacci::new(6);
    let mut seen = vec![];
    while let Some(item) = fib.next() {
        seen.push(item);
    }
    assert_eq!(seen, vec![1, 1, 2, 3, 5, 8]);
    assert_eq!(fib.next(), None);
    assert_eq!(Fibonacci::new(0).next(), None);
}

#[test]
fn test_strtok() {
    let mut s = "helloworld";
    let pat = ' ';
    assert_eq!(strtok(&mut s, pat), "helloworld");
    assert_eq!(s, "");
}

#[test]
fn strtok_takes_tokens_in_turn() {
    let mut s = "hello brave world";
    assert_eq!(strtok(&mut s, ' '), "hello");
    assert_eq!(s, "brave world");
    assert_eq!(strtok(&mut s, ' '), "brave");
    assert_eq!(strtok(&mut s, ' '), "world");
    assert_eq!(s, "");
}

#[test]
fn test_until_char() {
    assert_eq!(until_char("hello world", 'o'), "hell");
}

#[test]
fn test_strsplit_general() {
    let string = "a b c d e";
    let pat = " ";

    let mut split = StrSplit::new(string, pat);
    let mut ss = vec![];
    while let Some(piece) = split.next() {
        ss.push(piece);
    }
    let target = vec!["a", "b", "c", "d", "e"];

    assert_eq!(ss, target);
}

#[test]
fn test_strsplit_tail_space() {
    let string = "a b c d ";
    let pat = " ";

    let mut split = StrSplit::new(string, pat);
    let mut ss = vec![];
    while let Some(piece) = split.next() {
        ss.push(piece);
    }
    let target = vec!["a", "b", "c", "d", ""];

    assert_eq!(ss, target);
}

#[test]
fn test_strsplit_no_pat() {
    let string = "abcde";
    let pat = " ";

    let mut split = StrSplit::new(string, pat);
    let mut ss = vec![];
    while let Some(piece) = split.next() {
        ss.push(piece);
    }
    let target = vec!["abcde"];

    assert_eq!(ss, target);
}

#[test]
fn test_strsplit_empty() {
    let string = "";
    let pat = " ";

    let mut split = StrSplit::new(string, pat);
    let mut ss = vec![];
    while let Some(piece) = split.next() {
        ss.push(piece);
    }
    let target = vec![""];

    assert_eq!(ss, target);
}

#[test]
fn delimiters_report_ranges() {
    assert_eq!("ab".find_next("xxabyy"), Some((2, 4)));
    assert_eq!("ab".find_next("xxyy"), None);
    assert_eq!('y'.find_next("xxyy"), Some((2, 3)));
    assert_eq!('z'.find_next("xxyy"), None);
}

#[test]
fn user_fields() {
    let user = User::new("changfeng lou".into(), 20, Gender::Male);
    assert_eq!(user.name, "changfeng lou");
    assert_eq!(user.age, 20);
    assert_eq!(user.gender, Gender::Male);
    assert_eq!(User::default(), User::new("Unknown Name".into(), 0, Gender::Unspecified));
}

#[test]
fn search_case_sensitive() {
    let query = "duct";
    let contents = "\
Rust:
safe, fast, productive.
Pick three.";

    assert_eq!(
        vec!["safe, fast, productive."],
        search(query, contents, true)
    );
}

#[test]
fn search_case_insensitive() {
    let query = "rUsT";
    let contents = "\
Rust:
safe, fast, productive.
Pick three.
Trust me.";

    assert_eq!(vec!["Rust:", "Trust me."], search(query, contents, false));
}

#[test]
fn search_lowercases_the_query_even_when_sensitive() {
    let contents = "Rust:\nrust";
    assert_eq!(search("Rust", contents, true), vec!["rust"]);
    assert!(contains("hello", "ell"));
    assert!(!contains("hello", "elo"));
    assert!(contains("hello", ""));
}

#[test]
fn search_splits_lines_at_line_feeds() {
    assert_eq!(search("", "foo\nbar\n\r\nbaz\r", true), vec!["foo", "bar", "", "baz\r"]);
    assert_eq!(search("", "a\r\nb\n", true), vec!["a", "b"]);
    assert_eq!(search("", "\n", true), vec![""]);
    assert_eq!(search("", "", true), Vec::<&str>::new());
    assert_eq!(search("", "a\r\r\n\rb", true), vec!["a\r", "\rb"]);
}

#[test]
fn config_from_arguments() {
    let args = |v: &[&str]| v.iter().map(|s| s.to_string()).collect::<Vec<String>>();
    assert_eq!(Config::try_parse_config(args(&["grep"]), false).err(), Some(ConfigError::MissingQuery));
    assert_eq!(Config::try_parse_config(args(&[]), false).err(), Some(ConfigError::MissingQuery));
    assert_eq!(
        Config::try_parse_config(args(&["grep", "q"]), false).err(),
        Some(ConfigError::MissingFilename)
    );
    let c = Config::try_parse_config(args(&["grep", "q", "f"]), false).ok().unwrap();
    assert_eq!((c.query.as_str(), c.filename.as_str(), c.case_sensitive), ("q", "f", true));
    let c = Config::try_parse_config(args(&["grep", "q", "f"]), true).ok().unwrap();
    assert!(!c.case_sensitive);
    let c = Config::try_parse_config(args(&["grep", "q", "f", "true"]), true).ok().unwrap();
    assert!(c.case_sensitive);
    let c = Config::try_parse_config(args(&["grep", "q", "f", "yes"]), false).ok().unwrap();
    assert!(!c.case_sensitive);
    assert_eq!(ConfigError::MissingQuery.message(), "Didn't get a query string");
    assert_eq!(ConfigError::MissingFilename.message(), "Didn't get a filename");
}

#[test]
fn kv_requests_and_responses() {
    let get = Request::new_get("hello");
    assert!(matches!(&get.command, Some(Command::Get(g)) if g.key == "hello"));
    let put = Request::new_put("hello", b"world");
    assert!(matches!(&put.command, Some(Command::Put(p)) if p.key == "hello" && p.value == b"world".to_vec()));
    let found = Response::new("k".into(), vec![1, 2]);
    assert_eq!((found.code, found.key.as_str(), found.value.clone()), (0, "k", vec![1, 2]));
    let missing = Response::not_found("k".into());
    assert_eq!((missing.code, missing.key.as_str(), missing.value.len()), (404, "k", 0));
    assert_eq!(respond(Request::new_get("k"), None), Some(Response::not_found("k".into())));
    assert_eq!(respond(Request::new_get("k"), Some(&vec![7])), Some(Response::new("k".into(), vec![7])));
    assert_eq!(respond(put, None), Some(Response::new("hello".into(), b"world".to_vec())));
    assert_eq!(respond(Request { command: None }, None), None);
}

#[test]
fn key_value_pairs() {
    let kv = parse_key_val(" %accept = text/plain ").ok().unwrap();
    assert_eq!(kv, KeyVal { key_type: KeyValType::Header, key: "accept".into(), value: "text/plain".into() });
    let kv = parse_key_val("@id=1=2").ok().unwrap();
    assert_eq!(kv, KeyVal { key_type: KeyValType::Body, key: "id".into(), value: "1=2".into() });
    let kv = parse_key_val("page=3").ok().unwrap();
    assert_eq!(kv, KeyVal { key_type: KeyValType::Query, key: "page".into(), value: "3".into() });
    assert_eq!(parse_key_val("page").err(), Some(KeyValError::MissingValue));
    assert_eq!(parse_key_val("=3").err(), Some(KeyValError::InvalidKey));
    assert_eq!(parse_key_val("1a=3").err(), Some(KeyValError::InvalidKey));
}

#[test]
fn override_args_by_kind() {
    let kv = |t: KeyValType, k: &str, v: &str| KeyVal { key_type: t, key: k.into(), value: v.into() };
    let sorted = OverrideArgs::from(vec![
        kv(KeyValType::Query, "q1", "a"),
        kv(KeyValType::Header, "h1", "b"),
        kv(KeyValType::Body, "b1", "c"),
        kv(KeyValType::Query, "q2", "d"),
    ]);
    assert_eq!(sorted.headers, vec![("q1".to_string(), "a".to_string()), ("q2".to_string(), "d".to_string())]);
    assert_eq!(sorted.body, vec![("h1".to_string(), "b".to_string())]);
    assert_eq!(sorted.query, vec![("b1".to_string(), "c".to_string())]);
    let none = OverrideArgs::default();
    assert!(none.headers.is_empty() && none.body.is_empty() && none.query.is_empty());
}

#[test]
fn response_profile_fields() {
    let profile = ResponseProfile::new(vec!["date".into()], vec![]);
    assert_eq!(profile.skip_headers, vec!["date".to_string()]);
    assert!(profile.skip_body.is_empty());
    assert_eq!(ResponseProfile::default(), ResponseProfile::new(vec![], vec![]));
}
