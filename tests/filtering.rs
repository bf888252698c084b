use std::collections::HashSet;

use filesfinder::patterns::{compile_pattern, PatternError, PatternSet};
use filesfinder::pipeline::{
    after_send, entry_output, select_entries, shown_start, write_path, WalkControl, WalkEntry,
};
use filesfinder::scope::{Flag, Kind, Polarity, ResolvedPattern, Token};

fn pat(s: &str) -> Token {
    Token::Pattern(s.to_string())
}

fn set_of(tokens: Vec<Token>) -> PatternSet {
    PatternSet::from_tokens(&tokens).unwrap()
}

fn entry(path: &str, is_file: bool) -> WalkEntry {
    WalkEntry { path: path.as_bytes().to_vec(), is_file }
}

fn output_set(set: &PatternSet, entries: &[WalkEntry], strip: bool) -> HashSet<String> {
    let v: Vec<WalkEntry> =
        entries.iter().map(|e| WalkEntry { path: e.path.clone(), is_file: e.is_file }).collect();
    select_entries(set, &v, strip).into_iter().map(|p| String::from_utf8(p).unwrap()).collect()
}

fn names(v: &[&str]) -> HashSet<String> {
    v.iter().map(|s| s.to_string()).collect()
}

#[test]
fn glob_star_matches_suffix_only() {
    let set = set_of(vec![pat("*.rs")]);
    assert!(set.is_selected(b"foo.rs"));
    assert!(!set.is_selected(b"foo.rsx"));
    // globset's default lets `*` run across `/`, as `find -wholename` does
    assert!(set.is_selected(b"src/foo.rs"));
}

#[test]
fn glob_is_translated_and_regex_kept() {
    let glob = ResolvedPattern { text: "*.rs".to_string(), kind: Kind::Glob, polarity: Polarity::Accept };
    let source = compile_pattern(&glob).unwrap();
    assert_ne!(source, "*.rs");
    assert!(source.contains(r"\.rs"));
    let regex = ResolvedPattern { text: "a+b".to_string(), kind: Kind::Regex, polarity: Polarity::Reject };
    assert_eq!(compile_pattern(&regex).unwrap(), "a+b");
}

#[test]
fn reject_wins_over_accept() {
    // "*.rs" -e "main.rs" over main.rs and lib.rs
    let set = set_of(vec![pat("*.rs"), Token::Flag(Flag::Reject(false)), pat("main.rs")]);
    let entries = [entry("./main.rs", true), entry("./lib.rs", true)];
    assert_eq!(output_set(&set, &entries, true), names(&["lib.rs"]));
    assert!(set.matches_accept(b"main.rs"));
    assert!(set.matches_reject(b"main.rs"));
    assert!(!set.is_selected(b"main.rs"));
}

#[test]
fn reject_only_lists_everything_else() {
    let set = set_of(vec![Token::Flag(Flag::Reject(false)), pat("*.rs")]);
    assert!(set.matches_accept(b"anything"));
    let entries = [
        entry("a.rs", true),
        entry("b.toml", true),
        entry("c/d.md", true),
        entry("c", false),
    ];
    assert_eq!(output_set(&set, &entries, true), names(&["b.toml", "c/d.md"]));
}

#[test]
fn directories_are_never_printed() {
    let set = set_of(vec![pat("*")]);
    let entries = [entry("./src", false), entry("./src/a.rs", true)];
    assert_eq!(output_set(&set, &entries, true), names(&["src/a.rs"]));
    assert!(entry_output(&set, &entry("./src", false), true).is_none());
}

#[test]
fn no_patterns_is_an_error() {
    assert!(matches!(PatternSet::from_tokens(&vec![]), Err(PatternError::NoPatterns)));
    let only_flags = vec![Token::Flag(Flag::Regex(false)), Token::Flag(Flag::Reject(true))];
    assert!(matches!(PatternSet::from_tokens(&only_flags), Err(PatternError::NoPatterns)));
}

#[test]
fn malformed_regex_is_an_error() {
    let r = PatternSet::from_tokens(&vec![pat("*.c"), Token::Flag(Flag::Regex(false)), pat("(ab")]);
    assert!(matches!(r, Err(PatternError::Regex(_))));
    let r = PatternSet::from_tokens(&vec![Token::Flag(Flag::Reject(true)), Token::Flag(Flag::Regex(false)), pat("a)")]);
    assert!(matches!(r, Err(PatternError::Regex(_))));
}

#[test]
fn malformed_glob_names_the_first_bad_glob() {
    let r = PatternSet::from_tokens(&vec![pat("*.rs"), pat("[abc"), pat("{x")]);
    match r {
        Err(PatternError::Glob(text, _)) => assert_eq!(text, "[abc"),
        other => panic!("unexpected {:?}", other.is_ok()),
    }
}

#[test]
fn pattern_order_does_not_change_output() {
    let entries = [
        entry("./a.rs", true),
        entry("./b.toml", true),
        entry("./c.md", true),
        entry("./d/e.rs", true),
    ];
    let one = set_of(vec![pat("*.rs"), pat("*.toml")]);
    let two = set_of(vec![pat("*.toml"), pat("*.rs")]);
    let expected = names(&["a.rs", "b.toml", "d/e.rs"]);
    assert_eq!(output_set(&one, &entries, true), expected);
    assert_eq!(output_set(&two, &entries, true), expected);
}

#[test]
fn worker_shares_give_the_same_set() {
    let set = set_of(vec![pat("*.rs"), Token::Flag(Flag::Reject(false)), pat("*/gen/*")]);
    let all = [
        entry("./a.rs", true),
        entry("./gen/b.rs", true),
        entry("./src/gen/c.rs", true),
        entry("./src/d.rs", true),
        entry("./src", false),
        entry("./e.txt", true),
    ];
    let whole = output_set(&set, &all, true);
    assert_eq!(whole, names(&["a.rs", "gen/b.rs", "src/d.rs"]));
    for workers in [1usize, 2, 3, 6] {
        let mut union = HashSet::new();
        for w in 0..workers {
            let share: Vec<WalkEntry> = all
                .iter()
                .enumerate()
                .filter(|(i, _)| i % workers == w)
                .map(|(_, e)| WalkEntry { path: e.path.clone(), is_file: e.is_file })
                .collect();
            union.extend(output_set(&set, &share, true));
        }
        assert_eq!(union, whole);
    }
}

#[test]
fn leading_dot_slash_is_stripped() {
    assert_eq!(shown_start(b"./a", true), 2);
    assert_eq!(shown_start(b".//a", true), 3);
    assert_eq!(shown_start(b"./a", false), 0);
    assert_eq!(shown_start(b"a/./b", true), 0);
    assert_eq!(shown_start(b".a", true), 0);
    assert_eq!(shown_start(b"./", true), 2);
    assert_eq!(shown_start(b"", true), 0);
}

#[test]
fn stripping_changes_what_is_matched() {
    let set = set_of(vec![Token::Flag(Flag::Regex(false)), pat("^src/")]);
    let e = entry("./src/a.rs", true);
    assert_eq!(entry_output(&set, &e, true), Some(b"src/a.rs".to_vec()));
    assert_eq!(entry_output(&set, &e, false), None);
}

#[test]
fn failed_send_stops_the_worker() {
    assert_eq!(after_send(true), WalkControl::Continue);
    assert_eq!(after_send(false), WalkControl::Quit);
}

#[test]
fn paths_are_written_one_per_line() {
    let mut out: Vec<u8> = Vec::new();
    write_path(&mut out, b"a/b.rs");
    write_path(&mut out, &[0x66, 0xff, 0x6f]);
    assert_eq!(out, b"a/b.rs\nf\xffo\n".to_vec());
}
