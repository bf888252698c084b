use filesfinder::patterns::PatternSet;
use filesfinder::pipeline::{select_entries, WalkEntry};
use filesfinder::scope::{Flag, Token};

const REPOS_DIR: &str = "/work/repos";

/// Splits command-line words into flags and patterns, one flag per letter of
/// a short-option group.
fn tokens(args: &[&str]) -> Vec<Token> {
    let mut out = Vec::new();
    for a in args {
        if a.len() > 1 && a.starts_with('-') {
            for c in a[1..].chars() {
                let flag = match c {
                    'g' => Flag::Glob(false),
                    'G' => Flag::Glob(true),
                    'r' => Flag::Regex(false),
                    'R' => Flag::Regex(true),
                    'i' => Flag::Accept(false),
                    'I' => Flag::Accept(true),
                    'e' => Flag::Reject(false),
                    'E' => Flag::Reject(true),
                    _ => panic!("unknown flag {}", c),
                };
                out.push(Token::Flag(flag));
            }
        } else {
            out.push(Token::Pattern(a.to_string()));
        }
    }
    out
}

fn fixture() -> Vec<WalkEntry> {
    let entries: [(&str, bool); 17] = [
        ("", false),
        ("proj", false),
        ("proj/src", false),
        ("proj/Cargo.toml", true),
        ("proj/src/main.rs", true),
        ("proj/src/lib.rs", true),
        ("proj/README.md", true),
        ("proj/build.c.txt", true),
        ("cproj", false),
        ("cproj/headers", false),
        ("cproj/main.c", true),
        ("cproj/util.c", true),
        ("cproj/headers/util.h", true),
        ("cproj/Makefile", true),
        ("cproj/notes.rsx", true),
        ("cproj/config.toml", true),
        ("cproj/h.c.bak", true),
    ];
    entries
        .iter()
        .map(|(rel, is_file)| {
            let path = if rel.is_empty() {
                REPOS_DIR.to_string()
            } else {
                format!("{}/{}", REPOS_DIR, rel)
            };
            WalkEntry { path: path.into_bytes(), is_file: *is_file }
        })
        .collect()
}

fn ff(args: &[&str]) -> Vec<String> {
    let set = PatternSet::from_tokens(&tokens(args)).unwrap();
    select_entries(&set, &fixture(), true)
        .into_iter()
        .map(|p| String::from_utf8(p).unwrap())
        .collect()
}

fn assert_all_end_with(files: &[String], suffixes: &[&str]) {
    assert!(!files.is_empty());
    for file in files.iter() {
        assert!(
            suffixes.iter().any(|suff| file.ends_with(suff)),
            "file {} does end with any of {:?}",
            file,
            suffixes
        );
    }
}

fn assert_none_end_with(files: &[String], suffixes: &[&str]) {
    assert!(!files.is_empty());
    for file in files.iter() {
        assert!(
            !suffixes.iter().any(|suff| file.ends_with(suff)),
            "file {} shoud not end with any of {:?}",
            file,
            suffixes
        );
    }
}

#[test]
fn correct_suffix_test_one_glob_pattern() {
    assert_all_end_with(&ff(&["*.rs"]), &[".rs"]);
    assert_none_end_with(&ff(&["*", "-e", "*.rs"]), &[".rs"]);
}

#[test]
fn correct_suffix_test_one_regex_pattern() {
    assert_all_end_with(&ff(&["-r", r".*\.c$"]), &[".c"]);
    assert_none_end_with(&ff(&["*", "-er", r".*\.c$"]), &[".c"]);
}

#[test]
fn test_two_glob_patterns() {
    assert_all_end_with(&ff(&["*.rs", "*.toml"]), &[".rs", ".toml"]);
    assert_none_end_with(&ff(&["*", "-e", "*.rs", "-e", "*.toml"]), &[".rs", ".toml"]);
}

#[test]
fn test_two_regex_patterns() {
    assert_all_end_with(&ff(&["-r", r".*\.c$", "-r", r".*\.h$"]), &[".c", ".h"]);
    assert_none_end_with(&ff(&["*", "-er", r".*\.c$", "-er", r".*\.h$"]), &[".c", ".h"]);
}
