use dossier::py::helpers::{docstring_dedents_cleanly, process_docs};
use dossier::text::{chars_of, join_chars, lines_chars, string_of, strip_prefixes_chars, strip_suffixes_chars, trim_chars};
use dossier::ts::helpers::process_comment;

fn s(v: Vec<char>) -> String {
    string_of(&v)
}

#[test]
fn trims_whitespace_on_both_sides() {
    assert_eq!(s(trim_chars(&chars_of("  \t a b \n"))), "a b");
    assert_eq!(s(trim_chars(&chars_of("   "))), "");
}

#[test]
fn strips_every_repeated_prefix_and_suffix() {
    assert_eq!(s(strip_prefixes_chars(&chars_of("****x*"), &chars_of("*"))), "x*");
    assert_eq!(s(strip_suffixes_chars(&chars_of("x*/*/"), &chars_of("*/"))), "x");
}

#[test]
fn splits_lines_as_str_lines_does() {
    let ls: Vec<String> = lines_chars(&chars_of("a\r\nb\n\nc\n")).into_iter().map(s).collect();
    assert_eq!(ls, vec!["a", "b", "", "c"]);
    assert_eq!(lines_chars(&chars_of("")).len(), 0);
}

#[test]
fn joins_with_a_separator() {
    let parts = vec![chars_of("a"), chars_of("b"), chars_of("c")];
    assert_eq!(s(join_chars(&parts, &chars_of(", "))), "a, b, c");
}

#[test]
fn comments_lose_their_delimiters_and_stars() {
    assert_eq!(process_comment("/**\n * The documentation\n */"), "The documentation");
    assert_eq!(process_comment("/** One line */"), "One line");
    assert_eq!(process_comment("/**\n * First\n *\n * Second\n */"), "First\n\nSecond");
    assert_eq!(process_comment("// plain"), "// plain");
}

#[test]
fn docstrings_are_dedented() {
    assert_eq!(process_docs("'single'"), None);
    assert_eq!(process_docs("\"\"\"One line.\"\"\""), Some("One line.".to_owned()));
    assert_eq!(
        process_docs("\"\"\"Title.\n\n    Body.\n        Indented.\n    \"\"\""),
        Some("Title.\n\nBody.\n    Indented.".to_owned())
    );
}

#[test]
fn docstring_indentation_counts_bytes() {
    let docs = "\"\"\"a\n\u{a0}b\n  c\"\"\"";
    assert!(docstring_dedents_cleanly(docs));
    assert_eq!(process_docs(docs), Some("a\nb\nc".to_owned()));
}

#[test]
fn docstring_indentation_that_splits_a_character_is_refused() {
    let docs = "\"\"\"a\n\u{a0}b\n c\"\"\"";
    assert!(!docstring_dedents_cleanly(docs));
    assert!(docstring_dedents_cleanly("'single'"));
}
