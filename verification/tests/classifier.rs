use git_detective::attribution::attribute;
use git_detective::classifier::{annotate, classify, holds, is_readable, kind_of_gain};
use git_detective::{Blame, BlameHunk, LineKind, Stats};

const SOURCE: &str = "fn main() {\n    // say hello\n\n    /* in\n       two lines */\n    println!(\"hello\");\n}\n";

#[test]
fn lines_of_rust_are_told_apart() {
    let annotations = annotate("Rust", SOURCE.as_bytes()).unwrap();
    assert_eq!(annotations.len(), 7);
    assert_eq!(annotations.get(&1), Some(&LineKind::Code));
    assert_eq!(annotations.get(&2), Some(&LineKind::Comment));
    assert_eq!(annotations.get(&3), Some(&LineKind::Blank));
    assert_eq!(annotations.get(&4), Some(&LineKind::Comment));
    assert_eq!(annotations.get(&5), Some(&LineKind::Comment));
    assert_eq!(annotations.get(&6), Some(&LineKind::Code));
    assert_eq!(annotations.get(&7), Some(&LineKind::Code));
    assert_eq!(annotations.get(&0), None);
    assert_eq!(annotations.get(&8), None);
}

#[test]
fn a_last_line_without_line_feed_is_a_line() {
    let annotations = annotate("Rust", b"let a = 1;\nlet b = 2;").unwrap();
    assert_eq!(annotations.len(), 2);
    assert_eq!(annotations.get(&2), Some(&LineKind::Code));
    let annotations = annotate("Rust", b"\n").unwrap();
    assert_eq!(annotations.len(), 1);
    assert_eq!(annotations.get(&1), Some(&LineKind::Blank));
}

#[test]
fn plain_text_is_read_as_prose() {
    // tokei counts every line of prose that is not blank as a comment
    let annotations = annotate("Plain Text", b"// some words\n\nwords\n").unwrap();
    assert_eq!(annotations.get(&1), Some(&LineKind::Comment));
    assert_eq!(annotations.get(&3), Some(&LineKind::Comment));
    assert_eq!(annotations.get(&2), Some(&LineKind::Blank));
    assert_eq!(annotations.len(), 3);
}

#[test]
fn an_empty_text_has_no_lines() {
    assert!(annotate("Rust", b"").unwrap().is_empty());
    assert!(annotate("no such language", b"").unwrap().is_empty());
}

#[test]
fn an_unknown_language_cannot_be_annotated() {
    assert!(annotate("no such language", b"a\n").is_none());
}

#[test]
fn the_kind_is_told_from_the_gain() {
    assert_eq!(kind_of_gain((3, 1, 1), (4, 1, 1)), Some(LineKind::Code));
    assert_eq!(kind_of_gain((3, 1, 1), (3, 2, 1)), Some(LineKind::Comment));
    assert_eq!(kind_of_gain((3, 1, 1), (3, 1, 2)), Some(LineKind::Blank));
    assert_eq!(kind_of_gain((3, 1, 1), (3, 1, 1)), None);
    assert_eq!(kind_of_gain((3, 1, 1), (4, 0, 1)), None);
    assert_eq!(kind_of_gain((3, 1, 1), (5, 1, 1)), None);
    assert_eq!(kind_of_gain((3, 1, 1), (4, 2, 1)), None);
}

#[test]
fn a_file_is_attributed_from_its_text() {
    let blame = Blame::new(vec![
        BlameHunk::new(1, 3, b"A".to_vec()),
        BlameHunk::new(4, 4, b"B".to_vec()),
    ])
    .unwrap();
    let credits = attribute(&blame, &annotate("Rust", SOURCE.as_bytes()).unwrap());
    assert_eq!(credits.get("A"), Some(&Stats { lines: 3, code: 1, comments: 1, blanks: 1 }));
    assert_eq!(credits.get("B"), Some(&Stats { lines: 4, code: 2, comments: 2, blanks: 0 }));
}

#[test]
fn a_text_of_unknown_language_is_read_as_plain_text() {
    let annotations = classify(None, b"words\n\n");
    assert_eq!(annotations.len(), 2);
    assert_eq!(annotations.get(&1), Some(&LineKind::Comment));
    assert_eq!(annotations.get(&2), Some(&LineKind::Blank));
    assert_eq!(classify(Some("Rust"), b"let a = 1;\n").get(&1), Some(&LineKind::Code));
    assert!(classify(Some("no such language"), b"words\n").is_empty());
}

#[test]
fn a_word_is_found_whatever_the_case_of_the_text() {
    assert!(holds(b"see the Jupyter docs", b"jupyter"));
    assert!(holds(b"JUPYTER", b"jupyter"));
    assert!(holds(b"xjupyter", b"jupyter"));
    assert!(!holds(b"jupyte", b"jupyter"));
    assert!(!holds(b"jupy ter", b"jupyter"));
    assert!(!holds(b"", b"jupyter"));
    assert!(holds(b"", b""));
    assert!(holds(b"abc", b""));
    assert!(holds(b"a\rb", b"\r"));
    assert!(!holds(b"a\nb", b"\r"));
    // the word is given in small letters
    assert!(!holds(b"jupyter", b"Jupyter"));
}

#[test]
fn a_block_with_a_carriage_return_is_kept_from_tokei() {
    let text = b"<script>\ra </script>";
    assert!(!is_readable("HTML", text));
    assert!(annotate("HTML", text).is_none());
    assert!(classify(Some("HTML"), text).is_empty());
    assert!(!is_readable("Rust", b"/// <STYLE>\r\n"));
    assert!(!is_readable("Vue", b"<template>\r\n</template>\r\n"));
}

#[test]
fn a_notebook_is_kept_from_tokei() {
    assert!(!is_readable("Jupyter Notebooks", b"{}"));
    assert!(!is_readable("jupyter notebooks", b""));
    assert!(annotate("Jupyter Notebooks", b"{}\n").is_none());
    assert!(!is_readable("HTML", b"<style lang=\"Jupyter Notebooks\">{}</style>\n"));
    assert!(annotate("Rust", b"// see the jupyter docs\n").is_none());
}

#[test]
fn carriage_returns_alone_are_no_hindrance() {
    assert!(is_readable("Rust", b"fn main() {\r\n}\r\n"));
    let annotations = annotate("Rust", b"fn main() {\r\n// done\r\n\r\n}\r\n").unwrap();
    assert_eq!(annotations.len(), 4);
    assert_eq!(annotations.get(&1), Some(&LineKind::Code));
    assert_eq!(annotations.get(&2), Some(&LineKind::Comment));
    assert_eq!(annotations.get(&3), Some(&LineKind::Blank));
    assert_eq!(annotations.get(&4), Some(&LineKind::Code));
}

#[test]
fn a_block_without_carriage_return_is_read() {
    let text = b"<html>\n<script>\nlet a = 1;\n</script>\n</html>\n";
    assert!(is_readable("HTML", text));
    let annotations = annotate("HTML", text).unwrap();
    assert_eq!(annotations.get(&1), Some(&LineKind::Code));
    assert!(annotations.len() <= 5);
}
