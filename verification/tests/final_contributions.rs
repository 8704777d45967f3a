use git_detective::{
    Blame, BlameHunk, Error, FileSnapshot, GitDetective, LineKind, ProjectStats, Stats,
};
use std::collections::HashMap;
use std::mem::discriminant;
use std::path::PathBuf;

fn annotate(first: usize, last: usize, kind: LineKind) -> HashMap<usize, LineKind> {
    (first..=last).map(|line| (line, kind)).collect()
}

fn snapshot(path: &str, language: Option<&str>, author: &str, lines: usize) -> FileSnapshot {
    FileSnapshot {
        path: path.to_string(),
        language: language.map(|name| name.to_string()),
        blame: Ok(Blame::new(vec![BlameHunk::new(1, lines, author.as_bytes().to_vec())]).unwrap()),
        annotations: Ok(annotate(1, lines, LineKind::Code)),
    }
}

fn unblamable(path: &str) -> FileSnapshot {
    FileSnapshot {
        path: path.to_string(),
        language: None,
        blame: Err(git2::Error::from_str("binary file")),
        annotations: Ok(HashMap::new()),
    }
}

fn unreadable(path: &str, author: &str) -> FileSnapshot {
    FileSnapshot {
        path: path.to_string(),
        language: Some("Rust".to_string()),
        blame: Ok(Blame::new(vec![BlameHunk::new(1, 3, author.as_bytes().to_vec())]).unwrap()),
        annotations: Err((
            std::io::Error::new(std::io::ErrorKind::NotFound, "gone"),
            PathBuf::from(path),
        )),
    }
}

fn cell(stats: &ProjectStats, author: &str, language: &str) -> Option<Stats> {
    stats.contribs_by_name(author).and_then(|languages| languages.get(language).copied())
}

fn code(lines: usize) -> Stats {
    Stats { lines, blanks: 0, comments: 0, code: lines }
}

#[test]
fn two_files_two_authors() {
    let gd = GitDetective::new();
    let files = vec![
        snapshot("a.rs", Some("Rust"), "A", 5),
        snapshot("b.rs", Some("Rust"), "B", 5),
    ];
    let stats = gd.final_contributions(&files);
    assert_eq!(stats.contributors().len(), 2);
    assert_eq!(cell(&stats, "A", "Rust"), Some(code(5)));
    assert_eq!(cell(&stats, "B", "Rust"), Some(code(5)));
    assert_eq!(stats.total_contribs_by_name("A"), Some(code(5)));
    assert_eq!(stats.total_contribs_by_name("B"), Some(code(5)));
    assert_eq!(stats.total_lines(), 10);
}

#[test]
fn a_file_that_cannot_be_blamed_contributes_nothing() {
    let gd = GitDetective::new();
    let files = vec![
        snapshot("a.rs", Some("Rust"), "A", 5),
        unblamable("logo.png"),
        snapshot("b.rs", Some("Rust"), "A", 2),
    ];
    let stats = gd.final_contributions(&files);
    assert_eq!(stats.contributors().len(), 1);
    assert_eq!(cell(&stats, "A", "Rust"), Some(code(7)));
    assert_eq!(stats.total_lines(), 7);
}

#[test]
fn a_file_that_cannot_be_read_contributes_nothing() {
    let gd = GitDetective::new();
    let files = vec![unreadable("gone.rs", "B"), snapshot("a.rs", Some("Rust"), "A", 5)];
    let stats = gd.final_contributions(&files);
    assert!(stats.contribs_by_name("B").is_none());
    assert_eq!(cell(&stats, "A", "Rust"), Some(code(5)));
    assert_eq!(stats.total_lines(), 5);
}

#[test]
fn only_bad_files_give_an_empty_report() {
    let gd = GitDetective::new();
    let stats = gd.final_contributions(&vec![unblamable("x"), unreadable("y", "A")]);
    assert!(stats.is_empty());
    assert_eq!(stats.total_lines(), 0);
    assert!(gd.final_contributions(&Vec::new()).is_empty());
}

#[test]
fn a_file_of_unknown_language_is_plain_text() {
    let gd = GitDetective::new();
    let stats = gd.final_contributions(&vec![snapshot("LICENSE", None, "A", 3)]);
    assert_eq!(cell(&stats, "A", "Plain Text"), Some(code(3)));
    assert_eq!(git_detective::snapshot::fallback_language(), "Plain Text");
}

#[test]
fn languages_of_one_author_are_kept_apart() {
    let gd = GitDetective::new();
    let files = vec![
        snapshot("a.rs", Some("Rust"), "A", 5),
        snapshot("a.toml", Some("TOML"), "A", 2),
        snapshot("b.rs", Some("Rust"), "A", 4),
    ];
    let stats = gd.final_contributions(&files);
    assert_eq!(cell(&stats, "A", "Rust"), Some(code(9)));
    assert_eq!(cell(&stats, "A", "TOML"), Some(code(2)));
    assert_eq!(stats.total_contribs_by_name("A"), Some(code(11)));
    assert_eq!(stats.total_lines(), 11);
}

#[test]
fn an_excluded_file_is_not_attributed() {
    let files = vec![
        snapshot("a.rs", Some("Rust"), "A", 5),
        snapshot("b.rs", Some("Rust"), "B", 7),
    ];
    let mut gd = GitDetective::new();
    let before = gd.final_contributions(&files);
    assert_eq!(before.total_lines(), 12);
    gd.exclude_file("b.rs");
    assert!(gd.is_excluded("b.rs"));
    let excluded = gd.final_contributions(&files);
    assert!(excluded.contribs_by_name("B").is_none());
    assert_eq!(cell(&excluded, "A", "Rust"), Some(code(5)));
    assert_eq!(excluded.total_lines(), 5);
    gd.include_file("b.rs");
    assert!(!gd.is_excluded("b.rs"));
    let after = gd.final_contributions(&files);
    assert_eq!(cell(&after, "A", "Rust"), cell(&before, "A", "Rust"));
    assert_eq!(cell(&after, "B", "Rust"), cell(&before, "B", "Rust"));
    assert_eq!(after.contributors(), before.contributors());
    assert_eq!(after.total_lines(), 12);
}

#[test]
fn the_order_of_the_files_does_not_matter() {
    let gd = GitDetective::new();
    let forward = vec![
        snapshot("a.rs", Some("Rust"), "A", 5),
        snapshot("b.go", Some("Go"), "B", 7),
        snapshot("c.rs", Some("Rust"), "B", 1),
    ];
    let backward = vec![
        snapshot("c.rs", Some("Rust"), "B", 1),
        snapshot("b.go", Some("Go"), "B", 7),
        snapshot("a.rs", Some("Rust"), "A", 5),
    ];
    let one = gd.final_contributions(&forward);
    let other = gd.final_contributions(&backward);
    for (author, language) in [("A", "Rust"), ("B", "Go"), ("B", "Rust"), ("A", "Go")] {
        assert_eq!(cell(&one, author, language), cell(&other, author, language));
    }
    assert_eq!(one.total_lines(), other.total_lines());
    assert_eq!(one.total_lines(), 13);
}

#[test]
fn final_contributions_file() {
    let gd = GitDetective::new();
    let mut annotations = annotate(1, 200, LineKind::Code);
    for line in 1..=14 {
        annotations.insert(line * 10, LineKind::Blank);
    }
    annotations.insert(5, LineKind::Comment);
    let file = FileSnapshot {
        path: "tests/git_detective.rs".to_string(),
        language: Some("Rust".to_string()),
        blame: Ok(Blame::new(vec![BlameHunk::new(1, 200, b"Nick Hackman".to_vec())]).unwrap()),
        annotations: Ok(annotations),
    };
    let (lang, final_contribs) = gd.final_contributions_file(file).unwrap();
    assert_eq!(lang, "Rust");
    assert!(final_contribs.contains_key("Nick Hackman"));
    let nh_contribs = final_contribs.get("Nick Hackman").unwrap();
    assert!(nh_contribs.lines >= 175);
    assert!(nh_contribs.blanks >= 14);
    assert!(nh_contribs.comments >= 1);
    assert_eq!(*nh_contribs, Stats { lines: 200, blanks: 14, comments: 1, code: 185 });
}

#[test]
fn final_contributions() {
    let gd = GitDetective::new();
    let files = vec![
        snapshot("src/lib.rs", Some("Rust"), "Nick Hackman", 600),
        snapshot("src/git.rs", Some("Rust"), "Nick Hackman", 500),
        snapshot("README.md", Some("Markdown"), "Someone Else", 40),
    ];
    let project_stats = gd.final_contributions(&files);
    assert!(project_stats
        .contributors()
        .iter()
        .any(|name| *name == "Nick Hackman"));
    let nh_stats = project_stats.contribs_by_name("Nick Hackman");
    assert!(nh_stats.is_some());
    assert!(project_stats.total_lines() > 1000);
    let total_nh_stats = project_stats
        .total_contribs_by_name("Nick Hackman")
        .unwrap();
    assert!(total_nh_stats.lines > 1000);
    assert!(total_nh_stats.code > 1000);
}

#[test]
fn final_contributions_file_hands_on_the_blame_failure() {
    let gd = GitDetective::new();
    let error = gd.final_contributions_file(unblamable("logo.png")).err().unwrap();
    let expected = Error::GitError(git2::Error::from_str(""));
    assert_eq!(discriminant(&error), discriminant(&expected));
    match error {
        Error::GitError(e) => assert_eq!(e.message(), "binary file"),
        _ => panic!("not a git error"),
    }
}

#[test]
fn final_contributions_file_hands_on_the_read_failure_with_the_path() {
    let gd = GitDetective::new();
    match gd.final_contributions_file(unreadable("gone.rs", "A")) {
        Err(Error::IOError(e, path)) => {
            assert_eq!(e.kind(), std::io::ErrorKind::NotFound);
            assert_eq!(path, PathBuf::from("gone.rs"));
        }
        _ => panic!("not an io error"),
    }
}

#[test]
fn final_contributions_file_reports_the_blame_failure_first() {
    let gd = GitDetective::new();
    let file = FileSnapshot {
        path: "x".to_string(),
        language: None,
        blame: Err(git2::Error::from_str("no blame")),
        annotations: Err((std::io::Error::new(std::io::ErrorKind::Other, "no read"), PathBuf::from("x"))),
    };
    assert!(matches!(gd.final_contributions_file(file), Err(Error::GitError(_))));
}

#[test]
fn final_contributions_file_ignores_the_exclusion() {
    let mut gd = GitDetective::new();
    gd.exclude_file("a.rs");
    let (language, credits) = gd
        .final_contributions_file(snapshot("a.rs", None, "A", 4))
        .unwrap();
    assert_eq!(language, "Plain Text");
    assert_eq!(credits.get("A"), Some(&code(4)));
}

#[test]
fn try_final_contributions_counts_what_can_be_counted() {
    let mut gd = GitDetective::new();
    let files = vec![
        snapshot("a.rs", Some("Rust"), "A", 5),
        unblamable("logo.png"),
        snapshot("b.rs", Some("Rust"), "B", 5),
    ];
    let stats = gd.try_final_contributions(&files).unwrap();
    assert_eq!(stats.total_lines(), 10);
    gd.exclude_file("a.rs");
    assert_eq!(gd.try_final_contributions(&files).unwrap().total_lines(), 5);
}

#[test]
fn try_final_contributions_of_too_many_lines_is_none() {
    let huge = |path: &str| FileSnapshot {
        path: path.to_string(),
        language: None,
        blame: Ok(Blame::new(vec![BlameHunk::new(0, usize::MAX, b"A".to_vec())]).unwrap()),
        annotations: Ok(HashMap::new()),
    };
    let mut gd = GitDetective::new();
    let files = vec![huge("one"), huge("two")];
    assert!(gd.try_final_contributions(&files).is_none());
    // an excluded file is not counted against the limit
    gd.exclude_file("two");
    assert!(gd.try_final_contributions(&files).unwrap().is_empty());
}
