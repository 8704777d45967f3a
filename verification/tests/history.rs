use git_detective::history::{accumulate_churn, accumulate_files, strict};
use git_detective::{CommitChange, DiffStats, Error, GitDetective};
use std::mem::discriminant;

fn change(author: &str, insertions: usize, deletions: usize, paths: &[&str]) -> CommitChange {
    CommitChange {
        author: Some(author.to_string()),
        insertions,
        deletions,
        paths: paths.iter().map(|path| path.to_string()).collect(),
    }
}

fn anonymous(insertions: usize, deletions: usize, paths: &[&str]) -> CommitChange {
    CommitChange { author: None, ..change("", insertions, deletions, paths) }
}

fn failure(message: &str) -> Result<CommitChange, git2::Error> {
    Err(git2::Error::from_str(message))
}

#[test]
fn three_commits_two_authors() {
    let gd = GitDetective::new();
    let commits = vec![
        Ok(change("Alice", 10, 0, &["a"])),
        Ok(change("Bob", 5, 3, &["a"])),
        Ok(change("Alice", 0, 2, &["a"])),
    ];
    let stats = gd.diff_stats(commits).unwrap();
    assert_eq!(stats.len(), 2);
    assert_eq!(stats.get("Alice"), Some(&DiffStats { insertions: 10, deletions: 2 }));
    assert_eq!(stats.get("Bob"), Some(&DiffStats { insertions: 5, deletions: 3 }));
}

#[test]
fn the_order_of_the_commits_does_not_matter() {
    let gd = GitDetective::new();
    let forward = gd
        .diff_stats(vec![
            Ok(change("Alice", 10, 0, &[])),
            Ok(change("Bob", 5, 3, &[])),
            Ok(change("Alice", 0, 2, &[])),
        ])
        .unwrap();
    let backward = gd
        .diff_stats(vec![
            Ok(change("Alice", 0, 2, &[])),
            Ok(change("Bob", 5, 3, &[])),
            Ok(change("Alice", 10, 0, &[])),
        ])
        .unwrap();
    assert_eq!(forward.get("Alice"), backward.get("Alice"));
    assert_eq!(forward.get("Bob"), backward.get("Bob"));
    assert_eq!(forward.len(), backward.len());
}

#[test]
fn a_commit_without_a_readable_author_is_passed_over() {
    let gd = GitDetective::new();
    let stats = gd
        .diff_stats(vec![Ok(anonymous(100, 100, &["x"])), Ok(change("Bob", 1, 1, &["y"]))])
        .unwrap();
    assert_eq!(stats.len(), 1);
    assert_eq!(stats.get("Bob"), Some(&DiffStats { insertions: 1, deletions: 1 }));
    let files = gd
        .files_contributed_to(vec![Ok(anonymous(100, 100, &["x"])), Ok(change("Bob", 1, 1, &["y"]))])
        .unwrap();
    assert_eq!(files.len(), 1);
    assert!(files.get("Bob").unwrap().contains("y"));
}

#[test]
fn an_author_of_an_empty_commit_is_still_named() {
    let gd = GitDetective::new();
    let stats = gd.diff_stats(vec![Ok(change("Carol", 0, 0, &[]))]).unwrap();
    assert_eq!(stats.get("Carol"), Some(&DiffStats::default()));
    let files = gd.files_contributed_to(vec![Ok(change("Carol", 0, 0, &[]))]).unwrap();
    assert!(files.get("Carol").unwrap().is_empty());
}

#[test]
fn an_empty_history_gives_empty_maps() {
    let gd = GitDetective::new();
    assert!(gd.diff_stats(Vec::new()).unwrap().is_empty());
    assert!(gd.files_contributed_to(Vec::new()).unwrap().is_empty());
}

#[test]
fn a_file_touched_twice_counts_once() {
    let gd = GitDetective::new();
    let files = gd
        .files_contributed_to(vec![
            Ok(change("Alice", 1, 0, &["src/lib.rs", "README.md"])),
            Ok(change("Bob", 1, 0, &["src/lib.rs"])),
            Ok(change("Alice", 2, 1, &["src/lib.rs", "src/lib.rs"])),
        ])
        .unwrap();
    let alice = files.get("Alice").unwrap();
    assert_eq!(alice.len(), 2);
    assert!(alice.contains("src/lib.rs"));
    assert!(alice.contains("README.md"));
    let bob = files.get("Bob").unwrap();
    assert_eq!(bob.len(), 1);
    assert!(bob.contains("src/lib.rs"));
    assert!(!bob.contains("README.md"));
}

#[test]
fn the_first_failure_ends_the_walk() {
    let gd = GitDetective::new();
    let commits = vec![
        Ok(change("Alice", 10, 0, &["a"])),
        failure("first"),
        Ok(change("Bob", 5, 3, &["a"])),
        failure("second"),
    ];
    let error = gd.diff_stats(commits).err().unwrap();
    assert_eq!(discriminant(&error), discriminant(&Error::GitError(git2::Error::from_str(""))));
    match error {
        Error::GitError(e) => assert_eq!(e.message(), "first"),
        _ => panic!("not a git error"),
    }
    let commits = vec![failure("only"), Ok(change("Bob", 5, 3, &["a"]))];
    match gd.files_contributed_to(commits) {
        Err(Error::GitError(e)) => assert_eq!(e.message(), "only"),
        _ => panic!("not a git error"),
    }
}

#[test]
fn strict_hands_back_all_changes_or_the_first_failure() {
    let changes = strict(vec![Ok(change("A", 1, 2, &["x"])), Ok(change("B", 3, 4, &[]))]).unwrap();
    assert_eq!(changes.len(), 2);
    assert_eq!(changes[0].author.as_deref(), Some("A"));
    assert_eq!(changes[1].insertions, 3);
    let failed = strict(vec![Ok(change("A", 1, 2, &[])), failure("one"), failure("two")]);
    assert_eq!(failed.err().unwrap().message(), "one");
    assert!(strict(Vec::new()).unwrap().is_empty());
}

#[test]
fn accumulators_add_up_by_author() {
    let changes = vec![change("A", 1, 2, &["x"]), change("A", 10, 20, &["y", "x"])];
    assert_eq!(accumulate_churn(&changes).get("A"), Some(&DiffStats { insertions: 11, deletions: 22 }));
    let files = accumulate_files(&changes);
    assert_eq!(files.get("A").unwrap().len(), 2);
}

#[test]
fn contributor() {
    let gd = GitDetective::new();
    let contributors = gd.contributors(&vec![
        Some("NickHackman".to_string()),
        None,
        Some("Someone Else".to_string()),
        Some("NickHackman".to_string()),
    ]);
    assert!(contributors.contains("NickHackman"));
    assert!(contributors.contains("Someone Else"));
    assert_eq!(contributors.len(), 2);
    assert!(gd.contributors(&vec![None]).is_empty());
}

#[test]
fn try_diff_stats_counts_what_can_be_counted() {
    let gd = GitDetective::new();
    let stats = gd
        .try_diff_stats(vec![Ok(change("Alice", 10, 0, &[])), Ok(change("Alice", 0, 2, &[]))])
        .unwrap()
        .unwrap();
    assert_eq!(stats.get("Alice"), Some(&DiffStats { insertions: 10, deletions: 2 }));
}

#[test]
fn try_diff_stats_of_too_many_lines_is_none() {
    let gd = GitDetective::new();
    let commits = vec![Ok(change("Alice", usize::MAX, 0, &[])), Ok(change("Bob", 1, 0, &[]))];
    assert!(gd.try_diff_stats(commits).unwrap().is_none());
    let commits = vec![Ok(change("Alice", 0, usize::MAX, &[])), Ok(change("Alice", 0, 1, &[]))];
    assert!(gd.try_diff_stats(commits).unwrap().is_none());
    let commits = vec![Ok(change("Alice", usize::MAX, 0, &[])), failure("broken")];
    assert!(matches!(gd.try_diff_stats(commits), Err(Error::GitError(_))));
}
