use git_detective::{Error, FileStatus, GitDetective, RepositoryState};
use std::mem::discriminant;

fn index_of(paths: &[&str]) -> Vec<FileStatus> {
    paths
        .iter()
        .map(|path| FileStatus { path: path.to_string(), status: git2::Status::CURRENT })
        .collect()
}

fn paths(list: &[FileStatus]) -> Vec<String> {
    list.iter().map(|stat| stat.path.clone()).collect()
}

#[test]
fn ls() {
    let gd = GitDetective::new();
    let list = gd.ls(index_of(&["Cargo.lock", "Cargo.toml", "README.md", "src/lib.rs"]));
    assert!(list
        .iter()
        .find(|stat| &stat.path == "Cargo.lock")
        .is_some());
    assert!(list
        .iter()
        .find(|stat| &stat.path == "Cargo.toml")
        .is_some());
    assert!(list.iter().find(|stat| &stat.path == "README.md").is_some());
}

#[test]
fn ls_exclude() {
    let mut gd = GitDetective::new();
    let list = gd.ls(index_of(&["Cargo.lock", "Cargo.toml", "README.md", "src/lib.rs"]));
    assert!(list
        .iter()
        .find(|stat| &stat.path == "Cargo.lock")
        .is_some());
    assert!(list
        .iter()
        .find(|stat| &stat.path == "Cargo.toml")
        .is_some());
    assert!(list.iter().find(|stat| &stat.path == "README.md").is_some());
    gd.exclude_file("Cargo.toml");
    gd.exclude_file("README.md");
    gd.exclude_file("Cargo.lock");
    let list_after = gd.ls(index_of(&["Cargo.lock", "Cargo.toml", "README.md", "src/lib.rs"]));
    assert!(!list_after
        .iter()
        .find(|stat| &stat.path == "Cargo.lock")
        .is_some());
    assert!(!list_after
        .iter()
        .find(|stat| &stat.path == "Cargo.toml")
        .is_some());
    assert!(!list_after
        .iter()
        .find(|stat| &stat.path == "README.md")
        .is_some());
}

#[test]
fn ls_keeps_the_order_and_the_status() {
    let mut gd = GitDetective::new();
    gd.exclude_file("b");
    let mut entries = index_of(&["c", "b", "a", "b"]);
    entries[2].status = git2::Status::WT_MODIFIED;
    let list = gd.ls(entries);
    assert_eq!(paths(&list), vec!["c".to_string(), "a".to_string()]);
    assert_eq!(list[0].status, git2::Status::CURRENT);
    assert_eq!(list[1].status, git2::Status::WT_MODIFIED);
}

#[test]
fn ls_of_nothing_is_nothing() {
    let gd = GitDetective::new();
    assert!(gd.ls(Vec::new()).is_empty());
}

#[test]
fn excluding_twice_is_excluding_once() {
    let mut gd = GitDetective::new();
    gd.exclude_file("a");
    gd.exclude_file("a");
    assert!(gd.is_excluded("a"));
    assert_eq!(paths(&gd.ls(index_of(&["a", "b"]))), vec!["b".to_string()]);
}

#[test]
fn including_again_restores_the_listing() {
    let mut gd = GitDetective::new();
    gd.exclude_file("keep-out");
    let before = paths(&gd.ls(index_of(&["a", "b", "keep-out"])));
    gd.exclude_file("b");
    assert_eq!(paths(&gd.ls(index_of(&["a", "b", "keep-out"]))), vec!["a".to_string()]);
    gd.include_file("b");
    assert_eq!(paths(&gd.ls(index_of(&["a", "b", "keep-out"]))), before);
    assert_eq!(before, vec!["a".to_string(), "b".to_string()]);
}

#[test]
fn checkout_needs_a_clean_repository() {
    let gd = GitDetective::new();
    assert!(gd.checkout(RepositoryState::Clean).is_ok());
    let error = gd.checkout(RepositoryState::Merge).err().unwrap();
    assert_eq!(
        discriminant(&error),
        discriminant(&Error::UncleanState(RepositoryState::Clean))
    );
    match error {
        Error::UncleanState(state) => assert_eq!(state, RepositoryState::Merge),
        _ => panic!("not an unclean state"),
    }
    assert!(gd.checkout(RepositoryState::RebaseInteractive).is_err());
}
