use git_detective::remote::{clone_source, source_of};
use git_detective::Error;
use std::mem::discriminant;

#[test]
fn invalid_url() {
    let url = "http:::";
    let repo = clone_source(url, true);
    assert!(repo.is_err());
    let error = repo.err().unwrap();
    let expected = Error::GitUrlError(url::ParseError::Overflow);
    assert_eq!(discriminant(&error), discriminant(&expected));
}

#[test]
fn a_string_that_is_no_absolute_url_is_refused() {
    for url in ["", "not a url", "/just/a/path", "//no.scheme/repo.git"] {
        assert!(matches!(clone_source(url, false), Err(Error::GitUrlError(_))));
        assert!(matches!(clone_source(url, true), Err(Error::GitUrlError(_))));
    }
}

#[test]
fn a_recursive_clone_fetches_from_the_url_as_written() {
    let url = "HTTPS://GitHub.com/NickHackman/Git-Detective.git";
    assert_eq!(clone_source(url, true).unwrap(), url);
}

#[test]
fn a_plain_clone_fetches_from_the_serialization() {
    assert_eq!(
        clone_source("HTTPS://GitHub.com/NickHackman/Git-Detective.git", false).unwrap(),
        "https://github.com/NickHackman/Git-Detective.git"
    );
    assert_eq!(clone_source("https://example.net", false).unwrap(), "https://example.net/");
}

#[test]
fn source_of_chooses_by_recursion() {
    assert_eq!(source_of("as written", "serialized".to_string(), true), "as written");
    assert_eq!(source_of("as written", "serialized".to_string(), false), "serialized");
}
