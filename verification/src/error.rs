//! The failures that the library reports.

use crate::git::repository_state::RepositoryState;
use git2::Error as GitFailure;
use std::io::Error as IoFailure;
use std::path::PathBuf;
use vstd::prelude::*;

verus! {

/// `git2::Error`, what libgit2 reports when an operation on a repository
/// fails. The library carries such a value to its caller and never looks
/// inside.
#[verifier::external_type_specification]
#[verifier::external_body]
pub struct ExGitError(GitFailure);

/// `url::ParseError`, why a string is no URL. Carried, never inspected.
#[verifier::external_type_specification]
#[verifier::external_body]
pub struct ExUrlParseError(url::ParseError);

/// `std::string::FromUtf8Error`, what `String::from_utf8` reports of bytes
/// that are not UTF-8. Carried, never inspected.
#[verifier::external_type_specification]
#[verifier::external_body]
pub struct ExFromUtf8Error(std::string::FromUtf8Error);

/// `std::io::Error`, why a file could not be read. Carried, never inspected.
#[verifier::external_type_specification]
#[verifier::external_body]
pub struct ExIoError(IoFailure);

/// `std::path::PathBuf`, the path of a file. Carried, never inspected.
#[verifier::external_type_specification]
#[verifier::external_body]
pub struct ExPathBuf(PathBuf);

/// All possible errors that can occur in Git Detective
#[derive(Debug)]
pub enum Error {
    /// A Git Error occurred
    GitError(GitFailure),
    /// Failed to parse URL to clone
    GitUrlError(url::ParseError),
    /// Repository isn't in a clean state
    UncleanState(RepositoryState),
    /// Git String is not valid UTF-8
    ///
    /// Could be a Branch name, commit hash, etc
    NonUTF8String(std::string::FromUtf8Error),
    /// IO Error: the content of the file at the path could not be read
    IOError(IoFailure, PathBuf),
}

} // verus!
