//! One branch of a repository.

use crate::error::Error;
use crate::text::{decode, decoded};
use git2::Error as GitFailure;
use vstd::prelude::*;

verus! {

/// A branch, as the repository reports it: the id of the commit at its tip,
/// the bytes of its name, or why the repository could not tell them, and
/// whether `HEAD` points to it.
#[derive(Debug)]
pub struct Branch {
    id: String,
    name: Result<Vec<u8>, GitFailure>,
    head: bool,
}

impl Branch {
    /// The id of the commit at the tip of the branch, in hexadecimal digits.
    pub closed spec fn hex_id(&self) -> Seq<char> {
        self.id@
    }

    /// The bytes of the name, or why they are not known.
    pub closed spec fn reported_name(&self) -> Result<Seq<u8>, GitFailure> {
        match self.name {
            Ok(bytes) => Ok(bytes@),
            Err(e) => Err(e),
        }
    }

    /// Whether `HEAD` points to the branch.
    pub closed spec fn at_head(&self) -> bool {
        self.head
    }

    /// The branch of the given tip and name that `HEAD` points to or not.
    pub fn new(id: String, name: Result<Vec<u8>, GitFailure>, head: bool) -> (branch: Self)
        ensures
            branch.hex_id() == id@,
            branch.reported_name() == match name {
                Ok(bytes) => Ok::<Seq<u8>, GitFailure>(bytes@),
                Err(e) => Err::<Seq<u8>, GitFailure>(e),
            },
            branch.at_head() == head,
    {
        Branch { id, name, head }
    }

    /// The id of the commit at the tip of the branch, in hexadecimal digits
    pub fn id(&self) -> (id: &String)
        ensures
            id@ == self.hex_id(),
    {
        &self.id
    }

    /// Whether or not this branch is pointed to by HEAD
    pub fn is_head(&self) -> (head: bool)
        ensures
            head == self.at_head(),
    {
        self.head
    }

    /// Name of the branch
    ///
    /// # Errors
    /// - Name isn't valid UTF-8 [`NonUTF8String`](enum.Error.html#variant.NonUTF8String)
    /// - Branch isn't a local or remote branch [`GitError`](enum.Error.html#variant.GitError)
    pub fn name(self) -> (name: Result<String, Error>)
        ensures
            match name {
                Ok(text) => self.reported_name() matches Ok(bytes) && decoded(bytes) == Some(
                    text@,
                ),
                Err(Error::GitError(e)) => self.reported_name() == Err::<Seq<u8>, GitFailure>(e),
                Err(Error::NonUTF8String(_)) => self.reported_name() matches Ok(bytes)
                    && decoded(bytes) is None,
                Err(_) => false,
            },
    {
        match self.name {
            Ok(bytes) => match decode(bytes) {
                Ok(text) => Ok(text),
                Err(e) => Err(Error::NonUTF8String(e)),
            },
            Err(e) => Err(Error::GitError(e)),
        }
    }
}

} // verus!
