//! One commit of a history.

use crate::git::signature::Signature;
use crate::text::{decode, decoded};
use std::string::FromUtf8Error;
use vstd::prelude::*;

verus! {

/// A commit, as the repository stores it.
#[derive(Debug)]
pub struct Commit {
    id: String,
    author: Signature,
    committer: Signature,
    message: Vec<u8>,
    summary: Option<Vec<u8>>,
}

impl Commit {
    /// The id of the commit, in hexadecimal digits.
    pub closed spec fn hex_id(&self) -> Seq<char> {
        self.id@
    }

    /// The signature of the author.
    pub closed spec fn written_by(&self) -> Signature {
        self.author
    }

    /// The signature of the committer.
    pub closed spec fn committed_by(&self) -> Signature {
        self.committer
    }

    /// The bytes of the message.
    pub closed spec fn message_bytes(&self) -> Seq<u8> {
        self.message@
    }

    /// The bytes of the first line of the message, where there is one.
    pub closed spec fn summary_bytes(&self) -> Option<Seq<u8>> {
        match self.summary {
            Some(bytes) => Some(bytes@),
            None => None,
        }
    }

    /// The commit with the given id, signatures, message and summary.
    pub fn new(
        id: String,
        author: Signature,
        committer: Signature,
        message: Vec<u8>,
        summary: Option<Vec<u8>>,
    ) -> (commit: Self)
        ensures
            commit.hex_id() == id@,
            commit.written_by() == author,
            commit.committed_by() == committer,
            commit.message_bytes() == message@,
            commit.summary_bytes() == match summary {
                Some(bytes) => Some(bytes@),
                None => None,
            },
    {
        Commit { id, author, committer, message, summary }
    }

    /// The id of the commit, in hexadecimal digits
    pub fn id(&self) -> (id: &String)
        ensures
            id@ == self.hex_id(),
    {
        &self.id
    }

    /// Author of a commit
    ///
    /// An author is the person who originally wrote the code,
    /// while a committer is the person who committed the code on behalf of the author
    pub fn author(&self) -> (author: &Signature)
        ensures
            *author == self.written_by(),
    {
        &self.author
    }

    /// Committer of a commit
    ///
    /// An author is the person who originally wrote the code,
    /// while a committer is the person who committed the code on behalf of the author
    pub fn committer(&self) -> (committer: &Signature)
        ensures
            *committer == self.committed_by(),
    {
        &self.committer
    }

    /// Commit message
    ///
    /// # Errors
    /// - Message isn't valid UTF-8
    pub fn message(&self) -> (message: Result<String, FromUtf8Error>)
        ensures
            match message {
                Ok(text) => decoded(self.message_bytes()) == Some(text@),
                Err(_) => decoded(self.message_bytes()) is None,
            },
    {
        let bytes = self.message.clone();
        proof {
            assert(bytes@ =~= self.message@);
        }
        decode(bytes)
    }

    /// First line of the commit message
    ///
    /// # Optional
    /// - No summary provided
    ///
    /// # Errors
    /// - Summary isn't valid UTF-8
    pub fn summary(&self) -> (summary: Option<Result<String, FromUtf8Error>>)
        ensures
            match summary {
                Some(Ok(text)) => self.summary_bytes() matches Some(bytes) && decoded(bytes)
                    == Some(text@),
                Some(Err(_)) => self.summary_bytes() matches Some(bytes) && decoded(bytes) is None,
                None => self.summary_bytes() is None,
            },
    {
        match &self.summary {
            Some(stored) => {
                let bytes = stored.clone();
                proof {
                    assert(bytes@ =~= stored@);
                }
                Some(decode(bytes))
            },
            None => None,
        }
    }
}

} // verus!
