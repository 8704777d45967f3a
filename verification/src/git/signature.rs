//! Who did something to a repository, and when.

use crate::text::{decode, decoded};
use std::string::FromUtf8Error;
use vstd::prelude::*;

verus! {

/// The name, the e-mail address and the time of an author, a committer or a
/// tagger, as the repository stores them.
#[derive(Debug)]
pub struct Signature {
    name: Vec<u8>,
    email: Vec<u8>,
    seconds: i64,
}

impl Signature {
    /// The bytes of the name.
    pub closed spec fn name_bytes(&self) -> Seq<u8> {
        self.name@
    }

    /// The bytes of the e-mail address.
    pub closed spec fn email_bytes(&self) -> Seq<u8> {
        self.email@
    }

    /// The time, in seconds since the epoch.
    pub closed spec fn when(&self) -> i64 {
        self.seconds
    }

    /// The signature of whoever is stored under `name` and `email`, at
    /// `seconds` since the epoch.
    pub fn new(name: Vec<u8>, email: Vec<u8>, seconds: i64) -> (signature: Self)
        ensures
            signature.name_bytes() == name@,
            signature.email_bytes() == email@,
            signature.when() == seconds,
    {
        Signature { name, email, seconds }
    }

    /// Name of the author, committer or tagger
    ///
    /// # Errors
    /// - Name isn't valid UTF-8
    pub fn name(&self) -> (name: Result<String, FromUtf8Error>)
        ensures
            match name {
                Ok(text) => decoded(self.name_bytes()) == Some(text@),
                Err(_) => decoded(self.name_bytes()) is None,
            },
    {
        let bytes = self.name.clone();
        proof {
            assert(bytes@ =~= self.name@);
        }
        decode(bytes)
    }

    /// Email of the author, committer or tagger
    ///
    /// # Errors
    /// - Email isn't valid UTF-8
    pub fn email(&self) -> (email: Result<String, FromUtf8Error>)
        ensures
            match email {
                Ok(text) => decoded(self.email_bytes()) == Some(text@),
                Err(_) => decoded(self.email_bytes()) is None,
            },
    {
        let bytes = self.email.clone();
        proof {
            assert(bytes@ =~= self.email@);
        }
        decode(bytes)
    }

    /// The time of the signature, in seconds since the epoch
    pub fn seconds(&self) -> (seconds: i64)
        ensures
            seconds == self.when(),
    {
        self.seconds
    }
}

} // verus!
