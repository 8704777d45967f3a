//! One tag of a repository.

use crate::git::signature::Signature;
use crate::text::{decode, decoded};
use std::string::FromUtf8Error;
use vstd::prelude::*;

verus! {

/// An annotated tag, as the repository stores it.
#[derive(Debug)]
pub struct Tag {
    id: String,
    name: Vec<u8>,
    message: Option<Vec<u8>>,
    tagger: Option<Signature>,
}

impl Tag {
    /// The id of the tag, in hexadecimal digits.
    pub closed spec fn hex_id(&self) -> Seq<char> {
        self.id@
    }

    /// The bytes of the name.
    pub closed spec fn name_bytes(&self) -> Seq<u8> {
        self.name@
    }

    /// The bytes of the message, where there is one.
    pub closed spec fn message_bytes(&self) -> Option<Seq<u8>> {
        match self.message {
            Some(bytes) => Some(bytes@),
            None => None,
        }
    }

    /// The signature of the tagger, where it is known.
    pub closed spec fn tagged_by(&self) -> Option<Signature> {
        self.tagger
    }

    /// The tag with the given id, name, message and tagger.
    pub fn new(id: String, name: Vec<u8>, message: Option<Vec<u8>>, tagger: Option<Signature>) -> (tag:
        Self)
        ensures
            tag.hex_id() == id@,
            tag.name_bytes() == name@,
            tag.message_bytes() == match message {
                Some(bytes) => Some(bytes@),
                None => None,
            },
            tag.tagged_by() == tagger,
    {
        Tag { id, name, message, tagger }
    }

    /// The id of the tag, in hexadecimal digits
    pub fn id(&self) -> (id: &String)
        ensures
            id@ == self.hex_id(),
    {
        &self.id
    }

    /// Name of Tag
    ///
    /// # Errors
    /// - Name isn't valid UTF-8
    pub fn name(&self) -> (name: Result<String, FromUtf8Error>)
        ensures
            match name {
                Ok(text) => decoded(self.name_bytes()) == Some(text@),
                Err(_) => decoded(self.name_bytes()) is None,
            },
    {
        let bytes = self.name.clone();
        proof {
            assert(bytes@ =~= self.name@);
        }
        decode(bytes)
    }

    /// Message of Tag
    ///
    /// # Optional
    /// - No message provided
    ///
    /// # Errors
    /// - Message isn't valid UTF-8
    pub fn message(&self) -> (message: Option<Result<String, FromUtf8Error>>)
        ensures
            match message {
                Some(Ok(text)) => self.message_bytes() matches Some(bytes) && decoded(bytes)
                    == Some(text@),
                Some(Err(_)) => self.message_bytes() matches Some(bytes) && decoded(bytes) is None,
                None => self.message_bytes() is None,
            },
    {
        match &self.message {
            Some(stored) => {
                let bytes = stored.clone();
                proof {
                    assert(bytes@ =~= stored@);
                }
                Some(decode(bytes))
            },
            None => None,
        }
    }

    /// Tagger of a tag
    ///
    /// # Optional
    /// - Creator of tag is unknown
    pub fn tagger(&self) -> (tagger: Option<&Signature>)
        ensures
            match tagger {
                Some(signature) => self.tagged_by() == Some(*signature),
                None => self.tagged_by() is None,
            },
    {
        match &self.tagger {
            Some(signature) => Some(signature),
            None => None,
        }
    }
}

} // verus!
