//! The address that a clone fetches from.

use crate::error::Error;
use vstd::prelude::*;

verus! {

/// What `url::Url::parse` makes of a string: the serialization of the URL
/// that it parses to, or nothing where it is no absolute URL. The library
/// says nothing of what the serialization is.
pub uninterp spec fn url_serialization(input: Seq<char>) -> Option<Seq<char>>;

/// `url::Url::parse`, followed by the URL's serialization. The call decides
/// whether `input` is an absolute URL; nothing of it is proved here.
#[verifier::external_body]
fn parse_url(input: &str) -> (parsed: Result<String, url::ParseError>)
    ensures
        match parsed {
            Ok(serialization) => url_serialization(input@) == Some(serialization@),
            Err(_) => url_serialization(input@) is None,
        },
{
    match url::Url::parse(input) {
        Ok(parsed) => Ok(String::from(parsed)),
        Err(e) => Err(e),
    }
}

/// The address to hand to the repository for a clone of `url`, chosen from
/// `url` as written and from the serialization that it parses to.
///
/// A recursive clone fetches from `url` as written, any other from the
/// serialization.
pub fn source_of(url: &str, serialization: String, recursive: bool) -> (source: String)
    ensures
        source@ == if recursive {
            url@
        } else {
            serialization@
        },
{
    if recursive {
        url.to_owned()
    } else {
        serialization
    }
}

/// The address that a clone of `url` fetches from, where `url` is an absolute
/// URL, and the reason why it is none otherwise.
pub fn clone_source(url: &str, recursive: bool) -> (outcome: Result<String, Error>)
    ensures
        match outcome {
            Ok(source) => match url_serialization(url@) {
                Some(serialization) => source@ == if recursive {
                    url@
                } else {
                    serialization
                },
                None => false,
            },
            Err(Error::GitUrlError(_)) => url_serialization(url@) is None,
            Err(_) => false,
        },
{
    match parse_url(url) {
        Ok(serialization) => Ok(source_of(url, serialization, recursive)),
        Err(e) => Err(Error::GitUrlError(e)),
    }
}

} // verus!
