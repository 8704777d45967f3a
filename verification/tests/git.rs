use git_detective::{Branch, Commit, Error, Signature, Tag};
use std::mem::discriminant;

fn nick(seconds: i64) -> Signature {
    Signature::new(b"NickHackman".to_vec(), b"snickhackman@example.com".to_vec(), seconds)
}

#[test]
fn first_commit() {
    let first_commit = Commit::new(
        "29c86b2fd5876061c2e882abe71db07c3656b2c8".to_string(),
        nick(1_590_000_000),
        nick(1_590_000_100),
        b"Initial Commit\n\nAdds the project skeleton\n".to_vec(),
        Some(b"Initial Commit".to_vec()),
    );
    let first_msg = first_commit.message().unwrap();
    assert!(first_msg.contains("Initial Commit"));
    let first_summary = first_commit.summary().unwrap().unwrap();
    assert!(first_summary.contains("Initial Commit"));
    let first_author = first_commit.author();
    assert_eq!(first_author.name().unwrap(), "NickHackman");
    assert!(first_author.email().unwrap().contains("snickhackman"));
    assert_eq!(first_author.seconds(), 1_590_000_000);
    let first_committer = first_commit.committer();
    assert_eq!(first_committer.name().unwrap(), "NickHackman");
    assert!(first_committer.email().unwrap().contains("snickhackman"));
    assert_eq!(first_committer.seconds(), 1_590_000_100);
    assert_eq!(first_commit.id().to_string(), "29c86b2fd5876061c2e882abe71db07c3656b2c8");
}

#[test]
fn commit_without_summary_has_none() {
    let commit = Commit::new(String::new(), nick(0), nick(0), Vec::new(), None);
    assert!(commit.summary().is_none());
    assert_eq!(commit.message().unwrap(), "");
}

#[test]
fn text_that_is_not_utf8_is_an_error() {
    let broken = vec![0xc3, 0x28];
    let signature = Signature::new(broken.clone(), broken.clone(), 0);
    assert!(signature.name().is_err());
    assert!(signature.email().is_err());
    let commit = Commit::new(String::new(), nick(0), nick(0), broken.clone(), Some(broken.clone()));
    assert!(commit.message().is_err());
    assert!(commit.summary().unwrap().is_err());
    let tag = Tag::new(String::new(), broken.clone(), Some(broken), None);
    assert!(tag.name().is_err());
    assert!(tag.message().unwrap().is_err());
}

#[test]
fn tag_hands_out_what_it_stores() {
    let tag = Tag::new(
        "0123456789abcdef0123456789abcdef01234567".to_string(),
        b"0.11.2".to_vec(),
        Some(b"(cargo-release) cursive version 0.11.2\n".to_vec()),
        Some(Signature::new(b"Alexandre Bury".to_vec(), b"alexandre.bury@example.com".to_vec(), 7)),
    );
    assert_eq!(tag.name().unwrap(), "0.11.2");
    let message = tag.message().unwrap().unwrap();
    assert!(message.contains("(cargo-release) cursive version 0.11.2"));
    let tagger = tag.tagger().unwrap();
    assert_eq!(tagger.name().unwrap(), "Alexandre Bury");
    assert!(tagger.email().unwrap().contains("alexandre.bury"));
    assert_eq!(tag.id(), "0123456789abcdef0123456789abcdef01234567");
    let bare = Tag::new(String::new(), b"v1".to_vec(), None, None);
    assert!(bare.message().is_none());
    assert!(bare.tagger().is_none());
}

#[test]
fn branch_name_is_decoded_or_refused() {
    let branch = Branch::new("bc7268a41e6cf7cc5391b1fbfec8f1394c5d88b6".to_string(), Ok(b"origin/gh-pages".to_vec()), true);
    assert!(branch.is_head());
    assert_eq!(branch.id(), "bc7268a41e6cf7cc5391b1fbfec8f1394c5d88b6");
    assert_eq!(branch.name().unwrap(), "origin/gh-pages");
    let broken = Branch::new(String::new(), Ok(vec![0xff]), false);
    assert!(!broken.is_head());
    let error = broken.name().err().unwrap();
    let expected = Error::NonUTF8String(String::from_utf8(vec![0xff]).err().unwrap());
    assert_eq!(discriminant(&error), discriminant(&expected));
    let unknown = Branch::new(String::new(), Err(git2::Error::from_str("not a branch")), false);
    match unknown.name() {
        Err(Error::GitError(e)) => assert_eq!(e.message(), "not a branch"),
        _ => panic!("not a git error"),
    }
}
