//! Historical attribution: what each author inserted, deleted and touched
//! over the commits of a history.
//!
//! The walk is strict: the first commit whose diff could not be computed
//! ends it, and that failure is handed to the caller.

use crate::diff_stats::{Churn, DiffStats};
use crate::error::Error;
use crate::string_map::StringMap;
use crate::string_set::StringSet;
use git2::Error as GitFailure;
use std::ops::AddAssign;
use vstd::prelude::*;
use vstd::seq_lib::{to_multiset_len, to_multiset_remove};

verus! {

/// What one commit changed against its first parent, or against the empty
/// tree where it has none.
#[derive(Debug)]
pub struct CommitChange {
    /// The name of the commit's author, where it is text.
    pub author: Option<String>,
    /// The number of lines that the commit inserted.
    pub insertions: usize,
    /// The number of lines that the commit deleted.
    pub deletions: usize,
    /// The new path of every file that the commit changed.
    pub paths: Vec<String>,
}

/// The first failure among the commits, in the order of the walk.
pub open spec fn first_failure(commits: Seq<Result<CommitChange, GitFailure>>) -> Option<GitFailure>
    decreases commits.len(),
{
    if commits.len() == 0 {
        None
    } else {
        match first_failure(commits.drop_last()) {
            Some(e) => Some(e),
            None => match commits.last() {
                Err(e) => Some(e),
                Ok(_) => None,
            },
        }
    }
}

/// The changes of the commits, where none of them failed.
pub open spec fn changes_of(commits: Seq<Result<CommitChange, GitFailure>>) -> Seq<CommitChange> {
    Seq::new(commits.len(), |i: int| commits[i]->Ok_0)
}

/// Parts the commits from the failures: all the changes where no commit
/// failed, the first failure otherwise.
pub fn strict(commits: Vec<Result<CommitChange, GitFailure>>) -> (outcome: Result<
    Vec<CommitChange>,
    GitFailure,
>)
    ensures
        match outcome {
            Ok(changes) => first_failure(commits@) is None && changes@ == changes_of(commits@),
            Err(e) => first_failure(commits@) == Some(e),
        },
{
    let mut changes: Vec<CommitChange> = Vec::new();
    for commit in it: commits
        invariant
            it.seq() == commits@,
            first_failure(commits@.take(it.index() as int)) is None,
            changes@ == changes_of(commits@.take(it.index() as int)),
    {
        let ghost done = commits@.take(it.index() as int);
        let ghost next = commits@.take(it.index() + 1);
        proof {
            assert(next.drop_last() =~= done);
            assert(next.last() == commit);
        }
        match commit {
            Ok(change) => {
                changes.push(change);
                proof {
                    assert(changes@ =~= changes_of(next));
                }
            },
            Err(e) => {
                proof {
                    lemma_first_failure_prefix(commits@, it.index() + 1);
                }
                return Err(e);
            },
        }
    }
    proof {
        assert(commits@.take(commits@.len() as int) =~= commits@);
    }
    Ok(changes)
}

/// A failure found among the first commits is the first failure of all.
pub proof fn lemma_first_failure_prefix(commits: Seq<Result<CommitChange, GitFailure>>, n: int)
    requires
        0 <= n <= commits.len(),
        first_failure(commits.take(n)) is Some,
    ensures
        first_failure(commits) == first_failure(commits.take(n)),
    decreases commits.len() - n,
{
    if n < commits.len() {
        assert(commits.take(n + 1).drop_last() =~= commits.take(n));
        lemma_first_failure_prefix(commits, n + 1);
    } else {
        assert(commits.take(n) =~= commits);
    }
}

/// Whether a change is by `author`.
pub open spec fn by_author(change: CommitChange, author: Seq<char>) -> bool {
    change.author matches Some(name) && name@ == author
}

/// Whether any of the changes is by `author`.
pub open spec fn authored(changes: Seq<CommitChange>, author: Seq<char>) -> bool
    decreases changes.len(),
{
    changes.len() > 0 && (authored(changes.drop_last(), author) || by_author(
        changes.last(),
        author,
    ))
}

/// What a change inserts and deletes.
pub open spec fn churn(change: CommitChange) -> Churn {
    Churn { insertions: change.insertions as nat, deletions: change.deletions as nat }
}

/// What `author` inserted and deleted over the changes.
pub open spec fn churn_of(changes: Seq<CommitChange>, author: Seq<char>) -> Churn
    decreases changes.len(),
{
    if changes.len() == 0 {
        Churn::zero()
    } else {
        churn_of(changes.drop_last(), author).plus(
            if by_author(changes.last(), author) {
                churn(changes.last())
            } else {
                Churn::zero()
            },
        )
    }
}

/// The insertions and deletions of every author of a change.
pub open spec fn churn_ledger(changes: Seq<CommitChange>) -> Map<Seq<char>, Churn> {
    Map::new(
        |author: Seq<char>| authored(changes, author),
        |author: Seq<char>| churn_of(changes, author),
    )
}

/// The paths that a change touches.
pub open spec fn paths_of(change: CommitChange) -> Set<Seq<char>> {
    Set::new(
        |path: Seq<char>|
            exists|i: int| 0 <= i < change.paths@.len() && (#[trigger] change.paths@[i])@ == path,
    )
}

/// The paths that `author` touched over the changes: a path touched in
/// several changes is in the set once.
pub open spec fn touched(changes: Seq<CommitChange>, author: Seq<char>) -> Set<Seq<char>>
    decreases changes.len(),
{
    if changes.len() == 0 {
        Set::empty()
    } else {
        touched(changes.drop_last(), author).union(
            if by_author(changes.last(), author) {
                paths_of(changes.last())
            } else {
                Set::empty()
            },
        )
    }
}

/// The touched paths of every author of a change.
pub open spec fn touched_ledger(changes: Seq<CommitChange>) -> Map<Seq<char>, Set<Seq<char>>> {
    Map::new(
        |author: Seq<char>| authored(changes, author),
        |author: Seq<char>| touched(changes, author),
    )
}

/// The mathematical values of a map of diff statistics.
pub open spec fn churns(stats: Map<Seq<char>, DiffStats>) -> Map<Seq<char>, Churn> {
    stats.map_values(|s: DiffStats| s@)
}

/// The mathematical values of a map of path sets.
pub open spec fn path_sets(files: Map<Seq<char>, StringSet>) -> Map<Seq<char>, Set<Seq<char>>> {
    files.map_values(|s: StringSet| s@)
}

/// Every author's insertions and deletions fit a `usize`.
pub open spec fn churn_fits(changes: Seq<CommitChange>) -> bool {
    forall|author: Seq<char>| (#[trigger] churn_of(changes, author)).fits()
}

/// What an author inserted and deleted over the first changes is no more
/// than over all of them.
pub proof fn lemma_churn_prefix(changes: Seq<CommitChange>, author: Seq<char>, n: int)
    requires
        0 <= n <= changes.len(),
    ensures
        churn_of(changes.take(n), author).insertions <= churn_of(changes, author).insertions,
        churn_of(changes.take(n), author).deletions <= churn_of(changes, author).deletions,
    decreases changes.len() - n,
{
    if n < changes.len() {
        lemma_churn_prefix(changes, author, n + 1);
        assert(changes.take(n + 1).drop_last() =~= changes.take(n));
    } else {
        assert(changes.take(n) =~= changes);
    }
}

/// Adds up, for every author, the insertions and deletions of their changes.
pub fn accumulate_churn(changes: &Vec<CommitChange>) -> (stats: StringMap<DiffStats>)
    requires
        churn_fits(changes@),
    ensures
        churns(stats@) == churn_ledger(changes@),
{
    let mut stats: StringMap<DiffStats> = StringMap::new();
    let n = changes.len();
    let mut i: usize = 0;
    proof {
        assert(churns(stats@) =~= churn_ledger(changes@.take(0)));
    }
    while i < n
        invariant
            i <= n,
            n == changes@.len(),
            churn_fits(changes@),
            churns(stats@) == churn_ledger(changes@.take(i as int)),
        decreases n - i,
    {
        let change = &changes[i];
        let ghost before = changes@.take(i as int);
        let ghost after = changes@.take(i + 1);
        let ghost prior = stats@;
        proof {
            assert(after.drop_last() =~= before);
            assert(after.last() == changes@[i as int]);
        }
        match &change.author {
            Some(name) => {
                let delta = DiffStats {
                    insertions: change.insertions,
                    deletions: change.deletions,
                };
                proof {
                    lemma_churn_prefix(changes@, name@, i + 1);
                    assert(churn_of(changes@, name@).fits());
                    assert(churns(prior).dom().contains(name@) == authored(before, name@));
                }
                match stats.position(name.as_str()) {
                    Some(at) => {
                        let mut held = *stats.value_at(at);
                        proof {
                            assert(churns(prior)[name@] == held@);
                        }
                        held.add_assign(delta);
                        stats.replace_at(at, held);
                    },
                    None => {
                        proof {
                            lemma_unauthored(before, name@);
                        }
                        stats.insert(name.clone(), delta);
                    },
                }
                proof {
                    let got = churns(stats@);
                    let want = churn_ledger(after);
                    assert forall|a: Seq<char>| #[trigger]
                        got.dom().contains(a) == want.dom().contains(a) && (got.dom().contains(a)
                            ==> got[a] == want[a]) by {
                        assert(churns(prior).dom().contains(a) == authored(before, a));
                        if churns(prior).dom().contains(a) {
                            assert(churns(prior)[a] == churn_of(before, a));
                        }
                    }
                    assert(got =~= want);
                }
            },
            None => {
                proof {
                    assert forall|a: Seq<char>|
                        authored(after, a) == authored(before, a) && churn_of(after, a)
                            == churn_of(before, a) by {
                        assert(!by_author(after.last(), a));
                    }
                    assert(churns(stats@) =~= churn_ledger(after));
                }
            },
        }
        i += 1;
    }
    proof {
        assert(changes@.take(n as int) =~= changes@);
    }
    stats
}

/// An author of none of the changes has inserted and deleted nothing and
/// touched nothing.
pub proof fn lemma_unauthored(changes: Seq<CommitChange>, author: Seq<char>)
    requires
        !authored(changes, author),
    ensures
        churn_of(changes, author) == Churn::zero(),
        touched(changes, author) == Set::<Seq<char>>::empty(),
    decreases changes.len(),
{
    if changes.len() > 0 {
        lemma_unauthored(changes.drop_last(), author);
        assert(touched(changes, author) =~= Set::<Seq<char>>::empty());
    }
}

/// Adds to `files` every path of `paths`.
fn touch(files: &mut StringSet, paths: &Vec<String>)
    ensures
        final(files)@ == old(files)@.union(
            Set::new(
                |path: Seq<char>|
                    exists|i: int| 0 <= i < paths@.len() && (#[trigger] paths@[i])@ == path,
            ),
        ),
{
    let n = paths.len();
    let mut i: usize = 0;
    while i < n
        invariant
            i <= n,
            n == paths@.len(),
            forall|path: Seq<char>|
                files@.contains(path) <==> old(files)@.contains(path) || exists|j: int|
                    0 <= j < i && (#[trigger] paths@[j])@ == path,
        decreases n - i,
    {
        let ghost prior = files@;
        files.insert(paths[i].clone());
        proof {
            assert forall|path: Seq<char>|
                files@.contains(path) <==> old(files)@.contains(path) || exists|j: int|
                    0 <= j < i + 1 && (#[trigger] paths@[j])@ == path by {
                if path == paths@[i as int]@ {
                    assert(paths@[i as int]@ == path);
                }
                if prior.contains(path) && !old(files)@.contains(path) {
                    let j = choose|j: int| 0 <= j < i && (#[trigger] paths@[j])@ == path;
                    assert(paths@[j]@ == path);
                }
                if exists|j: int| 0 <= j < i + 1 && (#[trigger] paths@[j])@ == path {
                    let j = choose|j: int| 0 <= j < i + 1 && (#[trigger] paths@[j])@ == path;
                    if j < i {
                        assert(paths@[j]@ == path);
                    }
                }
            }
        }
        i += 1;
    }
    proof {
        assert(files@ =~= old(files)@.union(
            Set::new(
                |path: Seq<char>|
                    exists|i: int| 0 <= i < paths@.len() && (#[trigger] paths@[i])@ == path,
            ),
        ));
    }
}

/// Collects, for every author, the paths that their changes touched.
pub fn accumulate_files(changes: &Vec<CommitChange>) -> (files: StringMap<StringSet>)
    ensures
        path_sets(files@) == touched_ledger(changes@),
{
    let mut files: StringMap<StringSet> = StringMap::new();
    let n = changes.len();
    let mut i: usize = 0;
    proof {
        assert(path_sets(files@) =~= touched_ledger(changes@.take(0)));
    }
    while i < n
        invariant
            i <= n,
            n == changes@.len(),
            path_sets(files@) == touched_ledger(changes@.take(i as int)),
        decreases n - i,
    {
        let change = &changes[i];
        let ghost before = changes@.take(i as int);
        let ghost after = changes@.take(i + 1);
        let ghost prior = files@;
        proof {
            assert(after.drop_last() =~= before);
            assert(after.last() == changes@[i as int]);
        }
        match &change.author {
            Some(name) => {
                proof {
                    assert(path_sets(prior).dom().contains(name@) == authored(before, name@));
                }
                match files.position(name.as_str()) {
                    Some(at) => {
                        let mut held = files.replace_at(at, StringSet::new());
                        proof {
                            assert(path_sets(prior)[name@] == held@);
                        }
                        touch(&mut held, &change.paths);
                        files.replace_at(at, held);
                    },
                    None => {
                        proof {
                            lemma_unauthored(before, name@);
                        }
                        let mut held = StringSet::new();
                        touch(&mut held, &change.paths);
                        files.insert(name.clone(), held);
                    },
                }
                proof {
                    let got = path_sets(files@);
                    let want = touched_ledger(after);
                    assert forall|a: Seq<char>| #[trigger]
                        got.dom().contains(a) == want.dom().contains(a) && (got.dom().contains(a)
                            ==> got[a] == want[a]) by {
                        assert(path_sets(prior).dom().contains(a) == authored(before, a));
                        if path_sets(prior).dom().contains(a) {
                            assert(path_sets(prior)[a] == touched(before, a));
                        }
                        if a == name@ {
                            assert(got[a] =~= want[a]);
                        } else if got.dom().contains(a) {
                            assert(touched(after, a) =~= touched(before, a));
                        }
                    }
                    assert(got =~= want);
                }
            },
            None => {
                proof {
                    assert forall|a: Seq<char>|
                        authored(after, a) == authored(before, a) && touched(after, a)
                            == touched(before, a) by {
                        assert(!by_author(after.last(), a));
                        assert(touched(after, a) =~= touched(before, a));
                    }
                    assert(path_sets(files@) =~= touched_ledger(after));
                }
            },
        }
        i += 1;
    }
    proof {
        assert(changes@.take(n as int) =~= changes@);
    }
    files
}

/// Get insertion/deletion statistics of every author over a history.
///
/// Strict: the first commit that failed ends the walk with that failure.
pub fn diff_stats(commits: Vec<Result<CommitChange, GitFailure>>) -> (outcome: Result<
    StringMap<DiffStats>,
    Error,
>)
    requires
        first_failure(commits@) is None ==> churn_fits(changes_of(commits@)),
    ensures
        match outcome {
            Ok(stats) => first_failure(commits@) is None && churns(stats@) == churn_ledger(
                changes_of(commits@),
            ),
            Err(Error::GitError(e)) => first_failure(commits@) == Some(e),
            Err(_) => false,
        },
{
    match strict(commits) {
        Ok(changes) => Ok(accumulate_churn(&changes)),
        Err(e) => Err(Error::GitError(e)),
    }
}

/// Get the files contributed to by every author over a history.
///
/// Strict: the first commit that failed ends the walk with that failure.
pub fn files_contributed_to(commits: Vec<Result<CommitChange, GitFailure>>) -> (outcome: Result<
    StringMap<StringSet>,
    Error,
>)
    ensures
        match outcome {
            Ok(files) => first_failure(commits@) is None && path_sets(files@) == touched_ledger(
                changes_of(commits@),
            ),
            Err(Error::GitError(e)) => first_failure(commits@) == Some(e),
            Err(_) => false,
        },
{
    match strict(commits) {
        Ok(changes) => Ok(accumulate_files(&changes)),
        Err(e) => Err(Error::GitError(e)),
    }
}

/// Whether an author's name is the text `name`.
pub open spec fn named(author: Option<String>, name: Seq<char>) -> bool {
    author matches Some(text) && text@ == name
}

/// The names that are text among the authors of the commits of a history.
/// A name that is no text is passed over.
pub fn contributors(authors: &Vec<Option<String>>) -> (names: StringSet)
    ensures
        forall|name: Seq<char>|
            names@.contains(name) <==> exists|i: int|
                0 <= i < authors@.len() && #[trigger] named(authors@[i], name),
{
    let mut names = StringSet::new();
    let n = authors.len();
    let mut i: usize = 0;
    while i < n
        invariant
            i <= n,
            n == authors@.len(),
            forall|name: Seq<char>|
                names@.contains(name) <==> exists|j: int|
                    0 <= j < i && #[trigger] named(authors@[j], name),
        decreases n - i,
    {
        let ghost prior = names@;
        match &authors[i] {
            Some(text) => {
                names.insert(text.clone());
            },
            None => {},
        }
        proof {
            assert forall|name: Seq<char>|
                names@.contains(name) <==> exists|j: int|
                    0 <= j < i + 1 && #[trigger] named(authors@[j], name) by {
                if prior.contains(name) {
                    let j = choose|j: int| 0 <= j < i && #[trigger] named(authors@[j], name);
                    assert(named(authors@[j], name));
                }
                if names@.contains(name) && !prior.contains(name) {
                    assert(named(authors@[i as int], name));
                }
                if exists|j: int| 0 <= j < i + 1 && #[trigger] named(authors@[j], name) {
                    let j = choose|j: int| 0 <= j < i + 1 && #[trigger] named(authors@[j], name);
                    if j < i {
                        assert(named(authors@[j], name));
                    }
                }
            }
        }
        i += 1;
    }
    names
}

/// What a change adds to what `author` inserted and deleted.
pub open spec fn churn_share(change: CommitChange, author: Seq<char>) -> Churn {
    if by_author(change, author) {
        churn(change)
    } else {
        Churn::zero()
    }
}

/// What a change adds to what `author` touched.
pub open spec fn touched_share(change: CommitChange, author: Seq<char>) -> Set<Seq<char>> {
    if by_author(change, author) {
        paths_of(change)
    } else {
        Set::empty()
    }
}

/// Any change can be taken last.
proof fn lemma_changes_remove(changes: Seq<CommitChange>, author: Seq<char>, i: int)
    requires
        0 <= i < changes.len(),
    ensures
        authored(changes, author) == (authored(changes.remove(i), author) || by_author(
            changes[i],
            author,
        )),
        churn_of(changes, author) == churn_of(changes.remove(i), author).plus(
            churn_share(changes[i], author),
        ),
        touched(changes, author) == touched(changes.remove(i), author).union(
            touched_share(changes[i], author),
        ),
    decreases changes.len(),
{
    if i == changes.len() - 1 {
        assert(changes.remove(i) =~= changes.drop_last());
    } else {
        let front = changes.drop_last();
        lemma_changes_remove(front, author, i);
        assert(changes.remove(i).drop_last() =~= front.remove(i));
        assert(changes.remove(i).last() == changes.last());
        assert(touched(changes, author) =~= touched(changes.remove(i), author).union(
            touched_share(changes[i], author),
        ));
    }
}

/// The order of the walk does not matter: the same changes in any order give
/// every author the same insertions and deletions and the same touched
/// paths.
pub proof fn lemma_history_any_order(one: Seq<CommitChange>, other: Seq<CommitChange>)
    requires
        one.to_multiset() == other.to_multiset(),
    ensures
        churn_ledger(one) == churn_ledger(other),
        touched_ledger(one) == touched_ledger(other),
{
    assert forall|author: Seq<char>|
        authored(one, author) == authored(other, author) && churn_of(one, author) == churn_of(
            other,
            author,
        ) && touched(one, author) == touched(other, author) by {
        lemma_author_any_order(one, other, author);
    }
    assert(churn_ledger(one) =~= churn_ledger(other));
    assert(touched_ledger(one) =~= touched_ledger(other));
}

/// The same changes in any order give one author the same.
proof fn lemma_author_any_order(one: Seq<CommitChange>, other: Seq<CommitChange>, author: Seq<char>)
    requires
        one.to_multiset() == other.to_multiset(),
    ensures
        authored(one, author) == authored(other, author),
        churn_of(one, author) == churn_of(other, author),
        touched(one, author) == touched(other, author),
    decreases one.len(),
{
    to_multiset_len(one);
    to_multiset_len(other);
    if one.len() > 0 {
        let last = one.last();
        one.to_multiset_ensures();
        other.to_multiset_ensures();
        assert(one.contains(last)) by {
            assert(one[one.len() - 1] == last);
        }
        assert(one.to_multiset().count(last) > 0);
        assert(other.to_multiset().count(last) > 0);
        assert(other.contains(last));
        let j = choose|j: int| 0 <= j < other.len() && other[j] == last;
        to_multiset_remove(one, one.len() - 1);
        to_multiset_remove(other, j);
        assert(one.remove(one.len() - 1) =~= one.drop_last());
        lemma_author_any_order(one.drop_last(), other.remove(j), author);
        lemma_changes_remove(other, author, j);
    }
}

/// A path that an author touched in several changes is in their set once:
/// touching again what was touched changes nothing.
pub proof fn lemma_touched_again(changes: Seq<CommitChange>, again: CommitChange, author: Seq<char>)
    requires
        by_author(again, author),
        paths_of(again).subset_of(touched(changes, author)),
    ensures
        touched(changes.push(again), author) == touched(changes, author),
{
    assert(changes.push(again).drop_last() =~= changes);
    assert(touched(changes.push(again), author) =~= touched(changes, author));
}

/// What all the changes insert and delete together.
pub open spec fn churn_sum(changes: Seq<CommitChange>) -> Churn
    decreases changes.len(),
{
    if changes.len() == 0 {
        Churn::zero()
    } else {
        churn_sum(changes.drop_last()).plus(churn(changes.last()))
    }
}

/// No author inserted or deleted more than all the changes together.
pub proof fn lemma_churn_within_sum(changes: Seq<CommitChange>, author: Seq<char>)
    ensures
        churn_of(changes, author).insertions <= churn_sum(changes).insertions,
        churn_of(changes, author).deletions <= churn_sum(changes).deletions,
    decreases changes.len(),
{
    if changes.len() > 0 {
        lemma_churn_within_sum(changes.drop_last(), author);
    }
}

/// The first changes insert and delete no more than all of them.
pub proof fn lemma_churn_sum_prefix(changes: Seq<CommitChange>, n: int)
    requires
        0 <= n <= changes.len(),
    ensures
        churn_sum(changes.take(n)).insertions <= churn_sum(changes).insertions,
        churn_sum(changes.take(n)).deletions <= churn_sum(changes).deletions,
    decreases changes.len() - n,
{
    if n < changes.len() {
        lemma_churn_sum_prefix(changes, n + 1);
        assert(changes.take(n + 1).drop_last() =~= changes.take(n));
    } else {
        assert(changes.take(n) =~= changes);
    }
}

/// Whether what all the changes insert and delete together can be counted
/// in a `usize`: where it can, so can what each author inserted and deleted.
pub fn countable(changes: &Vec<CommitChange>) -> (fits: bool)
    ensures
        fits == churn_sum(changes@).fits(),
        fits ==> churn_fits(changes@),
{
    let n = changes.len();
    let mut insertions: usize = 0;
    let mut deletions: usize = 0;
    let mut i: usize = 0;
    while i < n
        invariant
            i <= n,
            n == changes@.len(),
            insertions == churn_sum(changes@.take(i as int)).insertions,
            deletions == churn_sum(changes@.take(i as int)).deletions,
        decreases n - i,
    {
        proof {
            assert(changes@.take(i + 1).drop_last() =~= changes@.take(i as int));
            assert(changes@.take(i + 1).last() == changes@[i as int]);
            lemma_churn_sum_prefix(changes@, i + 1);
        }
        match insertions.checked_add(changes[i].insertions) {
            Some(sum) => {
                insertions = sum;
            },
            None => {
                return false;
            },
        }
        match deletions.checked_add(changes[i].deletions) {
            Some(sum) => {
                deletions = sum;
            },
            None => {
                return false;
            },
        }
        i += 1;
    }
    proof {
        assert(changes@.take(n as int) =~= changes@);
        assert forall|author: Seq<char>| (#[trigger] churn_of(changes@, author)).fits() by {
            lemma_churn_within_sum(changes@, author);
        }
    }
    true
}

/// Get insertion/deletion statistics of every author over a history, where
/// what all its commits insert and delete together can be counted in a
/// `usize`, and nothing where it cannot.
///
/// Strict: the first commit that failed ends the walk with that failure.
pub fn try_diff_stats(commits: Vec<Result<CommitChange, GitFailure>>) -> (outcome: Result<
    Option<StringMap<DiffStats>>,
    Error,
>)
    ensures
        match outcome {
            Ok(Some(stats)) => {
                &&& first_failure(commits@) is None
                &&& churn_sum(changes_of(commits@)).fits()
                &&& churns(stats@) == churn_ledger(changes_of(commits@))
            },
            Ok(None) => first_failure(commits@) is None && !churn_sum(
                changes_of(commits@),
            ).fits(),
            Err(Error::GitError(e)) => first_failure(commits@) == Some(e),
            Err(_) => false,
        },
{
    match strict(commits) {
        Ok(changes) => {
            if countable(&changes) {
                Ok(Some(accumulate_churn(&changes)))
            } else {
                Ok(None)
            }
        },
        Err(e) => Err(Error::GitError(e)),
    }
}

} // verus!
