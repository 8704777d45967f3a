//! The detective: the exclusion filter, and the queries that consult it.

use crate::attribution::{creditable, tallies};
use crate::diff_stats::DiffStats;
use crate::error::Error;
use crate::git::file_status::FileStatus;
use crate::git::repository_state::RepositoryState;
use crate::history::{
    changes_of, churn_fits, churn_ledger, churn_sum, churns, first_failure, named, path_sets,
    touched_ledger, CommitChange,
};
use crate::ledger::{balanced, finite, total};
use crate::project_stats::ProjectStats;
use crate::snapshot::{
    attributable, file_credits, language_name, report, report_lines, report_span, reported,
    FileSnapshot,
};
use crate::stats::{LineKind, Stats};
use crate::git::blame::Blame;
use crate::string_map::StringMap;
use crate::string_set::StringSet;
use git2::Error as GitFailure;
use std::collections::HashMap;
use std::io::Error as IoFailure;
use std::path::PathBuf;
use vstd::hash_set::StringHashSet;
use vstd::prelude::*;

verus! {

/// Whether the exclusion set lets an entry through.
pub open spec fn listed(excluded: Set<Seq<char>>) -> spec_fn(FileStatus) -> bool {
    |entry: FileStatus| !excluded.contains(entry.path@)
}

/// The entries that an exclusion set lets through, in their order.
pub open spec fn listing(entries: Seq<FileStatus>, excluded: Set<Seq<char>>) -> Seq<FileStatus> {
    entries.filter(listed(excluded))
}

/// Enables more in-depth investigating of Git Repositories
///
/// The detective holds the set of excluded paths. The listing and the
/// snapshot attribution consult it; the queries over the history do not.
pub struct GitDetective {
    excluded_files: StringHashSet,
}

impl GitDetective {
    /// The paths that are excluded.
    pub closed spec fn excluded(&self) -> Set<Seq<char>> {
        self.excluded_files@
    }

    /// A detective that excludes nothing.
    pub fn new() -> (detective: Self)
        ensures
            detective.excluded() == Set::<Seq<char>>::empty(),
    {
        GitDetective { excluded_files: StringHashSet::new() }
    }

    /// Exclude a file from all further [`ls`](struct.GitDetective.html#method.ls) and
    /// [`final_contributions`](struct.GitDetective.html#method.final_contributions)
    pub fn exclude_file(&mut self, file: &str)
        ensures
            final(self).excluded() == old(self).excluded().insert(file@),
    {
        self.excluded_files.insert(file.to_owned());
    }

    /// Take a file back into all further
    /// [`ls`](struct.GitDetective.html#method.ls) and
    /// [`final_contributions`](struct.GitDetective.html#method.final_contributions)
    pub fn include_file(&mut self, file: &str)
        ensures
            final(self).excluded() == old(self).excluded().remove(file@),
    {
        self.excluded_files.remove(file);
    }

    /// Whether `file` is excluded.
    pub fn is_excluded(&self, file: &str) -> (excluded: bool)
        ensures
            excluded == self.excluded().contains(file@),
    {
        self.excluded_files.contains(file)
    }

    /// List files in the Index: of the entries that the repository reports,
    /// those that are not excluded, in their order.
    pub fn ls(&self, entries: Vec<FileStatus>) -> (files: Vec<FileStatus>)
        ensures
            files@ == listing(entries@, self.excluded()),
    {
        let mut files: Vec<FileStatus> = Vec::new();
        proof {
            reveal(Seq::filter);
        }
        for entry in it: entries
            invariant
                it.seq() == entries@,
                files@ == listing(entries@.take(it.index() as int), self.excluded()),
        {
            proof {
                reveal(Seq::filter);
                assert(entries@.take(it.index() + 1).drop_last() =~= entries@.take(
                    it.index() as int,
                ));
                assert(entries@.take(it.index() + 1).last() == entry);
            }
            if !self.excluded_files.contains(entry.path.as_str()) {
                files.push(entry);
            }
        }
        proof {
            assert(entries@.take(entries@.len() as int) =~= entries@);
        }
        files
    }

    /// Count the final contibutions for an entire git repository: the
    /// statistics of every file that is not excluded and can be attributed,
    /// merged.
    ///
    /// Final contributions takes the last commit, and completely
    /// ignores current untracked changes in the git repository.
    ///
    /// A file that could not be blamed or whose content could not be read
    /// contributes nothing: the count silently reports less than every file
    /// of the tree, and does not fail.
    ///
    /// # All of my `code` is "Plain Text"
    ///
    /// `Git-Detective` fallsback to interpreting files as "Plain Text" when no file type can be determined.
    /// This is common for files like `Cargo.lock` and `LICENSE`.
    pub fn final_contributions(&self, files: &Vec<FileSnapshot>) -> (stats: ProjectStats)
        requires
            report_lines(files@, self.excluded()) <= usize::MAX,
        ensures
            stats@ == report(files@, self.excluded()),
            total(stats@).lines == report_lines(files@, self.excluded()),
            balanced(stats@),
            finite(stats@),
    {
        crate::snapshot::final_contributions(files, &self.excluded_files)
    }

    /// Count the final contributions for an entire git repository where the
    /// lines that the blames of its files cover can be counted in a `usize`,
    /// and nothing where they cannot.
    ///
    /// Nothing is asked of the caller. No file that could not be blamed or
    /// read makes the count fail, however many there are: such a file adds
    /// nothing, to the count or to the lines that must be countable.
    pub fn try_final_contributions(&self, files: &Vec<FileSnapshot>) -> (stats: Option<
        ProjectStats,
    >)
        ensures
            match stats {
                Some(stats) => {
                    &&& reported(files@, self.excluded()) == Some(stats@)
                    &&& report_span(files@, self.excluded()) <= usize::MAX
                    &&& stats@ == report(files@, self.excluded())
                    &&& total(stats@).lines == report_lines(files@, self.excluded())
                    &&& balanced(stats@)
                    &&& finite(stats@)
                },
                None => reported(files@, self.excluded()) is None && report_span(
                    files@,
                    self.excluded(),
                ) > usize::MAX,
            },
    {
        if crate::snapshot::countable(files, &self.excluded_files) {
            Some(crate::snapshot::final_contributions(files, &self.excluded_files))
        } else {
            None
        }
    }

    /// Count the final contibutions for a file, excluded or not
    ///
    /// Strict: where the blame is not known its failure is returned, and
    /// else, where the content could not be read, that failure with the path.
    pub fn final_contributions_file(&self, file: FileSnapshot) -> (outcome: Result<
        (String, StringMap<Stats>),
        Error,
    >)
        ensures
            match outcome {
                Ok((language, credits)) => {
                    &&& attributable(file)
                    &&& language@ == language_name(file.language)
                    &&& tallies(credits@) == file_credits(file)
                    &&& creditable(tallies(credits@))
                },
                Err(Error::GitError(e)) => file.blame == Err::<Blame, GitFailure>(e),
                Err(Error::IOError(e, path)) => file.blame is Ok && file.annotations == Err::<
                    HashMap<usize, LineKind>,
                    (IoFailure, PathBuf),
                >((e, path)),
                Err(_) => false,
            },
    {
        crate::snapshot::final_contributions_file(file)
    }

    /// Get insertion/deletion statistics
    ///
    /// The same `+` and `-` deltas that Github shows in the contributors page
    ///
    /// Strict: the first commit that failed ends the walk with that failure.
    pub fn diff_stats(&self, commits: Vec<Result<CommitChange, GitFailure>>) -> (outcome: Result<
        StringMap<DiffStats>,
        Error,
    >)
        requires
            first_failure(commits@) is None ==> churn_fits(changes_of(commits@)),
        ensures
            match outcome {
                Ok(stats) => first_failure(commits@) is None && churns(stats@) == churn_ledger(
                    changes_of(commits@),
                ),
                Err(Error::GitError(e)) => first_failure(commits@) == Some(e),
                Err(_) => false,
            },
    {
        crate::history::diff_stats(commits)
    }

    /// Get insertion/deletion statistics where what all the commits insert
    /// and delete together can be counted in a `usize`, and nothing where it
    /// cannot.
    ///
    /// Strict: the first commit that failed ends the walk with that failure.
    pub fn try_diff_stats(&self, commits: Vec<Result<CommitChange, GitFailure>>) -> (outcome:
        Result<Option<StringMap<DiffStats>>, Error>)
        ensures
            match outcome {
                Ok(Some(stats)) => {
                    &&& first_failure(commits@) is None
                    &&& churn_sum(changes_of(commits@)).fits()
                    &&& churns(stats@) == churn_ledger(changes_of(commits@))
                },
                Ok(None) => first_failure(commits@) is None && !churn_sum(
                    changes_of(commits@),
                ).fits(),
                Err(Error::GitError(e)) => first_failure(commits@) == Some(e),
                Err(_) => false,
            },
    {
        crate::history::try_diff_stats(commits)
    }

    /// Get files contributed to by all Contributors in commits that are parents of `HEAD`
    ///
    /// All file paths are given relatively to the Git working directory
    ///
    /// Strict: the first commit that failed ends the walk with that failure.
    pub fn files_contributed_to(&self, commits: Vec<Result<CommitChange, GitFailure>>) -> (outcome:
        Result<StringMap<StringSet>, Error>)
        ensures
            match outcome {
                Ok(files) => first_failure(commits@) is None && path_sets(files@)
                    == touched_ledger(changes_of(commits@)),
                Err(Error::GitError(e)) => first_failure(commits@) == Some(e),
                Err(_) => false,
            },
    {
        crate::history::files_contributed_to(commits)
    }

    /// The set of all contributors of Repository: the names that are text
    /// among the authors of its commits
    pub fn contributors(&self, authors: &Vec<Option<String>>) -> (names: StringSet)
        ensures
            forall|name: Seq<char>|
                names@.contains(name) <==> exists|i: int|
                    0 <= i < authors@.len() && #[trigger] named(authors@[i], name),
    {
        crate::history::contributors(authors)
    }

    /// Whether a checkout may go ahead: only in a repository that is in the
    /// middle of nothing.
    pub fn checkout(&self, state: RepositoryState) -> (outcome: Result<(), Error>)
        ensures
            outcome == if state == RepositoryState::Clean {
                Ok::<(), Error>(())
            } else {
                Err::<(), Error>(Error::UncleanState(state))
            },
    {
        if state != RepositoryState::Clean {
            return Err(Error::UncleanState(state));
        }
        Ok(())
    }
}

/// Whether an entry lies elsewhere than at `path`.
pub open spec fn entry_elsewhere(path: Seq<char>) -> spec_fn(FileStatus) -> bool {
    |entry: FileStatus| entry.path@ != path
}

/// Excluding a path takes the entries at that path out of the listing, and
/// no others.
pub proof fn lemma_listing_excluding(
    entries: Seq<FileStatus>,
    excluded: Set<Seq<char>>,
    path: Seq<char>,
)
    ensures
        listing(entries, excluded.insert(path)) == listing(entries, excluded).filter(
            entry_elsewhere(path),
        ),
        forall|i: int|
            0 <= i < listing(entries, excluded.insert(path)).len() ==> (#[trigger] listing(
                entries,
                excluded.insert(path),
            )[i]).path@ != path,
    decreases entries.len(),
{
    reveal(Seq::filter);
    if entries.len() > 0 {
        let front = entries.drop_last();
        lemma_listing_excluding(front, excluded, path);
        let last = entries.last();
        if !excluded.contains(last.path@) {
            let kept = listing(front, excluded).push(last);
            assert(kept.drop_last() =~= listing(front, excluded));
            assert(kept.last() == last);
        }
    }
    lemma_listing(entries, excluded.insert(path));
}

/// Including again a path that was excluded gives the listing as it was
/// before the exclusion.
pub proof fn lemma_listing_including_again(
    entries: Seq<FileStatus>,
    excluded: Set<Seq<char>>,
    path: Seq<char>,
)
    requires
        !excluded.contains(path),
    ensures
        listing(entries, excluded.insert(path).remove(path)) == listing(entries, excluded),
{
    assert(excluded.insert(path).remove(path) =~= excluded);
}

/// An entry is listed exactly when its path is not excluded.
pub proof fn lemma_listing(entries: Seq<FileStatus>, excluded: Set<Seq<char>>)
    ensures
        forall|i: int|
            0 <= i < listing(entries, excluded).len() ==> !excluded.contains(
                (#[trigger] listing(entries, excluded)[i]).path@,
            ),
        forall|i: int|
            0 <= i < entries.len() && !excluded.contains(entries[i].path@) ==> listing(
                entries,
                excluded,
            ).contains(#[trigger] entries[i]),
{
    broadcast use vstd::seq_lib::group_filter_ensures;

    let kept = listing(entries, excluded);
    assert forall|i: int| 0 <= i < kept.len() implies !excluded.contains(
        (#[trigger] kept[i]).path@,
    ) by {
        entries.lemma_filter_pred(listed(excluded), i);
    }
    assert forall|i: int|
        0 <= i < entries.len() && !excluded.contains(entries[i].path@) implies kept.contains(
        #[trigger] entries[i],
    ) by {
        entries.lemma_filter_contains(listed(excluded), i);
    }
}

} // verus!
