//! Snapshot attribution: the statistics of the files of a checked-out tree,
//! reduced into one project-wide report.
//!
//! A bulk query is best-effort. A file that could not be blamed, or whose
//! content could not be read, contributes nothing, and the files around it
//! are counted as if it were not there. The query for a single file is
//! strict: its first failure is handed to the caller.

use crate::attribution::{
    attribute, attribution, creditable, credited_lines, lemma_attribution_balanced,
    lemma_attribution_total, lemma_credited_lines_within_span, tallies,
};
use crate::error::Error;
use crate::git::blame::{span, Blame};
use crate::ledger::{
    balanced, finite, lemma_merge_associative, lemma_merge_balanced, lemma_merge_commutative,
    lemma_merge_empty, lemma_total_merge, lemma_total_of_file, merge, of_file, owned, total,
    Languages, Ledger,
};
use crate::project_stats::ProjectStats;
use crate::stats::{LineKind, Stats, Tally};
use crate::string_map::StringMap;
use crate::totals::{lemma_sum_empty, whole};
use git2::Error as GitFailure;
use std::collections::HashMap;
use std::io::Error as IoFailure;
use std::ops::AddAssign;
use std::path::PathBuf;
use vstd::hash_set::StringHashSet;
use vstd::prelude::*;
use vstd::seq_lib::{to_multiset_len, to_multiset_remove};

verus! {

/// What the repository and the source classifier report of one file of the
/// tree.
#[derive(Debug)]
pub struct FileSnapshot {
    /// The path of the file, relative to the working directory.
    pub path: String,
    /// The name of the file's language, where the classifier could tell.
    pub language: Option<String>,
    /// The blame of the file, or why the repository could not compute it.
    pub blame: Result<Blame, GitFailure>,
    /// The kind of each line of the file's content by line number, or why
    /// the content at the path could not be read. It is consulted only where
    /// the blame is known.
    pub annotations: Result<HashMap<usize, LineKind>, (IoFailure, PathBuf)>,
}

/// The language under which a file is counted where the classifier could not
/// tell its language.
pub fn fallback_language() -> (name: &'static str)
    ensures
        name@ == "Plain Text"@,
{
    "Plain Text"
}

/// The language under which a file is counted: every file has one.
pub open spec fn language_name(language: Option<String>) -> Seq<char> {
    match language {
        Some(name) => name@,
        None => "Plain Text"@,
    }
}

/// Whether a file can be attributed: it was blamed and its content was read.
pub open spec fn attributable(file: FileSnapshot) -> bool {
    file.blame is Ok && file.annotations is Ok
}

/// What a file credits to each author; nothing where it cannot be attributed.
pub open spec fn file_credits(file: FileSnapshot) -> Map<Seq<char>, Tally> {
    if attributable(file) {
        attribution(file.blame->Ok_0@, file.annotations->Ok_0@)
    } else {
        Map::empty()
    }
}

/// The number of lines that a file credits; none where it cannot be
/// attributed.
pub open spec fn file_lines(file: FileSnapshot) -> nat {
    if attributable(file) {
        credited_lines(file.blame->Ok_0@, file.annotations->Ok_0@)
    } else {
        0
    }
}

/// The ledger of one file: what it credits, under the file's language.
pub open spec fn file_ledger(file: FileSnapshot) -> Ledger {
    of_file(language_name(file.language), file_credits(file))
}

/// Whether a file is counted: it is not excluded.
pub open spec fn counted(file: FileSnapshot, excluded: Set<Seq<char>>) -> bool {
    !excluded.contains(file.path@)
}

/// What a file adds to a report: its ledger where it is counted, nothing
/// where it is excluded.
pub open spec fn share(file: FileSnapshot, excluded: Set<Seq<char>>) -> Ledger {
    if counted(file, excluded) {
        file_ledger(file)
    } else {
        Map::empty()
    }
}

/// The project-wide report: what the files add, merged.
pub open spec fn report(files: Seq<FileSnapshot>, excluded: Set<Seq<char>>) -> Ledger
    decreases files.len(),
{
    if files.len() == 0 {
        Map::empty()
    } else {
        merge(report(files.drop_last(), excluded), share(files.last(), excluded))
    }
}

/// The number of lines that the counted files credit.
pub open spec fn report_lines(files: Seq<FileSnapshot>, excluded: Set<Seq<char>>) -> nat
    decreases files.len(),
{
    if files.len() == 0 {
        0
    } else {
        report_lines(files.drop_last(), excluded) + if counted(files.last(), excluded) {
            file_lines(files.last())
        } else {
            0
        }
    }
}

/// The ledger of a file is finite and balanced, and holds as many lines as
/// the file credits.
pub proof fn lemma_file_ledger(file: FileSnapshot)
    ensures
        finite(file_ledger(file)),
        balanced(file_ledger(file)),
        total(file_ledger(file)).lines == file_lines(file),
{
    let language = language_name(file.language);
    let credits = file_credits(file);
    if attributable(file) {
        lemma_attribution_total(file.blame->Ok_0@, file.annotations->Ok_0@);
        lemma_attribution_balanced(file.blame->Ok_0@, file.annotations->Ok_0@);
    } else {
        lemma_sum_empty::<Tally>(whole());
    }
    lemma_total_of_file(language, credits);
    assert forall|author: Seq<char>, l: Seq<char>|
        file_ledger(file).contains_key(author) && file_ledger(file)[author].contains_key(
            l,
        ) implies #[trigger] file_ledger(file)[author][l].balanced() by {
        assert(credits.contains_key(author));
        assert(credits[author].balanced());
    }
}

/// A report is finite and balanced, and holds as many lines as the counted
/// files credit: no line is lost in the merge and none is counted twice.
pub proof fn lemma_report(files: Seq<FileSnapshot>, excluded: Set<Seq<char>>)
    ensures
        finite(report(files, excluded)),
        balanced(report(files, excluded)),
        total(report(files, excluded)).lines == report_lines(files, excluded),
    decreases files.len(),
{
    if files.len() == 0 {
        lemma_sum_empty::<Languages>(owned());
    } else {
        let front = report(files.drop_last(), excluded);
        lemma_report(files.drop_last(), excluded);
        if counted(files.last(), excluded) {
            lemma_file_ledger(files.last());
            lemma_total_merge(front, file_ledger(files.last()));
            lemma_merge_balanced(front, file_ledger(files.last()));
        } else {
            lemma_merge_empty(front);
        }
    }
}

/// The first files of a list credit no more lines than the whole list.
pub proof fn lemma_report_lines_prefix(files: Seq<FileSnapshot>, excluded: Set<Seq<char>>, n: int)
    requires
        0 <= n <= files.len(),
    ensures
        report_lines(files.take(n), excluded) <= report_lines(files, excluded),
    decreases files.len() - n,
{
    if n < files.len() {
        lemma_report_lines_prefix(files, excluded, n + 1);
        assert(files.take(n + 1).drop_last() =~= files.take(n));
    } else {
        assert(files.take(n) =~= files);
    }
}

/// Any file can be merged last.
proof fn lemma_report_remove(files: Seq<FileSnapshot>, excluded: Set<Seq<char>>, i: int)
    requires
        0 <= i < files.len(),
    ensures
        report(files, excluded) == merge(report(files.remove(i), excluded), share(files[i], excluded)),
    decreases files.len(),
{
    if i == files.len() - 1 {
        assert(files.remove(i) =~= files.drop_last());
    } else {
        let front = files.drop_last();
        lemma_report_remove(front, excluded, i);
        assert(files.remove(i).drop_last() =~= front.remove(i));
        assert(files.remove(i).last() == files.last());
        let rest = report(front.remove(i), excluded);
        let here = share(files[i], excluded);
        let last = share(files.last(), excluded);
        lemma_merge_associative(rest, here, last);
        lemma_merge_associative(rest, last, here);
        lemma_merge_commutative(here, last);
    }
}

/// The report does not depend on the order in which the files are taken.
pub proof fn lemma_report_any_order(
    one: Seq<FileSnapshot>,
    other: Seq<FileSnapshot>,
    excluded: Set<Seq<char>>,
)
    requires
        one.to_multiset() == other.to_multiset(),
    ensures
        report(one, excluded) == report(other, excluded),
    decreases one.len(),
{
    to_multiset_len(one);
    to_multiset_len(other);
    if one.len() > 0 {
        let last = one.last();
        one.to_multiset_ensures();
        other.to_multiset_ensures();
        assert(one.contains(last)) by {
            assert(one[one.len() - 1] == last);
        }
        assert(one.to_multiset().count(last) > 0);
        assert(other.to_multiset().count(last) > 0);
        assert(other.contains(last));
        let j = choose|j: int| 0 <= j < other.len() && other[j] == last;
        to_multiset_remove(one, one.len() - 1);
        to_multiset_remove(other, j);
        assert(one.remove(one.len() - 1) =~= one.drop_last());
        lemma_report_any_order(one.drop_last(), other.remove(j), excluded);
        lemma_report_remove(other, excluded, j);
    }
}

/// The report of two runs of files is the merge of the reports of each: the
/// files may be split among workers anywhere.
pub proof fn lemma_report_split(
    one: Seq<FileSnapshot>,
    other: Seq<FileSnapshot>,
    excluded: Set<Seq<char>>,
)
    ensures
        report(one + other, excluded) == merge(report(one, excluded), report(other, excluded)),
    decreases other.len(),
{
    if other.len() == 0 {
        assert(one + other =~= one);
        lemma_merge_empty(report(one, excluded));
    } else {
        lemma_report_split(one, other.drop_last(), excluded);
        assert((one + other).drop_last() =~= one + other.drop_last());
        assert((one + other).last() == other.last());
        lemma_merge_associative(
            report(one, excluded),
            report(other.drop_last(), excluded),
            share(other.last(), excluded),
        );
    }
}

/// Whether a file lies elsewhere than at `path`.
pub open spec fn elsewhere(path: Seq<char>) -> spec_fn(FileSnapshot) -> bool {
    |file: FileSnapshot| file.path@ != path
}

/// Excluding a path takes the files at that path out of the report, and no
/// others: the report is that of the files that lie elsewhere.
pub proof fn lemma_report_excluding(
    files: Seq<FileSnapshot>,
    excluded: Set<Seq<char>>,
    path: Seq<char>,
)
    ensures
        report(files, excluded.insert(path)) == report(files.filter(elsewhere(path)), excluded),
    decreases files.len(),
{
    reveal(Seq::filter);
    if files.len() > 0 {
        let front = files.drop_last();
        lemma_report_excluding(front, excluded, path);
        if files.last().path@ == path {
            lemma_merge_empty(report(front, excluded.insert(path)));
        } else {
            let kept = front.filter(elsewhere(path)).push(files.last());
            assert(kept.drop_last() =~= front.filter(elsewhere(path)));
            assert(kept.last() == files.last());
        }
    }
}

/// Including again a path that was excluded gives the report as it was
/// before the exclusion.
pub proof fn lemma_report_including_again(
    files: Seq<FileSnapshot>,
    excluded: Set<Seq<char>>,
    path: Seq<char>,
)
    requires
        !excluded.contains(path),
    ensures
        report(files, excluded.insert(path).remove(path)) == report(files, excluded),
{
    assert(excluded.insert(path).remove(path) =~= excluded);
}

/// The name of the language under which a file is counted.
fn language_of(language: &Option<String>) -> (name: String)
    ensures
        name@ == language_name(*language),
{
    match language {
        Some(name) => name.clone(),
        None => fallback_language().to_owned(),
    }
}

/// Counts the final contributions for a file: its language, and the line
/// statistics of each author to whom its blame credits a line.
///
/// Strict: where the blame is not known its failure is returned, and else,
/// where the content could not be read, that failure with the path.
pub fn final_contributions_file(file: FileSnapshot) -> (outcome: Result<
    (String, StringMap<Stats>),
    Error,
>)
    ensures
        match outcome {
            Ok((language, credits)) => {
                &&& attributable(file)
                &&& language@ == language_name(file.language)
                &&& tallies(credits@) == file_credits(file)
                &&& creditable(tallies(credits@))
            },
            Err(Error::GitError(e)) => file.blame == Err::<Blame, GitFailure>(e),
            Err(Error::IOError(e, path)) => file.blame is Ok && file.annotations == Err::<
                HashMap<usize, LineKind>,
                (IoFailure, PathBuf),
            >((e, path)),
            Err(_) => false,
        },
{
    let language = language_of(&file.language);
    match file.blame {
        Err(e) => Err(Error::GitError(e)),
        Ok(blame) => match file.annotations {
            Err((e, path)) => Err(Error::IOError(e, path)),
            Ok(annotations) => {
                let credits = attribute(&blame, &annotations);
                Ok((language, credits))
            },
        },
    }
}

/// Count the final contributions of a whole tree: the statistics of every
/// counted file that can be attributed, merged.
///
/// Best-effort: a file that is excluded, that could not be blamed or whose
/// content could not be read contributes nothing, and never makes the query
/// fail.
pub fn final_contributions(files: &Vec<FileSnapshot>, excluded: &StringHashSet) -> (stats:
    ProjectStats)
    requires
        report_lines(files@, excluded@) <= usize::MAX,
    ensures
        stats@ == report(files@, excluded@),
        total(stats@).lines == report_lines(files@, excluded@),
        balanced(stats@),
        finite(stats@),
{
    let mut stats = ProjectStats::new();
    let n = files.len();
    let mut i: usize = 0;
    proof {
        lemma_report(files@.take(0), excluded@);
    }
    while i < n
        invariant
            i <= n,
            n == files@.len(),
            report_lines(files@, excluded@) <= usize::MAX,
            stats@ == report(files@.take(i as int), excluded@),
        decreases n - i,
    {
        let file = &files[i];
        let ghost before = files@.take(i as int);
        let ghost after = files@.take(i + 1);
        proof {
            assert(after.drop_last() =~= before);
            assert(after.last() == files@[i as int]);
            lemma_report(before, excluded@);
            lemma_report(after, excluded@);
            lemma_report_lines_prefix(files@, excluded@, i + 1);
            lemma_file_ledger(*file);
            lemma_merge_empty(stats@);
        }
        if !excluded.contains(file.path.as_str()) {
            match &file.blame {
                Ok(blame) => match &file.annotations {
                    Ok(annotations) => {
                        let language = language_of(&file.language);
                        let credits = attribute(blame, annotations);
                        let file_stats = ProjectStats::from((language.as_str(), credits));
                        proof {
                            lemma_attribution_total(blame@, annotations@);
                        }
                        stats.add_assign(file_stats);
                    },
                    Err(_) => {
                        proof {
                            assert(file_ledger(*file) =~= Map::<Seq<char>, Languages>::empty());
                        }
                    },
                },
                Err(_) => {
                    proof {
                        assert(file_ledger(*file) =~= Map::<Seq<char>, Languages>::empty());
                    }
                },
            }
        }
        i += 1;
    }
    proof {
        assert(files@.take(n as int) =~= files@);
        lemma_report(files@, excluded@);
    }
    stats
}

/// The number of lines that the blames of the counted files cover: a bound
/// on what a report can hold that is known before any line is classified.
pub open spec fn report_span(files: Seq<FileSnapshot>, excluded: Set<Seq<char>>) -> nat
    decreases files.len(),
{
    if files.len() == 0 {
        0
    } else {
        report_span(files.drop_last(), excluded) + share_span(files.last(), excluded)
    }
}

/// The counted files credit no more lines than their blames cover.
pub proof fn lemma_report_lines_within_span(files: Seq<FileSnapshot>, excluded: Set<Seq<char>>)
    ensures
        report_lines(files, excluded) <= report_span(files, excluded),
    decreases files.len(),
{
    if files.len() > 0 {
        lemma_report_lines_within_span(files.drop_last(), excluded);
        if attributable(files.last()) {
            lemma_credited_lines_within_span(
                files.last().blame->Ok_0@,
                files.last().annotations->Ok_0@,
            );
        }
    }
}

/// Whether the lines that the blames of the counted files cover can be
/// counted in a `usize`: where they can, so can the report.
pub fn countable(files: &Vec<FileSnapshot>, excluded: &StringHashSet) -> (fits: bool)
    ensures
        fits == (report_span(files@, excluded@) <= usize::MAX),
        fits ==> report_lines(files@, excluded@) <= usize::MAX,
{
    let n = files.len();
    let mut lines: usize = 0;
    let mut i: usize = 0;
    while i < n
        invariant
            i <= n,
            n == files@.len(),
            lines == report_span(files@.take(i as int), excluded@),
        decreases n - i,
    {
        let file = &files[i];
        proof {
            assert(files@.take(i + 1).drop_last() =~= files@.take(i as int));
            assert(files@.take(i + 1).last() == files@[i as int]);
        }
        if !excluded.contains(file.path.as_str()) {
            match &file.blame {
                Ok(blame) => match &file.annotations {
                    Ok(_) => {
                        match lines.checked_add(blame.lines()) {
                            Some(sum) => {
                                lines = sum;
                            },
                            None => {
                                proof {
                                    lemma_report_span_prefix(files@, excluded@, i + 1);
                                }
                                return false;
                            },
                        }
                    },
                    Err(_) => {},
                },
                Err(_) => {},
            }
        }
        i += 1;
    }
    proof {
        assert(files@.take(n as int) =~= files@);
        lemma_report_lines_within_span(files@, excluded@);
    }
    true
}

/// The blames of the first files cover no more lines than those of all.
pub proof fn lemma_report_span_prefix(files: Seq<FileSnapshot>, excluded: Set<Seq<char>>, n: int)
    requires
        0 <= n <= files.len(),
    ensures
        report_span(files.take(n), excluded) <= report_span(files, excluded),
    decreases files.len() - n,
{
    if n < files.len() {
        lemma_report_span_prefix(files, excluded, n + 1);
        assert(files.take(n + 1).drop_last() =~= files.take(n));
    } else {
        assert(files.take(n) =~= files);
    }
}

/// What the counted files add to the lines that their blames cover.
pub open spec fn share_span(file: FileSnapshot, excluded: Set<Seq<char>>) -> nat {
    if counted(file, excluded) && attributable(file) {
        span(file.blame->Ok_0@)
    } else {
        0
    }
}

/// What a query over the files reports where nothing is asked of the caller:
/// the report, where the lines that the blames of the counted files cover can
/// be counted in a `usize`, and nothing where they cannot.
pub open spec fn reported(files: Seq<FileSnapshot>, excluded: Set<Seq<char>>) -> Option<Ledger> {
    if report_span(files, excluded) <= usize::MAX {
        Some(report(files, excluded))
    } else {
        None
    }
}

/// Any file can be measured last.
proof fn lemma_report_span_remove(files: Seq<FileSnapshot>, excluded: Set<Seq<char>>, i: int)
    requires
        0 <= i < files.len(),
    ensures
        report_span(files, excluded) == report_span(files.remove(i), excluded) + share_span(
            files[i],
            excluded,
        ),
    decreases files.len(),
{
    if i == files.len() - 1 {
        assert(files.remove(i) =~= files.drop_last());
    } else {
        let front = files.drop_last();
        lemma_report_span_remove(front, excluded, i);
        assert(files.remove(i).drop_last() =~= front.remove(i));
        assert(files.remove(i).last() == files.last());
    }
}

/// The lines that the blames of the counted files cover do not depend on the
/// order in which the files are taken.
pub proof fn lemma_report_span_any_order(
    one: Seq<FileSnapshot>,
    other: Seq<FileSnapshot>,
    excluded: Set<Seq<char>>,
)
    requires
        one.to_multiset() == other.to_multiset(),
    ensures
        report_span(one, excluded) == report_span(other, excluded),
    decreases one.len(),
{
    to_multiset_len(one);
    to_multiset_len(other);
    if one.len() > 0 {
        let last = one.last();
        one.to_multiset_ensures();
        other.to_multiset_ensures();
        assert(one.contains(last)) by {
            assert(one[one.len() - 1] == last);
        }
        assert(one.to_multiset().count(last) > 0);
        assert(other.to_multiset().count(last) > 0);
        assert(other.contains(last));
        let j = choose|j: int| 0 <= j < other.len() && other[j] == last;
        to_multiset_remove(one, one.len() - 1);
        to_multiset_remove(other, j);
        assert(one.remove(one.len() - 1) =~= one.drop_last());
        lemma_report_span_any_order(one.drop_last(), other.remove(j), excluded);
        lemma_report_span_remove(other, excluded, j);
    }
}

/// Excluding a path takes the files at that path out of the lines that the
/// blames cover, and no others.
pub proof fn lemma_report_span_excluding(
    files: Seq<FileSnapshot>,
    excluded: Set<Seq<char>>,
    path: Seq<char>,
)
    ensures
        report_span(files, excluded.insert(path)) == report_span(
            files.filter(elsewhere(path)),
            excluded,
        ),
        report_span(files, excluded.insert(path)) <= report_span(files, excluded),
    decreases files.len(),
{
    reveal(Seq::filter);
    if files.len() > 0 {
        let front = files.drop_last();
        lemma_report_span_excluding(front, excluded, path);
        if files.last().path@ != path {
            let kept = front.filter(elsewhere(path)).push(files.last());
            assert(kept.drop_last() =~= front.filter(elsewhere(path)));
            assert(kept.last() == files.last());
        }
    }
}

/// Order does not matter to a query: the same files in any order, split
/// among any workers, are reported the same, or not at all in either order.
pub proof fn lemma_reported_any_order(
    one: Seq<FileSnapshot>,
    other: Seq<FileSnapshot>,
    excluded: Set<Seq<char>>,
)
    requires
        one.to_multiset() == other.to_multiset(),
    ensures
        reported(one, excluded) == reported(other, excluded),
{
    lemma_report_span_any_order(one, other, excluded);
    lemma_report_any_order(one, other, excluded);
}

/// What is reported is sound: every tally counts each line under exactly one
/// kind, and the lines of the report are the lines that the counted files
/// credit, none lost and none counted twice.
pub proof fn lemma_reported_sound(files: Seq<FileSnapshot>, excluded: Set<Seq<char>>)
    ensures
        reported(files, excluded) matches Some(ledger) ==> {
            &&& finite(ledger)
            &&& balanced(ledger)
            &&& total(ledger).lines == report_lines(files, excluded)
            &&& total(ledger).lines <= usize::MAX
        },
{
    lemma_report(files, excluded);
    lemma_report_lines_within_span(files, excluded);
}

/// With a path excluded, what is reported is what the files that lie
/// elsewhere are reported as: no line of a file at the path is counted for
/// anyone. And what could be reported before the exclusion can be reported
/// after it.
pub proof fn lemma_reported_excluding(
    files: Seq<FileSnapshot>,
    excluded: Set<Seq<char>>,
    path: Seq<char>,
)
    ensures
        reported(files, excluded.insert(path)) == reported(files.filter(elsewhere(path)), excluded),
        reported(files, excluded) is Some ==> reported(files, excluded.insert(path)) is Some,
{
    lemma_report_span_excluding(files, excluded, path);
    lemma_report_excluding(files, excluded, path);
}

/// With a path excluded and then included again, what is reported is what
/// was reported before the exclusion.
pub proof fn lemma_reported_including_again(
    files: Seq<FileSnapshot>,
    excluded: Set<Seq<char>>,
    path: Seq<char>,
)
    requires
        !excluded.contains(path),
    ensures
        reported(files, excluded.insert(path).remove(path)) == reported(files, excluded),
{
    assert(excluded.insert(path).remove(path) =~= excluded);
}

/// A file that cannot be attributed, because it could not be blamed or its
/// content could not be read, changes nothing: the files around it are
/// reported as if it were not there, and it never keeps them from being
/// reported.
pub proof fn lemma_reported_despite_failure(
    files: Seq<FileSnapshot>,
    excluded: Set<Seq<char>>,
    i: int,
)
    requires
        0 <= i < files.len(),
        !attributable(files[i]),
    ensures
        reported(files, excluded) == reported(files.remove(i), excluded),
{
    lemma_report_span_remove(files, excluded, i);
    lemma_report_remove(files, excluded, i);
    assert(share(files[i], excluded) =~= Map::<Seq<char>, Languages>::empty());
    lemma_merge_empty(report(files.remove(i), excluded));
}

} // verus!
