//! Per-file attribution: the blame of a file and the classification of its
//! lines, combined into line statistics for each author.
//!
//! A line is credited where both are known: the hunk that covers it names an
//! author as text, and the classifier has annotated the line. A hunk whose
//! author's name is no text is dropped whole; a line without an annotation is
//! skipped. Neither is an error.

use crate::git::blame::{span, Blame, Hunk};
use crate::stats::{LineKind, Stats, Tally};
use crate::string_map::StringMap;
use crate::totals::{lemma_sum_empty, lemma_sum_grow, map_sum, whole};
use std::collections::HashMap;
use std::ops::AddAssign;
use vstd::prelude::*;

verus! {

broadcast use vstd::std_specs::hash::group_hash_axioms;

/// What line `line` counts for: one line of its kind where the classifier
/// has annotated it, nothing where it has not.
pub open spec fn line_tally(annotations: Map<usize, LineKind>, line: nat) -> Tally {
    if line <= usize::MAX && annotations.contains_key(line as usize) {
        Tally::one(annotations[line as usize])
    } else {
        Tally::zero()
    }
}

/// What the `len` lines from `start` on count for.
pub open spec fn range_tally(annotations: Map<usize, LineKind>, start: nat, len: nat) -> Tally
    decreases len,
{
    if len == 0 {
        Tally::zero()
    } else {
        range_tally(annotations, start, (len - 1) as nat).plus(
            line_tally(annotations, (start + len - 1) as nat),
        )
    }
}

/// What one hunk earns `author`: the tally of its lines if the hunk is
/// theirs, nothing otherwise.
pub open spec fn hunk_credit(hunk: Hunk, annotations: Map<usize, LineKind>, author: Seq<char>) -> Tally {
    if hunk.author == Some(author) {
        range_tally(annotations, hunk.start, hunk.len)
    } else {
        Tally::zero()
    }
}

/// What a blame earns `author`: the sum over its hunks.
pub open spec fn credit(hunks: Seq<Hunk>, annotations: Map<usize, LineKind>, author: Seq<char>) -> Tally
    decreases hunks.len(),
{
    if hunks.len() == 0 {
        Tally::zero()
    } else {
        credit(hunks.drop_last(), annotations, author).plus(
            hunk_credit(hunks.last(), annotations, author),
        )
    }
}

/// The number of lines that a blame credits to anyone: over the hunks whose
/// author is named as text, the annotated lines of each.
pub open spec fn credited_lines(hunks: Seq<Hunk>, annotations: Map<usize, LineKind>) -> nat
    decreases hunks.len(),
{
    if hunks.len() == 0 {
        0
    } else {
        credited_lines(hunks.drop_last(), annotations) + if hunks.last().author is Some {
            range_tally(annotations, hunks.last().start, hunks.last().len).lines
        } else {
            0
        }
    }
}

/// The attribution of a file: every author with at least one credited line,
/// with what the blame earns them.
pub open spec fn attribution(hunks: Seq<Hunk>, annotations: Map<usize, LineKind>) -> Map<
    Seq<char>,
    Tally,
> {
    Map::new(
        |author: Seq<char>| credit(hunks, annotations, author).lines > 0,
        |author: Seq<char>| credit(hunks, annotations, author),
    )
}

/// The tallies of a map of statistics.
pub open spec fn tallies(stats: Map<Seq<char>, Stats>) -> Map<Seq<char>, Tally> {
    stats.map_values(|s: Stats| s@)
}

/// What is credited can be taken into project-wide statistics: finitely many
/// authors are named, every tally counts each line under exactly one kind,
/// and all the lines together fit a `usize`.
pub open spec fn creditable(credits: Map<Seq<char>, Tally>) -> bool {
    &&& credits.dom().finite()
    &&& forall|author: Seq<char>|
        credits.contains_key(author) ==> (#[trigger] credits[author]).balanced()
    &&& map_sum(credits, whole()).lines <= usize::MAX
}

/// A range of lines counts each line at most once, each under one kind.
pub proof fn lemma_range_tally(annotations: Map<usize, LineKind>, start: nat, len: nat)
    ensures
        range_tally(annotations, start, len).balanced(),
        range_tally(annotations, start, len).lines <= len,
    decreases len,
{
    if len > 0 {
        lemma_range_tally(annotations, start, (len - 1) as nat);
    }
}

/// The annotated lines among the `len` lines from `start` on.
pub open spec fn annotated_lines(annotations: Map<usize, LineKind>, start: nat, len: nat) -> Set<nat> {
    Set::new(
        |line: nat|
            start <= line < start + len && line <= usize::MAX && annotations.contains_key(
                line as usize,
            ),
    )
}

/// A range of lines counts every annotated line of the range, once: it
/// counts as many lines as the range has annotated lines.
pub proof fn lemma_range_counts_once(annotations: Map<usize, LineKind>, start: nat, len: nat)
    ensures
        annotated_lines(annotations, start, len).finite(),
        range_tally(annotations, start, len).lines == annotated_lines(annotations, start, len).len(),
    decreases len,
{
    let now = annotated_lines(annotations, start, len);
    if len == 0 {
        assert(now =~= Set::<nat>::empty());
    } else {
        let before = annotated_lines(annotations, start, (len - 1) as nat);
        let last = (start + len - 1) as nat;
        lemma_range_counts_once(annotations, start, (len - 1) as nat);
        if last <= usize::MAX && annotations.contains_key(last as usize) {
            assert(now =~= before.insert(last));
            assert(!before.contains(last));
        } else {
            assert(now =~= before);
        }
    }
}

/// The lines that a blame credits to anyone: the annotated lines of the hunks
/// whose author is named as text.
pub open spec fn credited(hunks: Seq<Hunk>, annotations: Map<usize, LineKind>) -> Set<nat>
    decreases hunks.len(),
{
    if hunks.len() == 0 {
        Set::empty()
    } else {
        credited(hunks.drop_last(), annotations).union(
            if hunks.last().author is Some {
                annotated_lines(annotations, hunks.last().start, hunks.last().len)
            } else {
                Set::empty()
            },
        )
    }
}

/// No line is covered by two hunks.
pub open spec fn disjoint(hunks: Seq<Hunk>) -> bool {
    forall|i: int, j: int, line: nat|
        0 <= i < j < hunks.len() ==> !(#[trigger] hunks[i].covers(line) && #[trigger] hunks[j].covers(
            line,
        ))
}

/// A credited line is covered by one of the hunks.
proof fn lemma_credited_is_covered(hunks: Seq<Hunk>, annotations: Map<usize, LineKind>, line: nat)
    requires
        credited(hunks, annotations).contains(line),
    ensures
        exists|i: int| 0 <= i < hunks.len() && (#[trigger] hunks[i]).covers(line),
    decreases hunks.len(),
{
    if hunks.len() > 0 {
        if credited(hunks.drop_last(), annotations).contains(line) {
            lemma_credited_is_covered(hunks.drop_last(), annotations, line);
            let i = choose|i: int|
                0 <= i < hunks.drop_last().len() && (#[trigger] hunks.drop_last()[i]).covers(line);
            assert(hunks[i].covers(line));
        } else {
            assert(hunks[hunks.len() - 1].covers(line));
        }
    }
}

/// Where no line is covered by two hunks, a blame counts every credited line
/// once: it credits as many lines as there are credited lines.
pub proof fn lemma_credited_once(hunks: Seq<Hunk>, annotations: Map<usize, LineKind>)
    requires
        disjoint(hunks),
    ensures
        credited(hunks, annotations).finite(),
        credited_lines(hunks, annotations) == credited(hunks, annotations).len(),
    decreases hunks.len(),
{
    if hunks.len() > 0 {
        let front = hunks.drop_last();
        let last = hunks.last();
        assert(disjoint(front)) by {
            assert forall|i: int, j: int, line: nat| 0 <= i < j < front.len() implies !(
            #[trigger] front[i].covers(line) && #[trigger] front[j].covers(line)) by {
                assert(!(hunks[i].covers(line) && hunks[j].covers(line)));
            }
        }
        lemma_credited_once(front, annotations);
        lemma_range_counts_once(annotations, last.start, last.len);
        if last.author is Some {
            let before = credited(front, annotations);
            let here = annotated_lines(annotations, last.start, last.len);
            assert(before.disjoint(here)) by {
                assert forall|line: nat| !(before.contains(line) && here.contains(line)) by {
                    if before.contains(line) && here.contains(line) {
                        lemma_credited_is_covered(front, annotations, line);
                        let i = choose|i: int|
                            0 <= i < front.len() && (#[trigger] front[i]).covers(line);
                        assert(hunks[i].covers(line));
                        assert(hunks[hunks.len() - 1].covers(line));
                    }
                }
            }
            vstd::set_lib::lemma_set_disjoint_lens(before, here);
        } else {
            assert(credited(hunks, annotations) =~= credited(front, annotations));
        }
    }
}

/// What a blame earns one author is balanced, and is no more than what it
/// credits in all.
pub proof fn lemma_credit_bounded(hunks: Seq<Hunk>, annotations: Map<usize, LineKind>, author: Seq<char>)
    ensures
        credit(hunks, annotations, author).balanced(),
        credit(hunks, annotations, author).lines <= credited_lines(hunks, annotations),
    decreases hunks.len(),
{
    if hunks.len() > 0 {
        lemma_credit_bounded(hunks.drop_last(), annotations, author);
        lemma_range_tally(annotations, hunks.last().start, hunks.last().len);
    }
}

/// A blame credits no more lines than its hunks cover.
pub proof fn lemma_credited_lines_within_span(hunks: Seq<Hunk>, annotations: Map<usize, LineKind>)
    ensures
        credited_lines(hunks, annotations) <= span(hunks),
    decreases hunks.len(),
{
    if hunks.len() > 0 {
        lemma_credited_lines_within_span(hunks.drop_last(), annotations);
        lemma_range_tally(annotations, hunks.last().start, hunks.last().len);
    }
}

/// A prefix of a blame credits no more lines than the whole.
pub proof fn lemma_credited_lines_prefix(hunks: Seq<Hunk>, annotations: Map<usize, LineKind>, n: int)
    requires
        0 <= n <= hunks.len(),
    ensures
        credited_lines(hunks.take(n), annotations) <= credited_lines(hunks, annotations),
    decreases hunks.len() - n,
{
    if n < hunks.len() {
        lemma_credited_lines_prefix(hunks, annotations, n + 1);
        assert(hunks.take(n + 1).drop_last() =~= hunks.take(n));
    } else {
        assert(hunks.take(n) =~= hunks);
    }
}

/// An attribution names finitely many authors, and what it credits to them
/// adds up to the lines that the blame credits: every credited line is
/// counted for one author, once.
pub proof fn lemma_attribution_total(hunks: Seq<Hunk>, annotations: Map<usize, LineKind>)
    ensures
        attribution(hunks, annotations).dom().finite(),
        map_sum(attribution(hunks, annotations), whole()).lines == credited_lines(
            hunks,
            annotations,
        ),
    decreases hunks.len(),
{
    let now = attribution(hunks, annotations);
    if hunks.len() == 0 {
        assert(now =~= Map::<Seq<char>, Tally>::empty());
        lemma_sum_empty::<Tally>(whole());
    } else {
        let front = hunks.drop_last();
        let before = attribution(front, annotations);
        lemma_attribution_total(front, annotations);
        let last = hunks.last();
        let gain = range_tally(annotations, last.start, last.len);
        lemma_range_tally(annotations, last.start, last.len);
        if last.author is Some && gain.lines > 0 {
            let author = last.author->0;
            lemma_credit_bounded(front, annotations, author);
            lemma_sum_grow(before, whole(), author, credit(hunks, annotations, author), gain);
            assert(now =~= before.insert(author, credit(hunks, annotations, author)));
        } else {
            assert forall|a: Seq<char>|
                credit(hunks, annotations, a) == credit(front, annotations, a) by {
                assert(hunk_credit(last, annotations, a) == Tally::zero());
            }
            assert(now =~= before);
        }
    }
}

/// Every tally of an attribution counts each line under exactly one kind.
pub proof fn lemma_attribution_balanced(hunks: Seq<Hunk>, annotations: Map<usize, LineKind>)
    ensures
        forall|author: Seq<char>|
            attribution(hunks, annotations).contains_key(author) ==> (#[trigger] attribution(
                hunks,
                annotations,
            )[author]).balanced(),
{
    assert forall|author: Seq<char>|
        attribution(hunks, annotations).contains_key(author) implies (#[trigger] attribution(
        hunks,
        annotations,
    )[author]).balanced() by {
        lemma_credit_bounded(hunks, annotations, author);
    }
}

/// Counts the lines `start .. end` by what the classifier says of them.
fn tally_range(annotations: &HashMap<usize, LineKind>, start: usize, end: usize) -> (count: Stats)
    requires
        start <= end,
    ensures
        count@ == range_tally(annotations@, start as nat, (end - start) as nat),
{
    let mut count = Stats::default();
    let mut line: usize = start;
    while line < end
        invariant
            start <= line <= end,
            count@ == range_tally(annotations@, start as nat, (line - start) as nat),
        decreases end - line,
    {
        proof {
            lemma_range_tally(annotations@, start as nat, (line - start) as nat);
        }
        match annotations.get(&line) {
            Some(kind) => {
                count.add_assign(*kind);
            },
            None => {},
        }
        line += 1;
    }
    count
}

/// Combines the blame of a file with the classification of its lines into
/// line statistics for each author.
///
/// The result holds exactly the authors to whom at least one line is
/// credited, each with the sum over the hunks that name them of the annotated
/// lines of the hunk, by kind.
pub fn attribute(blame: &Blame, annotations: &HashMap<usize, LineKind>) -> (credits: StringMap<Stats>)
    ensures
        tallies(credits@) == attribution(blame@, annotations@),
        creditable(tallies(credits@)),
{
    let mut credits: StringMap<Stats> = StringMap::new();
    let n = blame.len();
    let mut i: usize = 0;
    proof {
        assert(tallies(credits@) =~= attribution(blame@.take(0), annotations@));
        lemma_credited_lines_within_span(blame@, annotations@);
        lemma_attribution_total(blame@, annotations@);
        lemma_attribution_balanced(blame@, annotations@);
    }
    while i < n
        invariant
            i <= n,
            n == blame@.len(),
            credited_lines(blame@, annotations@) <= usize::MAX,
            tallies(credits@) == attribution(blame@.take(i as int), annotations@),
        decreases n - i,
    {
        let hunk = blame.hunk(i);
        let ghost before = blame@.take(i as int);
        let ghost after = blame@.take(i + 1);
        proof {
            assert(after.drop_last() =~= before);
            assert(after.last() == blame@[i as int]);
            lemma_credited_lines_prefix(blame@, annotations@, i + 1);
        }
        let ghost prior = credits@;
        match hunk.author_name() {
            Some(name) => {
                let range = hunk.final_range();
                let earned = tally_range(annotations, range.start, range.end);
                proof {
                    lemma_range_tally(annotations@, hunk@.start, hunk@.len);
                    lemma_credit_bounded(after, annotations@, name@);
                    lemma_credit_bounded(before, annotations@, name@);
                    assert(tallies(prior).contains_key(name@) == (credit(
                        before,
                        annotations@,
                        name@,
                    ).lines > 0));
                }
                if earned.lines > 0 {
                    match credits.position(name.as_str()) {
                        Some(at) => {
                            let held = *credits.value_at(at);
                            proof {
                                assert(tallies(prior)[name@] == held@);
                            }
                            let sum = held + earned;
                            credits.replace_at(at, sum);
                        },
                        None => {
                            credits.insert(name.clone(), earned);
                        },
                    }
                }
                proof {
                    let got = tallies(credits@);
                    let want = attribution(after, annotations@);
                    assert forall|a: Seq<char>| #[trigger]
                        got.dom().contains(a) == want.dom().contains(a) && (got.dom().contains(a)
                            ==> got[a] == want[a]) by {
                        lemma_credit_bounded(before, annotations@, a);
                        assert(tallies(prior).dom().contains(a) == (credit(
                            before,
                            annotations@,
                            a,
                        ).lines > 0));
                        if tallies(prior).dom().contains(a) {
                            assert(tallies(prior)[a] == credit(before, annotations@, a));
                        }
                    }
                    assert(got =~= want);
                }
            },
            None => {
                proof {
                    assert forall|a: Seq<char>|
                        credit(after, annotations@, a) == credit(before, annotations@, a) by {
                        assert(hunk_credit(after.last(), annotations@, a) == Tally::zero());
                    }
                    assert(tallies(credits@) =~= attribution(after, annotations@));
                }
            },
        }
        i += 1;
    }
    proof {
        assert(blame@.take(n as int) =~= blame@);
    }
    credits
}

} // verus!
