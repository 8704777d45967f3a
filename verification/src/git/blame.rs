//! The blame of one file: which contributor last touched which lines.

use crate::text::{decode, decoded};
use std::ops::Range;
use std::string::FromUtf8Error;
use vstd::prelude::*;
use vstd::std_specs::iter::IteratorSpec;

verus! {

/// The mathematical value of a [`BlameHunk`]: the lines
/// `start .. start + len`, and the name of who last touched them where that
/// name is text.
pub struct Hunk {
    pub start: nat,
    pub len: nat,
    pub author: Option<Seq<char>>,
}

impl Hunk {
    /// Whether the hunk covers `line`.
    pub open spec fn covers(self, line: nat) -> bool {
        self.start <= line < self.start + self.len
    }
}

/// The number of lines that the hunks cover, a line counted once for each
/// hunk that covers it.
pub open spec fn span(hunks: Seq<Hunk>) -> nat
    decreases hunks.len(),
{
    if hunks.len() == 0 {
        0
    } else {
        span(hunks.drop_last()) + hunks.last().len
    }
}

/// Every hunk ends at a line number that a `usize` can hold.
pub open spec fn all_bounded(hunks: Seq<Hunk>) -> bool {
    forall|i: int| 0 <= i < hunks.len() ==> (#[trigger] hunks[i]).start + hunks[i].len <= usize::MAX
}

/// The views of the given hunks, in order.
pub open spec fn views(hunks: Seq<BlameHunk>) -> Seq<Hunk> {
    Seq::new(hunks.len(), |i: int| hunks[i]@)
}

/// A contiguous range of lines of a file's current revision, with the author
/// of the commit that last changed them.
#[derive(Debug)]
pub struct BlameHunk {
    final_start_line: usize,
    lines_in_hunk: usize,
    /// The author's name, or why the stored bytes are no text.
    pub author: Result<String, FromUtf8Error>,
}

impl View for BlameHunk {
    type V = Hunk;

    closed spec fn view(&self) -> Hunk {
        Hunk {
            start: self.final_start_line as nat,
            len: self.lines_in_hunk as nat,
            author: match self.author {
                Ok(name) => Some(name@),
                Err(_) => None,
            },
        }
    }
}

impl BlameHunk {
    /// The end of the hunk's range is a line number that a `usize` can hold.
    pub open spec fn bounded(&self) -> bool {
        self@.start + self@.len <= usize::MAX
    }

    /// The hunk of `lines_in_hunk` lines from `final_start_line` on, last
    /// touched by the author whose name is stored as `name`.
    pub fn new(final_start_line: usize, lines_in_hunk: usize, name: Vec<u8>) -> (hunk: Self)
        ensures
            hunk@ == (Hunk {
                start: final_start_line as nat,
                len: lines_in_hunk as nat,
                author: decoded(name@),
            }),
    {
        BlameHunk { final_start_line, lines_in_hunk, author: decode(name) }
    }

    /// The lines of the hunk, from its first to one past its last.
    pub fn final_range(&self) -> (range: Range<usize>)
        requires
            self.bounded(),
        ensures
            range.start == self@.start,
            range.end == self@.start + self@.len,
    {
        Range { start: self.final_start_line, end: self.final_start_line + self.lines_in_hunk }
    }

    /// The author's name where it is text.
    pub fn author_name(&self) -> (name: Option<&String>)
        ensures
            match name {
                Some(text) => self@.author == Some(text@),
                None => self@.author is None,
            },
    {
        match &self.author {
            Ok(text) => Some(text),
            Err(_) => None,
        }
    }
}

/// The blame of one file: its hunks, in the order in which they were reported.
///
/// A blame is of a file that exists: every hunk ends at a line number that a
/// `usize` can hold, and so does the count of the lines of all hunks.
#[derive(Debug)]
pub struct Blame {
    blame_hunks: Vec<BlameHunk>,
}

impl View for Blame {
    type V = Seq<Hunk>;

    closed spec fn view(&self) -> Seq<Hunk> {
        views(self.blame_hunks@)
    }
}

impl Blame {
    #[verifier::type_invariant]
    spec fn fits(&self) -> bool {
        all_bounded(views(self.blame_hunks@)) && span(views(self.blame_hunks@)) <= usize::MAX
    }

    /// The blame made of the given hunks; none where a hunk ends beyond the
    /// line numbers that a `usize` can hold, or where the hunks cover more
    /// lines than a `usize` can count.
    pub fn new(hunks: Vec<BlameHunk>) -> (blame: Option<Self>)
        ensures
            match blame {
                Some(blame) => blame@ == views(hunks@),
                None => !(all_bounded(views(hunks@)) && span(views(hunks@)) <= usize::MAX),
            },
    {
        let n = hunks.len();
        let mut lines: usize = 0;
        let mut i: usize = 0;
        while i < n
            invariant
                i <= n,
                n == hunks@.len(),
                all_bounded(views(hunks@).take(i as int)),
                lines == span(views(hunks@).take(i as int)),
            decreases n - i,
        {
            let ghost done = views(hunks@).take(i as int);
            let ghost next = views(hunks@).take(i + 1);
            proof {
                assert(next.drop_last() =~= done);
                assert(next.last() == hunks@[i as int]@);
            }
            let hunk = &hunks[i];
            if hunk.final_start_line.checked_add(hunk.lines_in_hunk).is_none() {
                proof {
                    assert(views(hunks@)[i as int] == hunk@);
                }
                return None;
            }
            match lines.checked_add(hunk.lines_in_hunk) {
                Some(sum) => {
                    lines = sum;
                },
                None => {
                    proof {
                        lemma_span_prefix(views(hunks@), i + 1);
                    }
                    return None;
                },
            }
            proof {
                assert forall|j: int| 0 <= j < next.len() implies (#[trigger] next[j]).start
                    + next[j].len <= usize::MAX by {
                    if j < i {
                        assert(done[j] == next[j]);
                    }
                }
            }
            i += 1;
        }
        proof {
            assert(views(hunks@).take(n as int) =~= views(hunks@));
        }
        Some(Blame { blame_hunks: hunks })
    }

    /// The number of hunks.
    pub fn len(&self) -> (n: usize)
        ensures
            n == self@.len(),
            all_bounded(self@),
            span(self@) <= usize::MAX,
    {
        proof {
            use_type_invariant(self);
        }
        self.blame_hunks.len()
    }

    /// The number of lines that the hunks cover, a line counted once for each
    /// hunk that covers it.
    pub fn lines(&self) -> (lines: usize)
        ensures
            lines == span(self@),
    {
        proof {
            use_type_invariant(self);
        }
        let n = self.blame_hunks.len();
        let ghost hunks = views(self.blame_hunks@);
        let mut lines: usize = 0;
        let mut i: usize = 0;
        while i < n
            invariant
                i <= n,
                n == self.blame_hunks@.len(),
                hunks == views(self.blame_hunks@),
                span(hunks) <= usize::MAX,
                lines == span(hunks.take(i as int)),
            decreases n - i,
        {
            proof {
                assert(hunks.take(i + 1).drop_last() =~= hunks.take(i as int));
                assert(hunks.take(i + 1).last() == self.blame_hunks@[i as int]@);
                lemma_span_prefix(hunks, i + 1);
            }
            lines += self.blame_hunks[i].lines_in_hunk;
            i += 1;
        }
        proof {
            assert(hunks.take(n as int) =~= hunks);
        }
        lines
    }

    /// The hunk at place `i`.
    pub fn hunk(&self, i: usize) -> (hunk: &BlameHunk)
        requires
            i < self@.len(),
        ensures
            hunk@ == self@[i as int],
            hunk.bounded(),
    {
        proof {
            use_type_invariant(self);
            assert(views(self.blame_hunks@)[i as int] == self.blame_hunks@[i as int]@);
        }
        &self.blame_hunks[i]
    }

    /// Walks the hunks in order.
    pub fn iter(&self) -> (hunks: std::slice::Iter<'_, BlameHunk>)
        ensures
            hunks.remaining().len() == self@.len(),
            forall|i: int| 0 <= i < self@.len() ==> (#[trigger] hunks.remaining()[i])@ == self@[i],
    {
        self.blame_hunks.iter()
    }
}

/// The first hunks cover no more lines than all of them.
pub proof fn lemma_span_prefix(hunks: Seq<Hunk>, n: int)
    requires
        0 <= n <= hunks.len(),
    ensures
        span(hunks.take(n)) <= span(hunks),
    decreases hunks.len() - n,
{
    if n < hunks.len() {
        lemma_span_prefix(hunks, n + 1);
        assert(hunks.take(n + 1).drop_last() =~= hunks.take(n));
    } else {
        assert(hunks.take(n) =~= hunks);
    }
}

} // verus!
