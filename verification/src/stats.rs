//! Line statistics: how many lines a contributor owns, split into code,
//! comments and blanks.

use std::ops::{Add, AddAssign};
use vstd::prelude::*;
use vstd::std_specs::ops::AddSpecImpl;

verus! {

/// What a source classifier says of one line.
#[derive(Debug, PartialEq, Eq, Clone, Copy, Structural)]
pub enum LineKind {
    /// The line holds code.
    Code,
    /// The line holds only a comment.
    Comment,
    /// The line is empty or holds only white space.
    Blank,
}

impl LineKind {
    /// The kind of a line, told from what the counts of a text gain when the
    /// line is added to it: the kind whose count gains one while the others
    /// gain nothing, and none where the gain is anything else.
    pub fn of_gain(code: usize, comments: usize, blanks: usize) -> (kind: Option<LineKind>)
        ensures
            kind == if code == 1 && comments == 0 && blanks == 0 {
                Some(LineKind::Code)
            } else if code == 0 && comments == 1 && blanks == 0 {
                Some(LineKind::Comment)
            } else if code == 0 && comments == 0 && blanks == 1 {
                Some(LineKind::Blank)
            } else {
                None
            },
    {
        if code == 1 && comments == 0 && blanks == 0 {
            Some(LineKind::Code)
        } else if code == 0 && comments == 1 && blanks == 0 {
            Some(LineKind::Comment)
        } else if code == 0 && comments == 0 && blanks == 1 {
            Some(LineKind::Blank)
        } else {
            None
        }
    }
}

/// The mathematical value of a [`Stats`]: four unbounded counters.
///
/// Tallies form a commutative monoid under [`Tally::plus`] with
/// [`Tally::zero`] as identity; see [`lemma_plus_commutative`],
/// [`lemma_plus_associative`] and [`lemma_plus_zero`].
pub struct Tally {
    pub lines: nat,
    pub blanks: nat,
    pub comments: nat,
    pub code: nat,
}

impl Tally {
    /// The tally of nothing.
    pub open spec fn zero() -> Tally {
        Tally { lines: 0, blanks: 0, comments: 0, code: 0 }
    }

    /// The tally of one line of the given kind.
    pub open spec fn one(kind: LineKind) -> Tally {
        match kind {
            LineKind::Code => Tally { lines: 1, blanks: 0, comments: 0, code: 1 },
            LineKind::Comment => Tally { lines: 1, blanks: 0, comments: 1, code: 0 },
            LineKind::Blank => Tally { lines: 1, blanks: 1, comments: 0, code: 0 },
        }
    }

    /// Component-wise sum.
    pub open spec fn plus(self, other: Tally) -> Tally {
        Tally {
            lines: self.lines + other.lines,
            blanks: self.blanks + other.blanks,
            comments: self.comments + other.comments,
            code: self.code + other.code,
        }
    }

    /// Every line is counted under exactly one kind.
    pub open spec fn balanced(self) -> bool {
        self.lines == self.code + self.comments + self.blanks
    }

    /// Every counter fits a `usize`.
    pub open spec fn fits(self) -> bool {
        &&& self.lines <= usize::MAX
        &&& self.blanks <= usize::MAX
        &&& self.comments <= usize::MAX
        &&& self.code <= usize::MAX
    }
}

/// Statistics for a file or collection of files.
#[derive(Debug, PartialEq, Eq, Clone, Copy)]
pub struct Stats {
    /// The number of total lines
    pub lines: usize,
    /// The number of blank lines
    pub blanks: usize,
    /// The number of comment lines
    pub comments: usize,
    /// The number of lines of code
    pub code: usize,
}

impl View for Stats {
    type V = Tally;

    open spec fn view(&self) -> Tally {
        Tally {
            lines: self.lines as nat,
            blanks: self.blanks as nat,
            comments: self.comments as nat,
            code: self.code as nat,
        }
    }
}

impl Default for Stats {
    /// The zero value, the identity of addition.
    fn default() -> (zero: Stats)
        ensures
            zero@ == Tally::zero(),
    {
        Stats { lines: 0, blanks: 0, comments: 0, code: 0 }
    }
}

impl AddSpecImpl for Stats {
    open spec fn obeys_add_spec() -> bool {
        true
    }

    open spec fn add_req(self, rhs: Stats) -> bool {
        self@.plus(rhs@).fits()
    }

    open spec fn add_spec(self, rhs: Stats) -> Stats {
        Stats {
            lines: (self.lines + rhs.lines) as usize,
            blanks: (self.blanks + rhs.blanks) as usize,
            comments: (self.comments + rhs.comments) as usize,
            code: (self.code + rhs.code) as usize,
        }
    }
}

impl Add for Stats {
    type Output = Stats;

    /// Component-wise sum. The caller sees to it that no counter overflows.
    fn add(self, other: Stats) -> (sum: Stats)
        ensures
            sum@ == self@.plus(other@),
    {
        Stats {
            lines: self.lines + other.lines,
            blanks: self.blanks + other.blanks,
            comments: self.comments + other.comments,
            code: self.code + other.code,
        }
    }
}

impl AddAssign for Stats {
    /// Adds `other` to `self`, counter by counter.
    fn add_assign(&mut self, other: Stats)
        requires
            old(self)@.plus(other@).fits(),
        ensures
            final(self)@ == old(self)@.plus(other@),
    {
        self.lines += other.lines;
        self.code += other.code;
        self.comments += other.comments;
        self.blanks += other.blanks;
    }
}

impl AddAssign<LineKind> for Stats {
    /// Counts one more line of the given kind.
    fn add_assign(&mut self, kind: LineKind)
        requires
            old(self)@.plus(Tally::one(kind)).fits(),
        ensures
            final(self)@ == old(self)@.plus(Tally::one(kind)),
    {
        match kind {
            LineKind::Blank => self.blanks += 1,
            LineKind::Code => self.code += 1,
            LineKind::Comment => self.comments += 1,
        }
        self.lines += 1;
    }
}

/// Addition of tallies is commutative.
pub proof fn lemma_plus_commutative(a: Tally, b: Tally)
    ensures
        a.plus(b) == b.plus(a),
{
}

/// Addition of tallies is associative.
pub proof fn lemma_plus_associative(a: Tally, b: Tally, c: Tally)
    ensures
        a.plus(b).plus(c) == a.plus(b.plus(c)),
{
}

/// The zero tally is the identity of addition, on either side.
pub proof fn lemma_plus_zero(a: Tally)
    ensures
        a.plus(Tally::zero()) == a,
        Tally::zero().plus(a) == a,
{
}

/// Zero is balanced, one line of any kind is balanced, and the sum of two
/// balanced tallies is balanced: no addition can break
/// `lines == code + comments + blanks`.
pub proof fn lemma_balance_preserved(a: Tally, b: Tally, kind: LineKind)
    ensures
        Tally::zero().balanced(),
        Tally::one(kind).balanced(),
        a.balanced() && b.balanced() ==> a.plus(b).balanced(),
{
}

} // verus!
