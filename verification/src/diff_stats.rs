//! Insertion and deletion statistics for commit diffs.

use std::ops::AddAssign;
use vstd::prelude::*;

verus! {

/// The mathematical value of a [`DiffStats`]: two unbounded counters.
pub struct Churn {
    pub insertions: nat,
    pub deletions: nat,
}

impl Churn {
    /// No line inserted, none deleted.
    pub open spec fn zero() -> Churn {
        Churn { insertions: 0, deletions: 0 }
    }

    /// Component-wise sum.
    pub open spec fn plus(self, other: Churn) -> Churn {
        Churn {
            insertions: self.insertions + other.insertions,
            deletions: self.deletions + other.deletions,
        }
    }

    /// Both counters fit a `usize`.
    pub open spec fn fits(self) -> bool {
        self.insertions <= usize::MAX && self.deletions <= usize::MAX
    }
}

/// Insertion and Deletion statistics for Commit diffs
#[derive(Debug, PartialEq, Eq, Clone, Copy)]
pub struct DiffStats {
    /// Lines of code inserted
    pub insertions: usize,
    /// Lines of code deleted
    pub deletions: usize,
}

impl View for DiffStats {
    type V = Churn;

    open spec fn view(&self) -> Churn {
        Churn { insertions: self.insertions as nat, deletions: self.deletions as nat }
    }
}

impl Default for DiffStats {
    /// The zero value, the identity of addition.
    fn default() -> (zero: DiffStats)
        ensures
            zero@ == Churn::zero(),
    {
        DiffStats { insertions: 0, deletions: 0 }
    }
}

impl AddAssign for DiffStats {
    /// Adds the counts of one more diff.
    fn add_assign(&mut self, other: DiffStats)
        requires
            old(self)@.plus(other@).fits(),
        ensures
            final(self)@ == old(self)@.plus(other@),
    {
        self.insertions += other.insertions;
        self.deletions += other.deletions;
    }
}

/// Addition of churn is commutative and associative, and zero is its
/// identity: the order in which commits are added up does not matter.
pub proof fn lemma_churn_monoid(a: Churn, b: Churn, c: Churn)
    ensures
        a.plus(b) == b.plus(a),
        a.plus(b).plus(c) == a.plus(b.plus(c)),
        a.plus(Churn::zero()) == a,
        Churn::zero().plus(a) == a,
{
}

} // verus!
