//! Order does not matter: however the statistics of a project are split up
//! and in whatever order the parts are merged, the report is the same.

use crate::ledger::{
    lemma_merge_associative, lemma_merge_commutative, lemma_merge_empty, lemma_record_is_merge,
    merge, record, single, Ledger,
};
use crate::stats::Tally;
use vstd::prelude::*;
use vstd::seq_lib::{to_multiset_len, to_multiset_remove};

verus! {

/// One entry of a report: an author, a language, and what the author owns
/// in it.
pub type Entry = (Seq<char>, Seq<char>, Tally);

/// The ledger in which the given entries are recorded, in order.
pub open spec fn record_all(entries: Seq<Entry>) -> Ledger
    decreases entries.len(),
{
    if entries.len() == 0 {
        Map::empty()
    } else {
        record(
            record_all(entries.drop_last()),
            entries.last().0,
            entries.last().1,
            entries.last().2,
        )
    }
}

/// The merge of the given ledgers, in order.
pub open spec fn merge_all(ledgers: Seq<Ledger>) -> Ledger
    decreases ledgers.len(),
{
    if ledgers.len() == 0 {
        Map::empty()
    } else {
        merge(merge_all(ledgers.drop_last()), ledgers.last())
    }
}

/// Two recordings commute.
pub proof fn lemma_record_commutes(ledger: Ledger, x: Entry, y: Entry)
    ensures
        record(record(ledger, x.0, x.1, x.2), y.0, y.1, y.2) == record(
            record(ledger, y.0, y.1, y.2),
            x.0,
            x.1,
            x.2,
        ),
{
    let sx = single(x.0, x.1, x.2);
    let sy = single(y.0, y.1, y.2);
    lemma_record_is_merge(ledger, x.0, x.1, x.2);
    lemma_record_is_merge(ledger, y.0, y.1, y.2);
    lemma_record_is_merge(record(ledger, x.0, x.1, x.2), y.0, y.1, y.2);
    lemma_record_is_merge(record(ledger, y.0, y.1, y.2), x.0, x.1, x.2);
    lemma_merge_associative(ledger, sx, sy);
    lemma_merge_associative(ledger, sy, sx);
    lemma_merge_commutative(sx, sy);
}

/// Any entry can be recorded last.
proof fn lemma_record_all_remove(entries: Seq<Entry>, i: int)
    requires
        0 <= i < entries.len(),
    ensures
        record_all(entries) == record(
            record_all(entries.remove(i)),
            entries[i].0,
            entries[i].1,
            entries[i].2,
        ),
    decreases entries.len(),
{
    if i == entries.len() - 1 {
        assert(entries.remove(i) =~= entries.drop_last());
    } else {
        let front = entries.drop_last();
        lemma_record_all_remove(front, i);
        assert(entries.remove(i).drop_last() =~= front.remove(i));
        assert(entries.remove(i).last() == entries.last());
        lemma_record_commutes(record_all(front.remove(i)), entries[i], entries.last());
    }
}

/// Recording the same entries in any order gives the same ledger.
pub proof fn lemma_record_all_any_order(one: Seq<Entry>, other: Seq<Entry>)
    requires
        one.to_multiset() == other.to_multiset(),
    ensures
        record_all(one) == record_all(other),
    decreases one.len(),
{
    to_multiset_len(one);
    to_multiset_len(other);
    if one.len() > 0 {
        let last = one.last();
        one.to_multiset_ensures();
        other.to_multiset_ensures();
        assert(one.contains(last)) by {
            assert(one[one.len() - 1] == last);
        }
        assert(one.to_multiset().count(last) > 0);
        assert(other.to_multiset().count(last) > 0);
        assert(other.contains(last));
        let j = choose|j: int| 0 <= j < other.len() && other[j] == last;
        to_multiset_remove(one, one.len() - 1);
        to_multiset_remove(other, j);
        assert(one.remove(one.len() - 1) =~= one.drop_last());
        lemma_record_all_any_order(one.drop_last(), other.remove(j));
        lemma_record_all_remove(other, j);
    }
}

/// Recording two runs of entries one after the other gives the merge of what
/// each run gives on its own.
pub proof fn lemma_record_all_split(one: Seq<Entry>, other: Seq<Entry>)
    ensures
        record_all(one + other) == merge(record_all(one), record_all(other)),
    decreases other.len(),
{
    if other.len() == 0 {
        assert(one + other =~= one);
        lemma_merge_empty(record_all(one));
    } else {
        let last = other.last();
        lemma_record_all_split(one, other.drop_last());
        assert((one + other).drop_last() =~= one + other.drop_last());
        assert((one + other).last() == last);
        let s = single(last.0, last.1, last.2);
        lemma_record_is_merge(record_all(one + other.drop_last()), last.0, last.1, last.2);
        lemma_record_is_merge(record_all(other.drop_last()), last.0, last.1, last.2);
        lemma_merge_associative(record_all(one), record_all(other.drop_last()), s);
    }
}

/// Any ledger can be merged last.
proof fn lemma_merge_all_remove(ledgers: Seq<Ledger>, i: int)
    requires
        0 <= i < ledgers.len(),
    ensures
        merge_all(ledgers) == merge(merge_all(ledgers.remove(i)), ledgers[i]),
    decreases ledgers.len(),
{
    if i == ledgers.len() - 1 {
        assert(ledgers.remove(i) =~= ledgers.drop_last());
    } else {
        let front = ledgers.drop_last();
        lemma_merge_all_remove(front, i);
        assert(ledgers.remove(i).drop_last() =~= front.remove(i));
        assert(ledgers.remove(i).last() == ledgers.last());
        let rest = merge_all(front.remove(i));
        lemma_merge_associative(rest, ledgers[i], ledgers.last());
        lemma_merge_associative(rest, ledgers.last(), ledgers[i]);
        lemma_merge_commutative(ledgers[i], ledgers.last());
    }
}

/// Merging the same ledgers in any order gives the same ledger.
pub proof fn lemma_merge_all_any_order(one: Seq<Ledger>, other: Seq<Ledger>)
    requires
        one.to_multiset() == other.to_multiset(),
    ensures
        merge_all(one) == merge_all(other),
    decreases one.len(),
{
    to_multiset_len(one);
    to_multiset_len(other);
    if one.len() > 0 {
        let last = one.last();
        one.to_multiset_ensures();
        other.to_multiset_ensures();
        assert(one.contains(last)) by {
            assert(one[one.len() - 1] == last);
        }
        assert(one.to_multiset().count(last) > 0);
        assert(other.to_multiset().count(last) > 0);
        assert(other.contains(last));
        let j = choose|j: int| 0 <= j < other.len() && other[j] == last;
        to_multiset_remove(one, one.len() - 1);
        to_multiset_remove(other, j);
        assert(one.remove(one.len() - 1) =~= one.drop_last());
        lemma_merge_all_any_order(one.drop_last(), other.remove(j));
        lemma_merge_all_remove(other, j);
    }
}

/// Merging two runs of ledgers one after the other gives the merge of what
/// each run gives on its own: a reduction may be split anywhere.
pub proof fn lemma_merge_all_split(one: Seq<Ledger>, other: Seq<Ledger>)
    ensures
        merge_all(one + other) == merge(merge_all(one), merge_all(other)),
    decreases other.len(),
{
    if other.len() == 0 {
        assert(one + other =~= one);
        lemma_merge_empty(merge_all(one));
    } else {
        lemma_merge_all_split(one, other.drop_last());
        assert((one + other).drop_last() =~= one + other.drop_last());
        assert((one + other).last() == other.last());
        lemma_merge_associative(merge_all(one), merge_all(other.drop_last()), other.last());
    }
}

} // verus!
