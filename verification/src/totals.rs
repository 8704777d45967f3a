//! Sums over finite maps: what all the entries of a map weigh together.
//!
//! The sum is defined over the map alone, so it does not depend on any order
//! in which the entries may be walked; [`lemma_sum_by_keys`] says that walking
//! the keys in any order, each once, adds up to it.

use crate::stats::Tally;
use vstd::prelude::*;
use vstd::set::fold::{is_fun_commutative, lemma_finite_set_induct, lemma_fold_empty, lemma_fold_insert};

verus! {

/// One step of a sum: the weight of the entry under `key` is added.
pub open spec fn add_weight<V>(m: Map<Seq<char>, V>, weigh: spec_fn(V) -> Tally) -> spec_fn(
    Tally,
    Seq<char>,
) -> Tally {
    |acc: Tally, key: Seq<char>| acc.plus(weigh(m[key]))
}

/// The sum of the weights of the entries of a finite map.
pub open spec fn map_sum<V>(m: Map<Seq<char>, V>, weigh: spec_fn(V) -> Tally) -> Tally {
    m.dom().fold(Tally::zero(), add_weight(m, weigh))
}

/// The sum of the weights of the entries under the given keys, taken in order.
pub open spec fn sum_by_keys<V>(
    m: Map<Seq<char>, V>,
    weigh: spec_fn(V) -> Tally,
    keys: Seq<Seq<char>>,
) -> Tally
    decreases keys.len(),
{
    if keys.len() == 0 {
        Tally::zero()
    } else {
        sum_by_keys(m, weigh, keys.drop_last()).plus(weigh(m[keys.last()]))
    }
}

/// Adding weights commutes: the order of two steps does not matter.
proof fn lemma_add_weight_commutes<V>(m: Map<Seq<char>, V>, weigh: spec_fn(V) -> Tally)
    ensures
        is_fun_commutative(add_weight(m, weigh)),
{
    let f = add_weight(m, weigh);
    assert forall|a1: Seq<char>, a2: Seq<char>, b: Tally| #[trigger]
        f(f(b, a2), a1) == f(f(b, a1), a2) by {}
}

/// Two maps that agree on a finite set of keys sum to the same over it.
proof fn lemma_fold_agrees<V>(
    s: Set<Seq<char>>,
    m1: Map<Seq<char>, V>,
    m2: Map<Seq<char>, V>,
    weigh: spec_fn(V) -> Tally,
)
    requires
        s.finite(),
        forall|k: Seq<char>| s.contains(k) ==> m1[k] == m2[k],
    ensures
        s.fold(Tally::zero(), add_weight(m1, weigh)) == s.fold(
            Tally::zero(),
            add_weight(m2, weigh),
        ),
{
    let f1 = add_weight(m1, weigh);
    let f2 = add_weight(m2, weigh);
    lemma_add_weight_commutes(m1, weigh);
    lemma_add_weight_commutes(m2, weigh);
    let pred = |t: Set<Seq<char>>|
        t.subset_of(s) ==> t.fold(Tally::zero(), f1) == t.fold(Tally::zero(), f2);
    assert(pred(Set::empty())) by {
        lemma_fold_empty(Tally::zero(), f1);
        lemma_fold_empty(Tally::zero(), f2);
    }
    assert forall|t: Set<Seq<char>>, a: Seq<char>|
        pred(t) && t.finite() && !t.contains(a) implies #[trigger] pred(t.insert(a)) by {
        if t.insert(a).subset_of(s) {
            assert(t.subset_of(s)) by {
                assert forall|k: Seq<char>| t.contains(k) implies s.contains(k) by {
                    assert(t.insert(a).contains(k));
                }
            }
            assert(s.contains(a)) by {
                assert(t.insert(a).contains(a));
            }
            lemma_fold_insert(t, Tally::zero(), f1, a);
            lemma_fold_insert(t, Tally::zero(), f2, a);
        }
    }
    lemma_finite_set_induct(s, pred);
}

/// The empty map sums to zero.
pub proof fn lemma_sum_empty<V>(weigh: spec_fn(V) -> Tally)
    ensures
        map_sum(Map::<Seq<char>, V>::empty(), weigh) == Tally::zero(),
{
    let m = Map::<Seq<char>, V>::empty();
    assert(m.dom() =~= Set::empty());
    lemma_fold_empty(Tally::zero(), add_weight(m, weigh));
}

/// An entry under a new key adds its weight to the sum.
pub proof fn lemma_sum_insert_new<V>(
    m: Map<Seq<char>, V>,
    weigh: spec_fn(V) -> Tally,
    key: Seq<char>,
    value: V,
)
    requires
        m.dom().finite(),
        !m.contains_key(key),
    ensures
        map_sum(m.insert(key, value), weigh) == map_sum(m, weigh).plus(weigh(value)),
{
    let grown = m.insert(key, value);
    assert(grown.dom() =~= m.dom().insert(key));
    lemma_add_weight_commutes(grown, weigh);
    lemma_fold_insert(m.dom(), Tally::zero(), add_weight(grown, weigh), key);
    lemma_fold_agrees(m.dom(), grown, m, weigh);
}

/// Taking an entry out takes its weight off the sum.
pub proof fn lemma_sum_remove<V>(m: Map<Seq<char>, V>, weigh: spec_fn(V) -> Tally, key: Seq<char>)
    requires
        m.dom().finite(),
        m.contains_key(key),
    ensures
        map_sum(m, weigh) == map_sum(m.remove(key), weigh).plus(weigh(m[key])),
{
    let rest = m.remove(key);
    assert(rest.insert(key, m[key]) =~= m);
    lemma_sum_insert_new(rest, weigh, key, m[key]);
}

/// Replacing the entry under a key swaps its weight in the sum.
pub proof fn lemma_sum_replace<V>(
    m: Map<Seq<char>, V>,
    weigh: spec_fn(V) -> Tally,
    key: Seq<char>,
    value: V,
)
    requires
        m.dom().finite(),
        m.contains_key(key),
    ensures
        map_sum(m.insert(key, value), weigh).plus(weigh(m[key])) == map_sum(m, weigh).plus(
            weigh(value),
        ),
{
    let rest = m.remove(key);
    lemma_sum_remove(m, weigh, key);
    assert(rest.insert(key, value) =~= m.insert(key, value));
    lemma_sum_insert_new(rest, weigh, key, value);
}

/// Walking the keys of a finite map in any order, each once, adds up to the
/// sum of the map.
pub proof fn lemma_sum_by_keys<V>(
    m: Map<Seq<char>, V>,
    weigh: spec_fn(V) -> Tally,
    keys: Seq<Seq<char>>,
)
    requires
        keys.no_duplicates(),
        forall|i: int| 0 <= i < keys.len() ==> m.contains_key(#[trigger] keys[i]),
        forall|k: Seq<char>| m.contains_key(k) ==> keys.contains(k),
    ensures
        m.dom().finite(),
        sum_by_keys(m, weigh, keys) == map_sum(m, weigh),
    decreases keys.len(),
{
    if keys.len() == 0 {
        assert forall|k: Seq<char>| !m.dom().contains(k) by {
            if m.contains_key(k) {
                assert(keys.contains(k));
            }
        }
        assert(m =~= Map::<Seq<char>, V>::empty());
        lemma_sum_empty(weigh);
    } else {
        let last = keys.last();
        let front = keys.drop_last();
        let rest = m.remove(last);
        assert(m.contains_key(keys[keys.len() - 1]));
        assert forall|i: int| 0 <= i < front.len() implies rest.contains_key(
            #[trigger] front[i],
        ) by {
            assert(m.contains_key(keys[i]));
            assert(keys[i] != keys[keys.len() - 1]);
        }
        assert forall|k: Seq<char>| rest.contains_key(k) implies front.contains(k) by {
            assert(keys.contains(k));
            let i = choose|i: int| 0 <= i < keys.len() && keys[i] == k;
            assert(front[i] == k);
        }
        lemma_sum_by_keys(rest, weigh, front);
        assert(m.dom() =~= rest.dom().insert(last));
        lemma_sum_remove(m, weigh, last);
        lemma_sum_keys_agree(m, rest, weigh, front);
    }
}

/// Two maps that agree under the given keys sum to the same over them.
proof fn lemma_sum_keys_agree<V>(
    m1: Map<Seq<char>, V>,
    m2: Map<Seq<char>, V>,
    weigh: spec_fn(V) -> Tally,
    keys: Seq<Seq<char>>,
)
    requires
        forall|i: int| 0 <= i < keys.len() ==> m1[#[trigger] keys[i]] == m2[keys[i]],
    ensures
        sum_by_keys(m1, weigh, keys) == sum_by_keys(m2, weigh, keys),
    decreases keys.len(),
{
    if keys.len() > 0 {
        let front = keys.drop_last();
        assert forall|i: int| 0 <= i < front.len() implies m1[#[trigger] front[i]] == m2[front[i]] by {
            assert(front[i] == keys[i]);
        }
        lemma_sum_keys_agree(m1, m2, weigh, front);
        assert(m1[keys[keys.len() - 1]] == m2[keys[keys.len() - 1]]);
    }
}

/// A tally weighs what it counts.
pub open spec fn whole() -> spec_fn(Tally) -> Tally {
    |tally: Tally| tally
}

/// One tally is no more than another, counter by counter.
pub open spec fn within(a: Tally, b: Tally) -> bool {
    &&& a.lines <= b.lines
    &&& a.blanks <= b.blanks
    &&& a.comments <= b.comments
    &&& a.code <= b.code
}

/// The sum over the first keys is no more than the sum over all of them.
pub proof fn lemma_sum_prefix<V>(
    m: Map<Seq<char>, V>,
    weigh: spec_fn(V) -> Tally,
    keys: Seq<Seq<char>>,
    n: int,
)
    requires
        0 <= n <= keys.len(),
    ensures
        within(sum_by_keys(m, weigh, keys.take(n)), sum_by_keys(m, weigh, keys)),
    decreases keys.len() - n,
{
    if n < keys.len() {
        lemma_sum_prefix(m, weigh, keys, n + 1);
        assert(keys.take(n + 1).drop_last() =~= keys.take(n));
    } else {
        assert(keys.take(n) =~= keys);
    }
}

/// No entry weighs more than the whole map.
pub proof fn lemma_entry_within_sum<V>(m: Map<Seq<char>, V>, weigh: spec_fn(V) -> Tally, key: Seq<char>)
    requires
        m.dom().finite(),
        m.contains_key(key),
    ensures
        within(weigh(m[key]), map_sum(m, weigh)),
{
    lemma_sum_remove(m, weigh, key);
}

/// Putting under `key` a value that weighs `gain` more than what `key` held
/// (nothing, where the map did not hold it) adds `gain` to the sum.
pub proof fn lemma_sum_grow<V>(
    m: Map<Seq<char>, V>,
    weigh: spec_fn(V) -> Tally,
    key: Seq<char>,
    value: V,
    gain: Tally,
)
    requires
        m.dom().finite(),
        weigh(value) == (if m.contains_key(key) {
            weigh(m[key])
        } else {
            Tally::zero()
        }).plus(gain),
    ensures
        map_sum(m.insert(key, value), weigh) == map_sum(m, weigh).plus(gain),
        m.insert(key, value).dom().finite(),
{
    let grown = map_sum(m.insert(key, value), weigh);
    let sum = map_sum(m, weigh);
    if m.contains_key(key) {
        lemma_sum_replace(m, weigh, key, value);
        assert(grown.plus(weigh(m[key])) == sum.plus(weigh(value)));
        assert(grown.lines == sum.lines + gain.lines);
        assert(grown.blanks == sum.blanks + gain.blanks);
        assert(grown.comments == sum.comments + gain.comments);
        assert(grown.code == sum.code + gain.code);
    } else {
        lemma_sum_insert_new(m, weigh, key, value);
    }
}

/// A sum of balanced weights is balanced.
pub proof fn lemma_sum_balanced<V>(m: Map<Seq<char>, V>, weigh: spec_fn(V) -> Tally)
    requires
        m.dom().finite(),
        forall|key: Seq<char>| m.contains_key(key) ==> (#[trigger] weigh(m[key])).balanced(),
    ensures
        map_sum(m, weigh).balanced(),
    decreases m.dom().len(),
{
    if m.dom().len() == 0 {
        assert(m =~= Map::<Seq<char>, V>::empty());
        lemma_sum_empty(weigh);
    } else {
        let key = m.dom().choose();
        let rest = m.remove(key);
        assert forall|k: Seq<char>| rest.contains_key(k) implies (#[trigger] weigh(
            rest[k],
        )).balanced() by {
            assert(m.contains_key(k));
            assert(weigh(m[k]).balanced());
        }
        lemma_sum_balanced(rest, weigh);
        lemma_sum_remove(m, weigh, key);
        assert(weigh(m[key]).balanced());
    }
}

} // verus!
