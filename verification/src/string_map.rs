//! A map keyed by strings that remembers the order in which its keys arrived.
//!
//! It stands where a hash map would: no key occurs twice, and a lookup finds
//! what the last insertion under that key left. Unlike a hash map it is walked
//! in a fixed order, the order of first insertion, so two runs over the same
//! input report in the same order.

use vstd::prelude::*;
use vstd::std_specs::iter::IteratorSpec;

verus! {

/// The map that a sequence of entries stands for: the entries are inserted in
/// turn.
spec fn entries_to_map<V>(entries: Seq<(String, V)>) -> Map<Seq<char>, V>
    decreases entries.len(),
{
    if entries.len() == 0 {
        Map::empty()
    } else {
        entries_to_map(entries.drop_last()).insert(entries.last().0@, entries.last().1)
    }
}

/// The keys of the entries, in order.
spec fn entry_keys<V>(entries: Seq<(String, V)>) -> Seq<Seq<char>> {
    Seq::new(entries.len(), |i: int| entries[i].0@)
}

/// No key occurs twice among the entries.
spec fn distinct_keys<V>(entries: Seq<(String, V)>) -> bool {
    forall|i: int, j: int|
        0 <= i < j < entries.len() ==> (#[trigger] entries[i]).0@ != (#[trigger] entries[j]).0@
}

/// A map from strings to `V`, walked in the order in which keys were first
/// inserted.
///
/// Its view is the mathematical map; [`StringMap::keys`] is the order.
#[derive(Debug)]
pub struct StringMap<V> {
    entries: Vec<(String, V)>,
}

impl<V> View for StringMap<V> {
    type V = Map<Seq<char>, V>;

    closed spec fn view(&self) -> Map<Seq<char>, V> {
        entries_to_map(self.entries@)
    }
}

impl<V> StringMap<V> {
    #[verifier::type_invariant]
    spec fn distinct(&self) -> bool {
        distinct_keys(self.entries@)
    }

    /// The keys in the order in which they were first inserted.
    pub closed spec fn keys(&self) -> Seq<Seq<char>> {
        entry_keys(self.entries@)
    }

    /// The keys enumerate the domain of the view, each once.
    pub open spec fn enumerated(&self) -> bool {
        &&& self.keys().no_duplicates()
        &&& self@.dom().finite()
        &&& self@.len() == self.keys().len()
        &&& forall|i: int| 0 <= i < self.keys().len() ==> self@.contains_key(#[trigger] self.keys()[i])
        &&& forall|k: Seq<char>| self@.contains_key(k) ==> self.keys().contains(k)
    }

    /// An empty map.
    pub fn new() -> (map: Self)
        ensures
            map@ == Map::<Seq<char>, V>::empty(),
            map.keys() == Seq::<Seq<char>>::empty(),
    {
        let map = StringMap { entries: Vec::new() };
        proof {
            assert(map.keys() =~= Seq::<Seq<char>>::empty());
        }
        map
    }

    /// The number of keys.
    pub fn len(&self) -> (n: usize)
        ensures
            n == self.keys().len(),
            self.enumerated(),
    {
        proof {
            use_type_invariant(self);
            lemma_enumeration(self.entries@);
        }
        self.entries.len()
    }

    /// Whether the map holds no key.
    pub fn is_empty(&self) -> (empty: bool)
        ensures
            empty == (self@ == Map::<Seq<char>, V>::empty()),
            empty == (self.keys().len() == 0),
    {
        proof {
            use_type_invariant(self);
            lemma_enumeration(self.entries@);
            if self.entries@.len() == 0 {
                assert(self@ =~= Map::<Seq<char>, V>::empty());
            } else {
                assert(self@.contains_key(self.keys()[0]));
            }
        }
        self.entries.len() == 0
    }

    /// Where `key` stands in the order of keys, if the map holds it.
    pub fn position(&self, key: &str) -> (found: Option<usize>)
        ensures
            match found {
                Some(i) => i < self.keys().len() && self.keys()[i as int] == key@
                    && self@.contains_key(key@),
                None => !self@.contains_key(key@),
            },
    {
        proof {
            use_type_invariant(self);
        }
        let wanted = key.to_owned();
        let mut i: usize = 0;
        while i < self.entries.len()
            invariant
                i <= self.entries.len(),
                wanted@ == key@,
                distinct_keys(self.entries@),
                forall|j: int| 0 <= j < i ==> (#[trigger] self.entries@[j]).0@ != key@,
            decreases self.entries.len() - i,
        {
            if self.entries[i].0 == wanted {
                proof {
                    lemma_entry_in_map(self.entries@, i as int);
                }
                return Some(i);
            }
            i += 1;
        }
        proof {
            lemma_absent_key(self.entries@, key@);
        }
        None
    }

    /// Whether the map holds `key`.
    pub fn contains_key(&self, key: &str) -> (held: bool)
        ensures
            held == self@.contains_key(key@),
    {
        self.position(key).is_some()
    }

    /// The value under `key`, if the map holds it.
    pub fn get(&self, key: &str) -> (found: Option<&V>)
        ensures
            match found {
                Some(v) => self@.contains_key(key@) && *v == self@[key@],
                None => !self@.contains_key(key@),
            },
    {
        match self.position(key) {
            Some(i) => Some(self.value_at(i)),
            None => None,
        }
    }

    /// The key at place `i` of the order.
    pub fn key_at(&self, i: usize) -> (key: &String)
        requires
            i < self.keys().len(),
        ensures
            key@ == self.keys()[i as int],
            self@.contains_key(key@),
    {
        proof {
            use_type_invariant(self);
            lemma_entry_in_map(self.entries@, i as int);
        }
        &self.entries[i].0
    }

    /// The value under the key at place `i` of the order.
    pub fn value_at(&self, i: usize) -> (value: &V)
        requires
            i < self.keys().len(),
        ensures
            self@.contains_key(self.keys()[i as int]),
            *value == self@[self.keys()[i as int]],
    {
        proof {
            use_type_invariant(self);
            lemma_entry_in_map(self.entries@, i as int);
        }
        &self.entries[i].1
    }

    /// Puts `value` under the key at place `i` and hands back what was there.
    /// The order of keys stays as it is.
    pub fn replace_at(&mut self, i: usize, value: V) -> (previous: V)
        requires
            i < old(self).keys().len(),
        ensures
            final(self).keys() == old(self).keys(),
            final(self)@ == old(self)@.insert(old(self).keys()[i as int], value),
            old(self)@.contains_key(old(self).keys()[i as int]),
            previous == old(self)@[old(self).keys()[i as int]],
    {
        proof {
            use_type_invariant(&*self);
        }
        let mut entries: Vec<(String, V)> = Vec::new();
        std::mem::swap(&mut entries, &mut self.entries);
        let mut slot = value;
        proof {
            lemma_entry_in_map(entries@, i as int);
            lemma_replace_value(entries@, i as int, value);
        }
        std::mem::swap(&mut entries[i].1, &mut slot);
        proof {
            assert(entries@ =~= old(self).entries@.update(
                i as int,
                (old(self).entries@[i as int].0, value),
            ));
        }
        self.entries = entries;
        slot
    }

    /// Puts `value` under `key` and hands back what `key` held before. A new
    /// key goes to the end of the order; a key already held keeps its place.
    pub fn insert(&mut self, key: String, value: V) -> (previous: Option<V>)
        ensures
            final(self)@ == old(self)@.insert(key@, value),
            match previous {
                Some(v) => {
                    &&& old(self)@.contains_key(key@)
                    &&& v == old(self)@[key@]
                    &&& final(self).keys() == old(self).keys()
                },
                None => {
                    &&& !old(self)@.contains_key(key@)
                    &&& final(self).keys() == old(self).keys().push(key@)
                },
            },
    {
        match self.position(key.as_str()) {
            Some(i) => {
                let previous = self.replace_at(i, value);
                Some(previous)
            },
            None => {
                proof {
                    use_type_invariant(&*self);
                    lemma_enumeration(self.entries@);
                }
                let mut entries: Vec<(String, V)> = Vec::new();
                std::mem::swap(&mut entries, &mut self.entries);
                proof {
                    lemma_push_entry(entries@, key, value);
                }
                entries.push((key, value));
                self.entries = entries;
                None
            },
        }
    }

    /// Walks the entries in the order of the keys.
    pub fn iter(&self) -> (entries: std::slice::Iter<'_, (String, V)>)
        ensures
            self.enumerated(),
            entries.remaining().len() == self.keys().len(),
            forall|i: int|
                0 <= i < self.keys().len() ==> (#[trigger] entries.remaining()[i]).0@
                    == self.keys()[i] && entries.remaining()[i].1 == self@[self.keys()[i]],
    {
        proof {
            use_type_invariant(self);
            lemma_enumeration(self.entries@);
            assert forall|i: int| 0 <= i < self.entries@.len() implies self@[(
            #[trigger] self.entries@[i]).0@] == self.entries@[i].1 by {
                lemma_entry_in_map(self.entries@, i);
            }
        }
        self.entries.iter()
    }
}

/// Walking keys that hold no key twice: the key at place `i` is none of
/// those before it, and the keys up to and with it are those before it and
/// itself.
pub proof fn lemma_next_key(keys: Seq<Seq<char>>, i: int)
    requires
        keys.no_duplicates(),
        0 <= i < keys.len(),
    ensures
        !keys.take(i).contains(keys[i]),
        keys.take(i + 1) == keys.take(i).push(keys[i]),
        forall|key: Seq<char>|
            keys.take(i + 1).contains(key) <==> keys.take(i).contains(key) || key == keys[i],
{
    let done = keys.take(i);
    let next = keys.take(i + 1);
    assert(next =~= done.push(keys[i]));
    if done.contains(keys[i]) {
        let j = choose|j: int| 0 <= j < done.len() && done[j] == keys[i];
        assert(keys[j] == keys[i]);
    }
    assert forall|key: Seq<char>| next.contains(key) <==> done.contains(key) || key == keys[i] by {
        if done.contains(key) {
            let j = choose|j: int| 0 <= j < done.len() && done[j] == key;
            assert(next[j] == key);
        }
        if key == keys[i] {
            assert(next[i] == key);
        }
    }
}

/// The keys of distinct entries enumerate the map's domain, each once.
proof fn lemma_enumeration<V>(entries: Seq<(String, V)>)
    requires
        distinct_keys(entries),
    ensures
        entry_keys(entries).no_duplicates(),
        entries_to_map(entries).dom().finite(),
        entries_to_map(entries).len() == entries.len(),
        forall|i: int|
            0 <= i < entries.len() ==> entries_to_map(entries).contains_key(
                #[trigger] entry_keys(entries)[i],
            ),
        forall|k: Seq<char>|
            entries_to_map(entries).contains_key(k) ==> entry_keys(entries).contains(k),
    decreases entries.len(),
{
    let keys = entry_keys(entries);
    assert forall|i: int, j: int| 0 <= i < keys.len() && 0 <= j < keys.len() && i != j implies keys[i]
        != keys[j] by {
        if i < j {
            assert(entries[i].0@ != entries[j].0@);
        } else {
            assert(entries[j].0@ != entries[i].0@);
        }
    }
    if entries.len() > 0 {
        let front = entries.drop_last();
        let last = entries.last();
        lemma_enumeration(front);
        assert forall|k: Seq<char>| entries_to_map(entries).contains_key(k) implies keys.contains(
            k,
        ) by {
            if k == last.0@ {
                assert(keys[entries.len() - 1] == k);
            } else {
                assert(entries_to_map(front).contains_key(k));
                assert(entry_keys(front).contains(k));
                let i = choose|i: int| 0 <= i < front.len() && entry_keys(front)[i] == k;
                assert(keys[i] == k);
            }
        }
        assert(!entries_to_map(front).contains_key(last.0@)) by {
            if entries_to_map(front).contains_key(last.0@) {
                assert(entry_keys(front).contains(last.0@));
                let i = choose|i: int| 0 <= i < front.len() && entry_keys(front)[i] == last.0@;
                assert(front[i].0@ == last.0@);
                assert(entries[i].0@ != entries[entries.len() - 1].0@);
            }
        }
        assert forall|i: int| 0 <= i < entries.len() implies entries_to_map(entries).contains_key(
            #[trigger] keys[i],
        ) by {
            if i < front.len() {
                assert(entry_keys(front)[i] == keys[i]);
            }
        }
    }
}

/// Among distinct entries, the map holds each entry's value under its key.
proof fn lemma_entry_in_map<V>(entries: Seq<(String, V)>, i: int)
    requires
        distinct_keys(entries),
        0 <= i < entries.len(),
    ensures
        entries_to_map(entries).contains_key(entries[i].0@),
        entries_to_map(entries)[entries[i].0@] == entries[i].1,
        entry_keys(entries)[i] == entries[i].0@,
    decreases entries.len(),
{
    if i < entries.len() - 1 {
        lemma_entry_in_map(entries.drop_last(), i);
        assert(entries[i].0@ != entries[entries.len() - 1].0@);
    }
}

/// A key that no entry carries is not in the map.
proof fn lemma_absent_key<V>(entries: Seq<(String, V)>, key: Seq<char>)
    requires
        forall|j: int| 0 <= j < entries.len() ==> (#[trigger] entries[j]).0@ != key,
    ensures
        !entries_to_map(entries).contains_key(key),
    decreases entries.len(),
{
    if entries.len() > 0 {
        lemma_absent_key(entries.drop_last(), key);
    }
}

/// Replacing the value of entry `i` is an insertion under that entry's key,
/// and leaves the keys as they are.
proof fn lemma_replace_value<V>(entries: Seq<(String, V)>, i: int, value: V)
    requires
        distinct_keys(entries),
        0 <= i < entries.len(),
    ensures
        distinct_keys(entries.update(i, (entries[i].0, value))),
        entry_keys(entries.update(i, (entries[i].0, value))) == entry_keys(entries),
        entries_to_map(entries.update(i, (entries[i].0, value))) == entries_to_map(
            entries,
        ).insert(entries[i].0@, value),
    decreases entries.len(),
{
    let key = entries[i].0;
    let updated = entries.update(i, (key, value));
    assert forall|a: int, b: int| 0 <= a < b < updated.len() implies (#[trigger] updated[a]).0@ != (
    #[trigger] updated[b]).0@ by {
        assert(entries[a].0@ != entries[b].0@);
    }
    assert(entry_keys(updated) =~= entry_keys(entries));
    if i == entries.len() - 1 {
        assert(updated.drop_last() =~= entries.drop_last());
        assert(entries_to_map(updated) =~= entries_to_map(entries).insert(key@, value));
    } else {
        lemma_replace_value(entries.drop_last(), i, value);
        assert(updated.drop_last() =~= entries.drop_last().update(i, (key, value)));
        assert(entries[i].0@ != entries[entries.len() - 1].0@);
        assert(entries_to_map(updated) =~= entries_to_map(entries).insert(key@, value));
    }
}

/// Appending an entry under a key that the map lacks is an insertion, and
/// appends the key.
proof fn lemma_push_entry<V>(entries: Seq<(String, V)>, key: String, value: V)
    requires
        distinct_keys(entries),
        !entries_to_map(entries).contains_key(key@),
    ensures
        distinct_keys(entries.push((key, value))),
        entry_keys(entries.push((key, value))) == entry_keys(entries).push(key@),
        entries_to_map(entries.push((key, value))) == entries_to_map(entries).insert(key@, value),
{
    let pushed = entries.push((key, value));
    assert(pushed.drop_last() =~= entries);
    assert(entry_keys(pushed) =~= entry_keys(entries).push(key@));
    assert forall|a: int, b: int| 0 <= a < b < pushed.len() implies (#[trigger] pushed[a]).0@ != (
    #[trigger] pushed[b]).0@ by {
        if b < entries.len() {
            assert(entries[a].0@ != entries[b].0@);
        } else {
            lemma_entry_in_map(entries, a);
        }
    }
}

} // verus!
