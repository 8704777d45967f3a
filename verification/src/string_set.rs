//! A set of strings that remembers the order in which its members arrived.

use vstd::prelude::*;
use vstd::std_specs::iter::IteratorSpec;

verus! {

/// The texts of the given strings, in order.
spec fn texts(items: Seq<String>) -> Seq<Seq<char>> {
    Seq::new(items.len(), |i: int| items[i]@)
}

/// A set of strings, walked in the order in which members were first
/// inserted.
///
/// Its view is the mathematical set; [`StringSet::members`] is the order.
#[derive(Debug)]
pub struct StringSet {
    items: Vec<String>,
}

impl View for StringSet {
    type V = Set<Seq<char>>;

    closed spec fn view(&self) -> Set<Seq<char>> {
        texts(self.items@).to_set()
    }
}

impl StringSet {
    #[verifier::type_invariant]
    spec fn distinct(&self) -> bool {
        texts(self.items@).no_duplicates()
    }

    /// The members in the order in which they were first inserted.
    pub closed spec fn members(&self) -> Seq<Seq<char>> {
        texts(self.items@)
    }

    /// The members enumerate the view, each once.
    pub open spec fn enumerated(&self) -> bool {
        &&& self.members().no_duplicates()
        &&& self@.finite()
        &&& self@.len() == self.members().len()
        &&& self@ == self.members().to_set()
    }

    /// An empty set.
    pub fn new() -> (set: Self)
        ensures
            set@ == Set::<Seq<char>>::empty(),
            set.members() == Seq::<Seq<char>>::empty(),
    {
        let set = StringSet { items: Vec::new() };
        proof {
            assert(set.members() =~= Seq::<Seq<char>>::empty());
            assert(set@ =~= Set::<Seq<char>>::empty());
        }
        set
    }

    /// The number of members.
    pub fn len(&self) -> (n: usize)
        ensures
            n == self.members().len(),
            self.enumerated(),
    {
        proof {
            use_type_invariant(self);
            self.members().unique_seq_to_set();
        }
        self.items.len()
    }

    /// Whether the set has no member.
    pub fn is_empty(&self) -> (empty: bool)
        ensures
            empty == (self@ == Set::<Seq<char>>::empty()),
    {
        proof {
            use_type_invariant(self);
            self.members().unique_seq_to_set();
            if self.items@.len() == 0 {
                assert(self@ =~= Set::<Seq<char>>::empty());
            } else {
                assert(self.members()[0] == self.items@[0]@);
                assert(self@.contains(self.members()[0]));
            }
        }
        self.items.len() == 0
    }

    /// Whether `item` is a member.
    pub fn contains(&self, item: &str) -> (held: bool)
        ensures
            held == self@.contains(item@),
    {
        let wanted = item.to_owned();
        let mut i: usize = 0;
        while i < self.items.len()
            invariant
                i <= self.items.len(),
                wanted@ == item@,
                forall|j: int| 0 <= j < i ==> (#[trigger] self.items@[j])@ != item@,
            decreases self.items.len() - i,
        {
            if self.items[i] == wanted {
                proof {
                    assert(texts(self.items@)[i as int] == item@);
                }
                return true;
            }
            i += 1;
        }
        proof {
            if self@.contains(item@) {
                let j = choose|j: int|
                    0 <= j < texts(self.items@).len() && texts(self.items@)[j] == item@;
                assert(self.items@[j]@ == item@);
            }
        }
        false
    }

    /// The member at place `i` of the order.
    pub fn member_at(&self, i: usize) -> (item: &String)
        requires
            i < self.members().len(),
        ensures
            item@ == self.members()[i as int],
            self@.contains(item@),
    {
        proof {
            assert(texts(self.items@)[i as int] == self.items@[i as int]@);
        }
        &self.items[i]
    }

    /// Makes `item` a member; says whether it was new. A new member goes to
    /// the end of the order.
    pub fn insert(&mut self, item: String) -> (fresh: bool)
        ensures
            final(self)@ == old(self)@.insert(item@),
            fresh == !old(self)@.contains(item@),
            final(self).members() == if fresh {
                old(self).members().push(item@)
            } else {
                old(self).members()
            },
    {
        if self.contains(item.as_str()) {
            proof {
                assert(self@.insert(item@) =~= self@);
            }
            false
        } else {
            proof {
                use_type_invariant(&*self);
            }
            let mut items: Vec<String> = Vec::new();
            std::mem::swap(&mut items, &mut self.items);
            proof {
                let before = texts(items@);
                let after = texts(items@.push(item));
                assert(after =~= before.push(item@));
                assert(after.no_duplicates()) by {
                    assert forall|i: int, j: int|
                        0 <= i < after.len() && 0 <= j < after.len() && i != j implies after[i]
                        != after[j] by {
                        if i < before.len() && j < before.len() {
                        } else if i < before.len() {
                            assert(before.to_set().contains(before[i]));
                        } else {
                            assert(before.to_set().contains(before[j]));
                        }
                    }
                }
                assert(after.to_set() =~= before.to_set().insert(item@)) by {
                    assert forall|s: Seq<char>|
                        after.to_set().contains(s) <==> before.to_set().insert(item@).contains(
                            s,
                        ) by {
                        if after.to_set().contains(s) {
                            let i = choose|i: int| 0 <= i < after.len() && after[i] == s;
                            if i < before.len() {
                                assert(before[i] == s);
                            }
                        }
                        if before.to_set().contains(s) {
                            let i = choose|i: int| 0 <= i < before.len() && before[i] == s;
                            assert(after[i] == s);
                        }
                        if s == item@ {
                            assert(after[before.len() as int] == s);
                        }
                    }
                }
            }
            items.push(item);
            self.items = items;
            true
        }
    }

    /// Walks the members in order.
    pub fn iter(&self) -> (items: std::slice::Iter<'_, String>)
        ensures
            items.remaining().len() == self.members().len(),
            forall|i: int|
                0 <= i < self.members().len() ==> (#[trigger] items.remaining()[i])@
                    == self.members()[i],
    {
        self.items.iter()
    }
}

} // verus!
