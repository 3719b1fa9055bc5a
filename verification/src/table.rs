//! A small map from names to values, kept as a list without duplicates.

use crate::text::same_text;
use vstd::prelude::*;

verus! {

/// A value of a table, under its name.
struct Slot<V> {
    name: String,
    value: V,
}

/// A finite map from names to values.
///
/// The names are kept in the order in which they were first inserted, and no
/// name is kept twice.
pub struct NameTable<V> {
    slots: Vec<Slot<V>>,
}

impl<V> NameTable<V> {
    /// The names of the slots, in order.
    pub closed spec fn names(self) -> Seq<Seq<char>> {
        Seq::new(self.slots@.len(), |i: int| self.slots@[i].name@)
    }

    #[verifier::type_invariant]
    spec fn well_formed(self) -> bool {
        self.names().no_duplicates()
    }

    /// The table as a map.
    pub closed spec fn view(&self) -> Map<Seq<char>, V> {
        Map::new(
            |name: Seq<char>| self.names().contains(name),
            |name: Seq<char>| self.slots@[self.names().index_of(name)].value,
        )
    }

    /// Where no name occurs twice, a name is found at one index only.
    proof fn lemma_index(self, i: int)
        requires
            self.names().no_duplicates(),
            0 <= i < self.slots@.len(),
        ensures
            self.names().contains(self.slots@[i].name@),
            self.names().index_of(self.slots@[i].name@) == i,
    {
        let names = self.names();
        assert(names[i] == self.slots@[i].name@);
    }

}

impl<V: Copy> NameTable<V> {
    /// Finds the slot of a name.
    fn find(&self, name: &str) -> (at: Option<usize>)
        ensures
            match at {
                Some(i) => i < self.slots@.len() && self.slots@[i as int].name@ == name@,
                None => !self.names().contains(name@),
            },
    {
        let n = self.slots.len();
        let mut i: usize = 0;
        while i < n
            invariant
                n == self.slots@.len(),
                i <= n,
                forall|k: int| 0 <= k < i ==> self.slots@[k].name@ != name@,
            decreases n - i,
        {
            if same_text(self.slots[i].name.as_str(), name) {
                return Some(i);
            }
            i += 1;
        }
        assert forall|k: int| 0 <= k < self.names().len() implies self.names()[k] != name@ by {
            assert(self.names()[k] == self.slots@[k].name@);
        }
        None
    }

    /// The empty table.
    pub fn new() -> (table: NameTable<V>)
        ensures
            table@ == Map::<Seq<char>, V>::empty(),
            table.names() == Seq::<Seq<char>>::empty(),
    {
        let table = NameTable { slots: Vec::new() };
        assert(table.names() =~= Seq::<Seq<char>>::empty());
        assert(table@ =~= Map::<Seq<char>, V>::empty());
        table
    }

    /// The number of names in the table. No name is counted twice.
    pub fn len(&self) -> (n: usize)
        ensures
            n == self.names().len(),
            self.names().no_duplicates(),
    {
        proof {
            use_type_invariant(self);
        }
        self.slots.len()
    }

    /// The value under a name, if the table holds the name.
    pub fn get(&self, name: &str) -> (value: Option<V>)
        ensures
            value == (if self@.contains_key(name@) {
                Some(self@[name@])
            } else {
                None
            }),
    {
        proof {
            use_type_invariant(self);
        }
        match self.find(name) {
            Some(i) => {
                proof {
                    self.lemma_index(i as int);
                }
                Some(self.slots[i].value)
            },
            None => None,
        }
    }

    /// Puts a value under a name, in place of the value that the name had.
    pub fn insert(&mut self, name: &str, value: V)
        ensures
            final(self)@ == old(self)@.insert(name@, value),
            final(self).names() == (if old(self)@.contains_key(name@) {
                old(self).names()
            } else {
                old(self).names().push(name@)
            }),
    {
        proof {
            use_type_invariant(&*self);
        }
        let ghost before = *self;
        let found = self.find(name);
        let mut slots: Vec<Slot<V>> = Vec::new();
        std::mem::swap(&mut slots, &mut self.slots);
        match found {
            Some(i) => {
                let fresh = Slot { name: name.to_owned(), value };
                slots.set(i, fresh);
                proof {
                    let after = NameTable { slots };
                    assert(after.names() =~= before.names());
                }
                self.slots = slots;
                proof {
                    assert(self.names() =~= before.names());
                    assert(self.names()[i as int] == name@);
                    assert forall|key: Seq<char>| self.names().contains(key) implies self@[key]
                        == before@.insert(name@, value)[key] by {
                        let k = self.names().index_of(key);
                        assert(self.names()[k] == key);
                        if k != i {
                            assert(key != name@);
                        }
                    }
                    assert(self@ =~= before@.insert(name@, value));
                }
            },
            None => {
                slots.push(Slot { name: name.to_owned(), value });
                proof {
                    let after = NameTable { slots };
                    assert(after.names() =~= before.names().push(name@));
                }
                self.slots = slots;
                proof {
                    let last = before.slots@.len() as int;
                    assert(self.names() =~= before.names().push(name@));
                    self.lemma_index(last);
                    assert forall|key: Seq<char>|
                        self@.dom().contains(key) <==> before@.insert(name@, value).dom().contains(
                            key,
                        ) by {
                        if self.names().contains(key) {
                            let k = self.names().index_of(key);
                            assert(self.names()[k] == key);
                            if k < last {
                                assert(before.names()[k] == key);
                            }
                        }
                        if before.names().contains(key) {
                            let k = before.names().index_of(key);
                            assert(before.names()[k] == key);
                            assert(self.names()[k] == key);
                        }
                    }
                    assert forall|key: Seq<char>| self.names().contains(key) implies self@[key]
                        == before@.insert(name@, value)[key] by {
                        let k = self.names().index_of(key);
                        assert(self.names()[k] == key);
                        if k < last {
                            assert(before.names()[k] == key);
                            before.lemma_index(k);
                        }
                    }
                    assert(self@ =~= before@.insert(name@, value));
                }
            },
        }
    }

    /// The name and the value of the slot at an index.
    pub fn entry(&self, i: usize) -> (pair: (String, V))
        requires
            i < self.names().len(),
        ensures
            pair.0@ == self.names()[i as int],
            self@.contains_key(pair.0@),
            pair.1 == self@[pair.0@],
    {
        proof {
            use_type_invariant(self);
            self.lemma_index(i as int);
        }
        (self.slots[i].name.clone(), self.slots[i].value)
    }

    /// The names of the table are its keys, each once.
    pub proof fn lemma_names(self)
        ensures
            forall|name: Seq<char>| self.names().contains(name) <==> self@.contains_key(name),
    {
    }
}

} // verus!
