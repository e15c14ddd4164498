//! A map from strings to values that remembers the order of its keys.

use crate::string_map::{distinct_keys, lemma_to_map, lemma_to_map_update, to_map};
use vstd::prelude::*;
use vstd::string::*;

verus! {

/// A map from strings to values, without double keys.
#[derive(Debug)]
pub struct TextMap<T> {
    entries: Vec<(String, T)>,
}

impl<T> TextMap<T> {
    /// The keys and values, in the order in which the keys first came.
    pub closed spec fn items(self) -> Seq<(Seq<char>, T)> {
        self.entries@.map_values(|e: (String, T)| (e.0@, e.1))
    }

    #[verifier::type_invariant]
    spec fn inv(self) -> bool {
        distinct_keys(self.items())
    }

    /// An empty map.
    pub fn new() -> (map: TextMap<T>)
        ensures
            map.items() == Seq::<(Seq<char>, T)>::empty(),
            map@ == Map::<Seq<char>, T>::empty(),
    {
        let map: TextMap<T> = TextMap { entries: Vec::new() };
        assert(map.items() =~= Seq::empty());
        map
    }

    /// The number of keys.
    pub fn len(&self) -> (n: usize)
        ensures
            n == self.items().len(),
    {
        self.entries.len()
    }

    /// Whether there is no key.
    pub fn is_empty(&self) -> (r: bool)
        ensures
            r == (self.items().len() == 0),
    {
        self.entries.len() == 0
    }

    /// The key at a position. No other position has the same key.
    pub fn key_at(&self, i: usize) -> (key: &String)
        requires
            i < self.items().len(),
        ensures
            key@ == self.items()[i as int].0,
            forall|j: int|
                0 <= j < self.items().len() && j != i ==> (#[trigger] self.items()[j]).0 != key@,
    {
        proof {
            use_type_invariant(self);
        }
        &self.entries[i].0
    }

    /// The value at a position.
    pub fn value_at(&self, i: usize) -> (value: &T)
        requires
            i < self.items().len(),
        ensures
            *value == self.items()[i as int].1,
    {
        &self.entries[i].1
    }

    /// The position of a key.
    fn position(&self, key: &str) -> (r: Option<usize>)
        ensures
            match r {
                Some(i) => i < self.items().len() && self.items()[i as int].0 == key@,
                None => forall|i: int|
                    0 <= i < self.items().len() ==> (#[trigger] self.items()[i]).0 != key@,
            },
    {
        let wanted: String = key.to_owned();
        let mut i: usize = 0;
        while i < self.entries.len()
            invariant
                i <= self.entries.len(),
                wanted@ == key@,
                forall|j: int| 0 <= j < i ==> (#[trigger] self.items()[j]).0 != key@,
            decreases self.entries.len() - i,
        {
            assert(self.items()[i as int] == (self.entries@[i as int].0@, self.entries@[i as int].1));
            if self.entries[i].0 == wanted {
                return Some(i);
            }
            i = i + 1;
        }
        None
    }

    /// The value of a key.
    pub fn get(&self, key: &str) -> (r: Option<&T>)
        ensures
            r is Some <==> self@.dom().contains(key@),
            r is Some ==> *r->0 == self@[key@],
    {
        proof {
            use_type_invariant(self);
        }
        match self.position(key) {
            Some(i) => {
                proof {
                    lemma_to_map(self.items(), key@);
                    assert(self.items()[i as int] == (
                        self.entries@[i as int].0@,
                        self.entries@[i as int].1,
                    ));
                }
                Some(&self.entries[i].1)
            },
            None => {
                proof {
                    lemma_to_map(self.items(), key@);
                }
                None
            },
        }
    }

    /// Sets the value of a key; a key that is there keeps its position.
    pub fn insert(&mut self, key: String, value: T)
        ensures
            final(self)@ == old(self)@.insert(key@, value),
            old(self)@.dom().contains(key@) ==> final(self).items().len() == old(self).items().len(),
            !old(self)@.dom().contains(key@) ==> final(self).items() == old(self).items().push(
                (key@, value),
            ),
    {
        proof {
            use_type_invariant(&*self);
        }
        let ghost before = self.items();
        let found: Option<usize> = self.position(key.as_str());
        let ghost k = key@;
        let ghost v = value;
        proof {
            lemma_to_map(before, k);
        }
        let mut entries: Vec<(String, T)> = Vec::new();
        std::mem::swap(&mut self.entries, &mut entries);
        match found {
            Some(i) => {
                entries.set(i, (key, value));
                proof {
                    let now = entries@.map_values(|e: (String, T)| (e.0@, e.1));
                    assert(now =~= before.update(i as int, (k, v)));
                    lemma_to_map_update(before, i as int, v);
                }
            },
            None => {
                entries.push((key, value));
                proof {
                    let now = entries@.map_values(|e: (String, T)| (e.0@, e.1));
                    assert(now =~= before.push((k, v)));
                    assert(now.drop_last() =~= before);
                }
            },
        }
        *self = TextMap { entries };
    }
}

impl<T> View for TextMap<T> {
    type V = Map<Seq<char>, T>;

    open spec fn view(&self) -> Map<Seq<char>, T> {
        to_map(self.items())
    }
}

impl<T: Copy> TextMap<T> {
    /// A copy of the map.
    pub fn copy(&self) -> (map: TextMap<T>)
        ensures
            map.items() == self.items(),
    {
        proof {
            use_type_invariant(self);
        }
        let mut entries: Vec<(String, T)> = Vec::new();
        let mut i: usize = 0;
        while i < self.entries.len()
            invariant
                i <= self.entries@.len(),
                entries@.len() == i,
                forall|j: int|
                    0 <= j < i ==> (#[trigger] entries@[j]).0@ == self.entries@[j].0@
                        && entries@[j].1 == self.entries@[j].1,
            decreases self.entries@.len() - i,
        {
            let value: T = self.entries[i].1;
            entries.push((self.entries[i].0.clone(), value));
            i = i + 1;
        }
        let ghost now = entries@.map_values(|e: (String, T)| (e.0@, e.1));
        assert(now =~= self.items());
        TextMap { entries }
    }
}

impl<T> TextMap<Vec<T>> {
    /// Appends items to those of a key.
    pub fn extend(&mut self, key: String, items: Vec<T>)
        ensures
            final(self)@.dom() == old(self)@.dom().insert(key@),
            final(self)@[key@]@ == (if old(self)@.dom().contains(key@) {
                old(self)@[key@]@ + items@
            } else {
                items@
            }),
            forall|other: Seq<char>|
                other != key@ && old(self)@.dom().contains(other) ==> #[trigger] final(self)@[other] == old(self)@[other],
    {
        proof {
            use_type_invariant(&*self);
        }
        let ghost before = self.items();
        let ghost k = key@;
        let found: Option<usize> = self.position(key.as_str());
        proof {
            lemma_to_map(before, k);
        }
        match found {
            None => {
                self.insert(key, items);
                assert(self@.dom() =~= old(self)@.dom().insert(k));
            },
            Some(i) => {
                let mut entries: Vec<(String, Vec<T>)> = Vec::new();
                std::mem::swap(&mut self.entries, &mut entries);
                let mut items: Vec<T> = items;
                let ghost all = entries@;
                assert(before[i as int] == (all[i as int].0@, all[i as int].1));
                let ghost added = items@;
                let mut entry: (String, Vec<T>) = entries.remove(i);
                entry.1.append(&mut items);
                entries.insert(i, entry);
                proof {
                    let now = entries@.map_values(|e: (String, Vec<T>)| (e.0@, e.1));
                    let value = entries@[i as int].1;
                    assert(value@ == all[i as int].1@ + added);
                    assert(now =~= before.update(i as int, (k, value)));
                    lemma_to_map_update(before, i as int, value);
                    assert(to_map(before).insert(k, value).dom() =~= to_map(before).dom().insert(k));
                }
                *self = TextMap { entries };
            },
        }
    }
}

} // verus!
