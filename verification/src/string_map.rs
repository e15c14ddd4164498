//! A map from strings to strings that remembers the order of its keys.

use vstd::prelude::*;
use vstd::string::*;

verus! {

/// The map that a sequence of pairs spells; of two pairs with one key the later counts.
pub open spec fn to_map<T>(items: Seq<(Seq<char>, T)>) -> Map<Seq<char>, T>
    decreases items.len(),
{
    if items.len() == 0 {
        Map::empty()
    } else {
        to_map(items.drop_last()).insert(items.last().0, items.last().1)
    }
}

/// No key occurs twice.
pub open spec fn distinct_keys<T>(items: Seq<(Seq<char>, T)>) -> bool {
    forall|i: int, j: int|
        0 <= i < j < items.len() ==> (#[trigger] items[i]).0 != (#[trigger] items[j]).0
}

/// A map from strings to strings, without double keys.
#[derive(Debug)]
pub struct StringMap {
    entries: Vec<(String, String)>,
}

impl StringMap {
    /// The keys and values, in the order in which the keys first came.
    pub closed spec fn items(self) -> Seq<(Seq<char>, Seq<char>)> {
        self.entries@.map_values(|e: (String, String)| (e.0@, e.1@))
    }

    #[verifier::type_invariant]
    spec fn inv(self) -> bool {
        distinct_keys(self.items())
    }

    /// An empty map.
    pub fn new() -> (map: StringMap)
        ensures
            map.items() == Seq::<(Seq<char>, Seq<char>)>::empty(),
            map@ == Map::<Seq<char>, Seq<char>>::empty(),
    {
        let map: StringMap = StringMap { entries: Vec::new() };
        assert(map.items() =~= Seq::empty());
        map
    }

    /// The number of keys.
    pub fn len(&self) -> (n: usize)
        ensures
            n == self.items().len(),
    {
        self.entries.len()
    }

    /// Whether there is no key.
    pub fn is_empty(&self) -> (r: bool)
        ensures
            r == (self.items().len() == 0),
    {
        self.entries.len() == 0
    }

    /// The key at a position.
    pub fn key_at(&self, i: usize) -> (key: &String)
        requires
            i < self.items().len(),
        ensures
            key@ == self.items()[i as int].0,
    {
        &self.entries[i].0
    }

    /// The value at a position.
    pub fn value_at(&self, i: usize) -> (value: &String)
        requires
            i < self.items().len(),
        ensures
            value@ == self.items()[i as int].1,
    {
        &self.entries[i].1
    }

    /// The position of a key.
    fn position(&self, key: &str) -> (r: Option<usize>)
        ensures
            match r {
                Some(i) => i < self.items().len() && self.items()[i as int].0 == key@,
                None => forall|i: int|
                    0 <= i < self.items().len() ==> (#[trigger] self.items()[i]).0 != key@,
            },
    {
        let wanted: String = key.to_owned();
        let mut i: usize = 0;
        while i < self.entries.len()
            invariant
                i <= self.entries.len(),
                wanted@ == key@,
                forall|j: int| 0 <= j < i ==> (#[trigger] self.items()[j]).0 != key@,
            decreases self.entries.len() - i,
        {
            assert(self.items()[i as int] == (self.entries@[i as int].0@, self.entries@[i as int].1@));
            if self.entries[i].0 == wanted {
                return Some(i);
            }
            i = i + 1;
        }
        None
    }

    /// The value of a key.
    pub fn get(&self, key: &str) -> (r: Option<&String>)
        ensures
            r is Some <==> self@.dom().contains(key@),
            r is Some ==> r->0@ == self@[key@],
    {
        proof {
            use_type_invariant(self);
        }
        match self.position(key) {
            Some(i) => {
                proof {
                    lemma_to_map(self.items(), key@);
                    assert(self.items()[i as int] == (
                        self.entries@[i as int].0@,
                        self.entries@[i as int].1@,
                    ));
                }
                Some(&self.entries[i].1)
            },
            None => {
                proof {
                    lemma_to_map(self.items(), key@);
                }
                None
            },
        }
    }

    /// A copy of the map.
    pub fn copy(&self) -> (map: StringMap)
        ensures
            map.items() == self.items(),
            map@ == self@,
    {
        proof {
            use_type_invariant(self);
        }
        let mut entries: Vec<(String, String)> = Vec::new();
        let mut i: usize = 0;
        while i < self.entries.len()
            invariant
                i <= self.entries@.len(),
                entries@.len() == i,
                forall|j: int|
                    0 <= j < i ==> (#[trigger] entries@[j]).0@ == self.entries@[j].0@
                        && entries@[j].1@ == self.entries@[j].1@,
            decreases self.entries@.len() - i,
        {
            entries.push((self.entries[i].0.clone(), self.entries[i].1.clone()));
            i = i + 1;
        }
        assert(entries@.map_values(|e: (String, String)| (e.0@, e.1@)) =~= self.items());
        StringMap { entries }
    }

    /// Sets the value of a key; a key that is there keeps its position.
    pub fn insert(&mut self, key: String, value: String)
        ensures
            final(self)@ == old(self)@.insert(key@, value@),
            old(self)@.dom().contains(key@) ==> final(self).items().len() == old(self).items().len(),
            !old(self)@.dom().contains(key@) ==> final(self).items() == old(self).items().push(
                (key@, value@),
            ),
    {
        proof {
            use_type_invariant(&*self);
        }
        let ghost before = self.items();
        let found: Option<usize> = self.position(key.as_str());
        let ghost k = key@;
        let ghost v = value@;
        proof {
            lemma_to_map(before, k);
        }
        let mut entries: Vec<(String, String)> = Vec::new();
        std::mem::swap(&mut self.entries, &mut entries);
        match found {
            Some(i) => {
                entries.set(i, (key, value));
                proof {
                    let now = entries@.map_values(|e: (String, String)| (e.0@, e.1@));
                    assert(now =~= before.update(i as int, (k, v)));
                    lemma_to_map_update(before, i as int, v);
                }
            },
            None => {
                entries.push((key, value));
                proof {
                    let now = entries@.map_values(|e: (String, String)| (e.0@, e.1@));
                    assert(now =~= before.push((k, v)));
                    assert(now.drop_last() =~= before);
                }
            },
        }
        *self = StringMap { entries };
    }
}

impl View for StringMap {
    type V = Map<Seq<char>, Seq<char>>;

    open spec fn view(&self) -> Map<Seq<char>, Seq<char>> {
        to_map(self.items())
    }
}

/// The keys of the map are those of the pairs, and without double keys each has the value of its pair.
pub proof fn lemma_to_map<T>(items: Seq<(Seq<char>, T)>, key: Seq<char>)
    ensures
        to_map(items).dom().contains(key) <==> exists|i: int|
            0 <= i < items.len() && (#[trigger] items[i]).0 == key,
        distinct_keys(items) ==> forall|i: int|
            0 <= i < items.len() && (#[trigger] items[i]).0 == key ==> to_map(items)[key]
                == items[i].1,
    decreases items.len(),
{
    if items.len() > 0 {
        let init = items.drop_last();
        lemma_to_map(init, key);
        assert(forall|i: int| 0 <= i < init.len() ==> init[i] == items[i]);
        if to_map(init).dom().contains(key) {
            let i = choose|i: int| 0 <= i < init.len() && (#[trigger] init[i]).0 == key;
            assert(items[i].0 == key);
        }
        if exists|i: int| 0 <= i < items.len() && (#[trigger] items[i]).0 == key {
            let i = choose|i: int| 0 <= i < items.len() && (#[trigger] items[i]).0 == key;
            if i < init.len() {
                assert(init[i].0 == key);
            }
        }
    }
}

/// Changing the value of a pair changes the value of its key.
pub proof fn lemma_to_map_update<T>(items: Seq<(Seq<char>, T)>, i: int, value: T)
    requires
        distinct_keys(items),
        0 <= i < items.len(),
    ensures
        to_map(items.update(i, (items[i].0, value))) == to_map(items).insert(items[i].0, value),
        distinct_keys(items.update(i, (items[i].0, value))),
    decreases items.len(),
{
    let key = items[i].0;
    let now = items.update(i, (key, value));
    assert(forall|j: int| 0 <= j < now.len() ==> (#[trigger] now[j]).0 == items[j].0);
    let init = items.drop_last();
    if i == items.len() - 1 {
        assert(now.drop_last() =~= init);
        assert(to_map(now) =~= to_map(items).insert(key, value));
    } else {
        assert(init[i] == items[i]);
        lemma_to_map_update(init, i, value);
        assert(now.drop_last() =~= init.update(i, (key, value)));
        assert(items.last().0 != key);
        assert(to_map(now) =~= to_map(items).insert(key, value));
    }
}

/// A key has the value of the last pair that names it, and no key is there
/// that no pair names.
pub proof fn law_last_pair_counts<T>(items: Seq<(Seq<char>, T)>, key: Seq<char>)
    ensures
        to_map(items).contains_key(key) ==> exists|i: int|
            0 <= i < items.len() && #[trigger] items[i] == (key, to_map(items)[key]) && forall|
                j: int,
            | i < j < items.len() ==> (#[trigger] items[j]).0 != key,
        !to_map(items).contains_key(key) ==> forall|i: int|
            0 <= i < items.len() ==> (#[trigger] items[i]).0 != key,
    decreases items.len(),
{
    if items.len() > 0 {
        let init = items.drop_last();
        let n = items.len() - 1;
        law_last_pair_counts(init, key);
        assert(forall|i: int| 0 <= i < init.len() ==> init[i] == items[i]);
        if items[n].0 == key {
            assert(items[n] == (key, to_map(items)[key]));
        } else if to_map(items).contains_key(key) {
            let i = choose|i: int|
                0 <= i < init.len() && #[trigger] init[i] == (key, to_map(init)[key]) && forall|
                    j: int,
                | i < j < init.len() ==> (#[trigger] init[j]).0 != key;
            assert(items[i] == (key, to_map(items)[key]));
            assert forall|j: int| i < j < items.len() implies (#[trigger] items[j]).0 != key by {
                if j < n {
                    assert(init[j].0 != key);
                }
            }
        } else {
            assert forall|i: int| 0 <= i < items.len() implies (#[trigger] items[i]).0 != key by {
                if i < n {
                    assert(init[i].0 != key);
                }
            }
        }
    }
}

} // verus!
