//! A map from strings to strings that keeps its entries in the order in which
//! their keys were first inserted.

use vstd::prelude::*;
use vstd::string::*;
use vstd::std_specs::cmp::PartialEqSpecImpl;

verus! {

/// Some entry of `entries` has the key `key`.
pub open spec fn has_key(entries: Seq<(Seq<char>, Seq<char>)>, key: Seq<char>) -> bool {
    exists|i: int| 0 <= i < entries.len() && #[trigger] entries[i].0 == key
}

/// No two entries of `entries` have the same key.
pub open spec fn keys_unique(entries: Seq<(Seq<char>, Seq<char>)>) -> bool {
    forall|i: int, j: int|
        0 <= i < j < entries.len() ==> #[trigger] entries[i].0 != #[trigger] entries[j].0
}

/// The value of an entry of `entries` with the key `key`.
pub open spec fn value_of(entries: Seq<(Seq<char>, Seq<char>)>, key: Seq<char>) -> Seq<char> {
    entries[choose|i: int| 0 <= i < entries.len() && #[trigger] entries[i].0 == key].1
}

/// The entries after `key` is given the value `value`: an entry that has the
/// key keeps its place and takes the value; where there is none, a new entry
/// comes last.
pub open spec fn put(entries: Seq<(Seq<char>, Seq<char>)>, key: Seq<char>, value: Seq<char>) -> Seq<
    (Seq<char>, Seq<char>),
> {
    if has_key(entries, key) {
        entries.map_values(
            |e: (Seq<char>, Seq<char>)|
                if e.0 == key {
                    (key, value)
                } else {
                    e
                },
        )
    } else {
        entries.push((key, value))
    }
}

/// The map that holds `entries`.
pub open spec fn to_map(entries: Seq<(Seq<char>, Seq<char>)>) -> Map<Seq<char>, Seq<char>> {
    Map::new(|k: Seq<char>| has_key(entries, k), |k: Seq<char>| value_of(entries, k))
}

/// With unique keys, the map gives each key the value of its one entry.
pub proof fn lemma_to_map_entry(entries: Seq<(Seq<char>, Seq<char>)>, i: int)
    requires
        keys_unique(entries),
        0 <= i < entries.len(),
    ensures
        to_map(entries).contains_key(entries[i].0),
        to_map(entries)[entries[i].0] == entries[i].1,
{
    let key = entries[i].0;
    let j = choose|j: int| 0 <= j < entries.len() && #[trigger] entries[j].0 == key;
    assert(i == j);
}

/// `put` keeps the keys unique and acts on the map as an insertion.
pub proof fn lemma_put(entries: Seq<(Seq<char>, Seq<char>)>, key: Seq<char>, value: Seq<char>)
    requires
        keys_unique(entries),
    ensures
        keys_unique(put(entries, key, value)),
        to_map(put(entries, key, value)) == to_map(entries).insert(key, value),
        has_key(entries, key) ==> put(entries, key, value).len() == entries.len(),
        !has_key(entries, key) ==> put(entries, key, value).len() == entries.len() + 1,
{
    let after = put(entries, key, value);
    assert forall|k: Seq<char>| has_key(after, k) <==> (k == key || has_key(entries, k)) by {
        if has_key(after, k) {
            let i = choose|i: int| 0 <= i < after.len() && #[trigger] after[i].0 == k;
            if i < entries.len() {
                assert(entries[i].0 == after[i].0);
            }
        }
        if has_key(entries, k) {
            let i = choose|i: int| 0 <= i < entries.len() && #[trigger] entries[i].0 == k;
            assert(after[i].0 == k);
        }
        if k == key {
            if has_key(entries, key) {
                let i = choose|i: int| 0 <= i < entries.len() && #[trigger] entries[i].0 == key;
                assert(after[i].0 == key);
            } else {
                assert(after[entries.len() as int].0 == key);
            }
        }
    }
    assert(keys_unique(after)) by {
        assert forall|i: int, j: int| 0 <= i < j < after.len() implies #[trigger] after[i].0
            != #[trigger] after[j].0 by {
            if j < entries.len() {
                assert(entries[i].0 == after[i].0);
                assert(entries[j].0 == after[j].0);
            } else {
                assert(entries[i].0 == after[i].0);
            }
        }
    }
    assert forall|k: Seq<char>| has_key(after, k) implies #[trigger] to_map(after)[k] == to_map(
        entries,
    ).insert(key, value)[k] by {
        let i = choose|i: int| 0 <= i < after.len() && #[trigger] after[i].0 == k;
        lemma_to_map_entry(after, i);
        if k != key {
            assert(entries[i].0 == k);
            lemma_to_map_entry(entries, i);
        }
    }
    assert(to_map(after) =~= to_map(entries).insert(key, value));
}

/// With unique keys, the map holds as many keys as there are entries.
pub proof fn lemma_to_map_len(entries: Seq<(Seq<char>, Seq<char>)>)
    requires
        keys_unique(entries),
    ensures
        to_map(entries).dom().finite(),
        to_map(entries).len() == entries.len(),
    decreases entries.len(),
{
    if entries.len() == 0 {
        assert(to_map(entries) =~= Map::empty());
    } else {
        let front = entries.drop_last();
        let last = entries.last();
        lemma_to_map_len(front);
        if has_key(front, last.0) {
            let i = choose|i: int| 0 <= i < front.len() && #[trigger] front[i].0 == last.0;
            assert(entries[i].0 == entries[entries.len() - 1].0);
        }
        lemma_put(front, last.0, last.1);
        assert(put(front, last.0, last.1) =~= entries);
        assert(!to_map(front).dom().contains(last.0));
    }
}

/// The entries that a vector of owned pairs stands for.
spec fn views_of(items: Seq<(String, String)>) -> Seq<(Seq<char>, Seq<char>)> {
    items.map_values(|e: (String, String)| (e.0@, e.1@))
}

/// An insertion-ordered map from strings to strings, with one value per key.
#[derive(Debug)]
pub struct StringMap {
    items: Vec<(String, String)>,
}

impl View for StringMap {
    type V = Map<Seq<char>, Seq<char>>;

    /// The map from each key to its value, without the order.
    open spec fn view(&self) -> Map<Seq<char>, Seq<char>> {
        to_map(self.entries())
    }
}

impl StringMap {
    /// The keys with their values, in the order in which the keys came in.
    pub closed spec fn entries(&self) -> Seq<(Seq<char>, Seq<char>)> {
        views_of(self.items@)
    }

    /// No key is held twice.
    #[verifier::type_invariant]
    pub open spec fn wf(&self) -> bool {
        keys_unique(self.entries())
    }

    /// An empty map.
    pub fn new() -> (map: StringMap)
        ensures
            map.entries() == Seq::<(Seq<char>, Seq<char>)>::empty(),
            map@ == Map::<Seq<char>, Seq<char>>::empty(),
    {
        let map = StringMap { items: Vec::new() };
        assert(map@ =~= Map::<Seq<char>, Seq<char>>::empty());
        map
    }

    /// The number of entries, which is the number of keys.
    pub fn len(&self) -> (n: usize)
        ensures
            n == self.entries().len(),
            n == self@.len(),
    {
        proof {
            use_type_invariant(self);
            lemma_to_map_len(self.entries());
        }
        self.items.len()
    }

    /// Whether the map holds no entry.
    pub fn is_empty(&self) -> (empty: bool)
        ensures
            empty == (self.entries().len() == 0),
            empty == (self@.len() == 0),
    {
        proof {
            use_type_invariant(self);
            lemma_to_map_len(self.entries());
        }
        self.items.len() == 0
    }

    /// The key and the value of the entry at position `i`, if there are
    /// more than `i` entries.
    pub fn entry(&self, i: usize) -> (entry: Option<(&String, &String)>)
        ensures
            match entry {
                Some((key, value)) => i < self.entries().len() && (key@, value@)
                    == self.entries()[i as int],
                None => i >= self.entries().len(),
            },
    {
        if i < self.items.len() {
            Some((&self.items[i].0, &self.items[i].1))
        } else {
            None
        }
    }

    /// The position of the entry with the key `key`.
    fn position(&self, key: &String) -> (found: Option<usize>)
        ensures
            match found {
                Some(i) => i < self.entries().len() && self.entries()[i as int].0 == key@,
                None => !has_key(self.entries(), key@),
            },
    {
        let mut i: usize = 0;
        while i < self.items.len()
            invariant
                i <= self.items.len(),
                forall|j: int| 0 <= j < i ==> (#[trigger] self.entries()[j]).0 != key@,
            decreases self.items.len() - i,
        {
            if self.items[i].0 == *key {
                return Some(i);
            }
            i += 1;
        }
        None
    }

    /// The value held for `key`, if there is one.
    pub fn get(&self, key: &str) -> (value: Option<&String>)
        ensures
            match value {
                Some(v) => self@.contains_key(key@) && v@ == self@[key@],
                None => !self@.contains_key(key@),
            },
    {
        let key = String::from_str(key);
        match self.position(&key) {
            Some(i) => {
                proof {
                    use_type_invariant(self);
                    lemma_to_map_entry(self.entries(), i as int);
                }
                Some(&self.items[i].1)
            },
            None => None,
        }
    }

    /// Gives `key` the value `value` and returns the value it had before.
    /// A key that the map holds keeps its place; a new key comes last.
    pub fn insert(&mut self, key: String, value: String) -> (previous: Option<String>)
        ensures
            final(self).entries() == put(old(self).entries(), key@, value@),
            final(self)@ == old(self)@.insert(key@, value@),
            match previous {
                Some(p) => old(self)@.contains_key(key@) && p@ == old(self)@[key@],
                None => !old(self)@.contains_key(key@),
            },
    {
        let found = self.position(&key);
        proof {
            use_type_invariant(&*self);
            lemma_put(self.entries(), key@, value@);
        }
        let ghost before = self.entries();
        let mut items: Vec<(String, String)> = Vec::new();
        core::mem::swap(&mut items, &mut self.items);
        match found {
            Some(i) => {
                proof {
                    lemma_to_map_entry(before, i as int);
                }
                let mut value = value;
                let ghost new_value = value@;
                core::mem::swap(&mut items[i].1, &mut value);
                assert(views_of(items@) =~= put(before, key@, new_value)) by {
                    assert forall|j: int| 0 <= j < before.len() && j != i implies (
                    #[trigger] before[j]).0 != key@ by {
                        assert(before[i as int].0 == key@);
                    }
                }
                self.items = items;
                Some(value)
            },
            None => {
                items.push((key, value));
                assert(views_of(items@) =~= put(before, key@, value@));
                self.items = items;
                None
            },
        }
    }
}

impl PartialEq for StringMap {
    /// Two maps are equal when they hold the same values for the same keys,
    /// in whatever order.
    fn eq(&self, other: &StringMap) -> (equal: bool) {
        let forth = self.within(other);
        let back = other.within(self);
        assert(forth && back ==> self@ =~= other@);
        forth && back
    }
}

impl PartialEqSpecImpl for StringMap {
    open spec fn obeys_eq_spec() -> bool {
        true
    }

    open spec fn eq_spec(&self, other: &StringMap) -> bool {
        self@ == other@
    }
}

impl StringMap {
    /// Whether `other` holds every key of this map, with the same value.
    fn within(&self, other: &StringMap) -> (all: bool)
        ensures
            all == self@.submap_of(other@),
    {
        proof {
            use_type_invariant(self);
        }
        let mut i: usize = 0;
        while i < self.items.len()
            invariant
                i <= self.items.len(),
                keys_unique(self.entries()),
                forall|j: int|
                    0 <= j < i ==> {
                        &&& other@.contains_key((#[trigger] self.entries()[j]).0)
                        &&& other@[self.entries()[j].0] == self.entries()[j].1
                    },
            decreases self.items.len() - i,
        {
            proof {
                lemma_to_map_entry(self.entries(), i as int);
            }
            match other.get(self.items[i].0.as_str()) {
                Some(v) => {
                    if *v != self.items[i].1 {
                        return false;
                    }
                },
                None => {
                    return false;
                },
            }
            i += 1;
        }
        proof {
            assert forall|k: Seq<char>| self@.contains_key(k) implies #[trigger] other@.contains_key(
                k,
            ) && self@[k] == other@[k] by {
                let j = choose|j: int| 0 <= j < self.entries().len() && #[trigger] self.entries()[j].0
                    == k;
                lemma_to_map_entry(self.entries(), j);
            }
        }
        true
    }
}

} // verus!
