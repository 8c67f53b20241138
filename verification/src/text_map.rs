//! A map keyed by strings, kept as a list of entries with distinct keys.

use vstd::prelude::*;
use crate::ledger::Text;

verus! {

struct Entry<V> {
    key: String,
    value: V,
}

/// A finite map from strings to values. Its view is a map keyed by the
/// strings' character sequences.
pub struct TextMap<V> {
    entries: Vec<Entry<V>>,
}

/// Whether the entry at `i` has the key `key`.
spec fn slot<V>(entries: Seq<Entry<V>>, i: int, key: Text) -> bool {
    0 <= i < entries.len() && entries[i].key@ == key
}

/// No two entries share a key.
spec fn distinct_keys<V>(entries: Seq<Entry<V>>) -> bool {
    forall|i: int, j: int|
        0 <= i < j < entries.len() ==> (#[trigger] entries[i]).key@ != (#[trigger] entries[j]).key@
}

/// The map that a list of entries stands for.
spec fn as_map<V>(entries: Seq<Entry<V>>) -> Map<Text, V> {
    Map::new(
        |key: Text| exists|i: int| slot(entries, i, key),
        |key: Text| entries[choose|i: int| slot(entries, i, key)].value,
    )
}

/// With distinct keys, the entry at `i` is the one that the map has under
/// its key.
proof fn lemma_entry<V>(entries: Seq<Entry<V>>, i: int)
    requires
        distinct_keys(entries),
        0 <= i < entries.len(),
    ensures
        as_map(entries).contains_key(entries[i].key@),
        as_map(entries)[entries[i].key@] == entries[i].value,
{
    let key = entries[i].key@;
    assert(slot(entries, i, key));
    let k = choose|k: int| slot(entries, k, key);
    assert(k == i);
}

/// An entry with a new key, put at the end of the list, is an insertion
/// into the map.
proof fn lemma_push<V>(entries: Seq<Entry<V>>, entry: Entry<V>)
    requires
        distinct_keys(entries),
        !as_map(entries).contains_key(entry.key@),
    ensures
        distinct_keys(entries.push(entry)),
        as_map(entries.push(entry)) == as_map(entries).insert(entry.key@, entry.value),
{
    let after = entries.push(entry);
    assert forall|i: int, j: int| 0 <= i < j < after.len() implies (#[trigger] after[i]).key@
        != (#[trigger] after[j]).key@ by {
        if j == entries.len() {
            assert(!slot(entries, i, entry.key@));
        }
    }
    assert forall|key: Text|
        as_map(after).contains_key(key) <==> as_map(entries).contains_key(key) || key
            == entry.key@ by {
        if as_map(after).contains_key(key) {
            let j = choose|j: int| slot(after, j, key);
            if j < entries.len() {
                assert(slot(entries, j, key));
            }
        }
        if as_map(entries).contains_key(key) {
            let j = choose|j: int| slot(entries, j, key);
            assert(slot(after, j, key));
        }
        if key == entry.key@ {
            assert(slot(after, entries.len() as int, key));
        }
    }
    assert forall|key: Text| as_map(after).contains_key(key) implies as_map(after)[key] == as_map(
        entries,
    ).insert(entry.key@, entry.value)[key] by {
        let j = choose|j: int| slot(after, j, key);
        lemma_entry(after, j);
        if j < entries.len() {
            lemma_entry(entries, j);
        }
    }
    assert(as_map(after) =~= as_map(entries).insert(entry.key@, entry.value));
}

/// Taking the entry at `i` out of the list, with the last entry moved into
/// its place, is a removal from the map.
proof fn lemma_swap_remove<V>(entries: Seq<Entry<V>>, i: int)
    requires
        distinct_keys(entries),
        0 <= i < entries.len(),
    ensures
        distinct_keys(entries.update(i, entries.last()).drop_last()),
        as_map(entries.update(i, entries.last()).drop_last()) == as_map(entries).remove(
            entries[i].key@,
        ),
{
    let after = entries.update(i, entries.last()).drop_last();
    let last = entries.len() - 1;
    let gone = entries[i].key@;
    assert forall|key: Text|
        as_map(after).contains_key(key) <==> as_map(entries).contains_key(key) && key != gone by {
        if as_map(after).contains_key(key) {
            let j = choose|j: int| slot(after, j, key);
            if j == i {
                assert(slot(entries, last, key));
            } else {
                assert(slot(entries, j, key));
            }
        }
        if as_map(entries).contains_key(key) && key != gone {
            let j = choose|j: int| slot(entries, j, key);
            if j == last {
                assert(slot(after, i, key));
            } else {
                assert(slot(after, j, key));
            }
        }
    }
    assert forall|key: Text| as_map(after).contains_key(key) implies as_map(after)[key] == as_map(
        entries,
    )[key] by {
        let j = choose|j: int| slot(after, j, key);
        lemma_entry(after, j);
        if j == i {
            lemma_entry(entries, last);
        } else {
            lemma_entry(entries, j);
        }
    }
    assert(as_map(after) =~= as_map(entries).remove(gone));
}

impl<V> View for TextMap<V> {
    type V = Map<Text, V>;

    closed spec fn view(&self) -> Map<Text, V> {
        as_map(self.entries@)
    }
}

impl<V> TextMap<V> {
    #[verifier::type_invariant]
    spec fn keyed_once(&self) -> bool {
        distinct_keys(self.entries@)
    }

    /// The keys in the order of the entries.
    pub closed spec fn keys(&self) -> Seq<Text> {
        Seq::new(self.entries@.len(), |i: int| self.entries@[i].key@)
    }

    /// The empty map.
    pub fn new() -> (m: Self)
        ensures
            m@ == Map::<Text, V>::empty(),
    {
        let m = TextMap { entries: Vec::new() };
        assert(m@ =~= Map::<Text, V>::empty());
        m
    }

    /// Where the entry for `key` stands, if there is one.
    fn find(&self, key: &String) -> (r: Option<usize>)
        ensures
            match r {
                Some(i) => slot(self.entries@, i as int, key@),
                None => !self@.contains_key(key@),
            },
    {
        let mut i: usize = 0;
        while i < self.entries.len()
            invariant
                i <= self.entries@.len(),
                forall|j: int| 0 <= j < i ==> !slot(self.entries@, j, key@),
            decreases self.entries@.len() - i,
        {
            if self.entries[i].key == *key {
                return Some(i);
            }
            i += 1;
        }
        None
    }

    /// Whether the map has a value under `key`.
    pub fn contains_key(&self, key: &String) -> (found: bool)
        ensures
            found == self@.contains_key(key@),
    {
        self.find(key).is_some()
    }

    /// The value under `key`, if there is one.
    pub fn get(&self, key: &String) -> (r: Option<&V>)
        ensures
            match r {
                Some(value) => self@.contains_key(key@) && *value == self@[key@],
                None => !self@.contains_key(key@),
            },
    {
        proof {
            use_type_invariant(self);
        }
        match self.find(key) {
            Some(i) => {
                proof {
                    lemma_entry(self.entries@, i as int);
                }
                Some(&self.entries[i].value)
            },
            None => None,
        }
    }

    /// The values, one for each key, in the order of `keys`.
    pub fn values(&self) -> (all: Vec<&V>)
        ensures
            self.keys().no_duplicates(),
            self.keys().to_set() == self@.dom(),
            all@.len() == self.keys().len(),
            forall|i: int|
                0 <= i < all@.len() ==> self@.contains_key(#[trigger] self.keys()[i]) && *all@[i]
                    == self@[self.keys()[i]],
    {
        proof {
            use_type_invariant(self);
        }
        let mut all: Vec<&V> = Vec::new();
        let mut i: usize = 0;
        while i < self.entries.len()
            invariant
                i <= self.entries@.len(),
                all@.len() == i,
                forall|j: int| 0 <= j < i ==> *#[trigger] all@[j] == self.entries@[j].value,
            decreases self.entries@.len() - i,
        {
            all.push(&self.entries[i].value);
            i += 1;
        }
        proof {
            let keys = self.keys();
            assert forall|j: int| 0 <= j < keys.len() implies self@.contains_key(
                #[trigger] keys[j],
            ) && *all@[j] == self@[keys[j]] by {
                lemma_entry(self.entries@, j);
            }
            assert forall|key: Text| keys.to_set().contains(key) <==> self@.dom().contains(key) by {
                if keys.contains(key) {
                    let j = choose|j: int| 0 <= j < keys.len() && keys[j] == key;
                    assert(slot(self.entries@, j, key));
                }
                if self@.contains_key(key) {
                    let j = choose|j: int| slot(self.entries@, j, key);
                    assert(keys[j] == key);
                }
            }
            assert(keys.to_set() =~= self@.dom());
        }
        all
    }

    /// Puts `value` under `key`, in place of the value that was there, if
    /// any.
    pub fn insert(&mut self, key: String, value: V)
        ensures
            final(self)@ == old(self)@.insert(key@, value),
    {
        proof {
            use_type_invariant(&*self);
        }
        let found = self.find(&key);
        let mut entries: Vec<Entry<V>> = Vec::new();
        std::mem::swap(&mut entries, &mut self.entries);
        if let Some(i) = found {
            proof {
                lemma_swap_remove(entries@, i as int);
            }
            entries.swap_remove(i);
        }
        let entry = Entry { key, value };
        proof {
            lemma_push(entries@, entry);
            assert(old(self)@.remove(key@).insert(key@, value) =~= old(self)@.insert(key@, value));
        }
        entries.push(entry);
        self.entries = entries;
    }

    /// Takes the entry for `key` out of the map and hands back its value, if
    /// there was one.
    pub fn remove(&mut self, key: &String) -> (r: Option<V>)
        ensures
            final(self)@ == old(self)@.remove(key@),
            match r {
                Some(value) => old(self)@.contains_key(key@) && value == old(self)@[key@],
                None => !old(self)@.contains_key(key@),
            },
    {
        proof {
            use_type_invariant(&*self);
        }
        match self.find(key) {
            Some(i) => {
                proof {
                    lemma_entry(self.entries@, i as int);
                    lemma_swap_remove(self.entries@, i as int);
                }
                let mut entries: Vec<Entry<V>> = Vec::new();
                std::mem::swap(&mut entries, &mut self.entries);
                let entry = entries.swap_remove(i);
                self.entries = entries;
                Some(entry.value)
            },
            None => {
                assert(self@.remove(key@) =~= self@);
                None
            },
        }
    }
}

} // verus!
