//! A string-keyed map that can be walked.
//!
//! The entries lie in two parallel vectors, keys and values, in no
//! particular order; a hash map sends each key to its position. Lookup,
//! insertion and removal each take one or two hash operations, and the
//! entries can be read by position.

use vstd::hash_map::StringHashMap;
use vstd::prelude::*;

verus! {

pub(crate) struct StringTable<V> {
    keys: Vec<String>,
    vals: Vec<V>,
    slots: StringHashMap<usize>,
}

impl<V> View for StringTable<V> {
    type V = Map<Seq<char>, V>;

    /// The table as a map: each key that has a position, with the value
    /// that lies there.
    closed spec fn view(&self) -> Map<Seq<char>, V> {
        Map::new(
            |k: Seq<char>| self.slots@.contains_key(k),
            |k: Seq<char>| self.vals@[self.slots@[k] as int],
        )
    }
}

impl<V> StringTable<V> {
    /// Positions and keys agree: the key at position `i` is sent to `i`,
    /// and each key that has a position lies there.
    pub(crate) closed spec fn wf(&self) -> bool {
        &&& self.keys@.len() == self.vals@.len()
        &&& forall|i: int|
            #![trigger self.keys@[i]]
            0 <= i < self.keys@.len() ==> self.slots@.contains_key(self.keys@[i]@)
                && self.slots@[self.keys@[i]@] == i
        &&& forall|k: Seq<char>| #[trigger]
            self.slots@.contains_key(k) ==> self.slots@[k] < self.keys@.len()
                && self.keys@[self.slots@[k] as int]@ == k
    }

    /// The keys by position.
    pub(crate) closed spec fn key_seq(&self) -> Seq<Seq<char>> {
        Seq::new(self.keys@.len(), |i: int| self.keys@[i]@)
    }

    /// The positions enumerate the keys of the map, each once.
    pub(crate) proof fn lemma_key_seq(&self)
        requires
            self.wf(),
        ensures
            self.key_seq().no_duplicates(),
            forall|i: int|
                0 <= i < self.key_seq().len() ==> self@.contains_key(#[trigger] self.key_seq()[i]),
            forall|k: Seq<char>| #[trigger]
                self@.contains_key(k) ==> exists|i: int|
                    0 <= i < self.key_seq().len() && self.key_seq()[i] == k,
    {
        assert forall|k: Seq<char>| #[trigger] self@.contains_key(k) implies exists|i: int|
            0 <= i < self.key_seq().len() && self.key_seq()[i] == k by {
            let i = self.slots@[k] as int;
            assert(self.key_seq()[i] == k);
        }
    }

    pub(crate) fn new() -> (t: Self)
        ensures
            t.wf(),
            t@ == Map::<Seq<char>, V>::empty(),
            t.key_seq().len() == 0,
    {
        let t = StringTable { keys: Vec::new(), vals: Vec::new(), slots: StringHashMap::new() };
        assert(t@ =~= Map::<Seq<char>, V>::empty());
        t
    }

    /// The number of entries.
    pub(crate) fn len(&self) -> (n: usize)
        requires
            self.wf(),
        ensures
            n == self.key_seq().len(),
    {
        self.keys.len()
    }

    /// The key at position `i`.
    pub(crate) fn key_at(&self, i: usize) -> (k: &String)
        requires
            self.wf(),
            i < self.key_seq().len(),
        ensures
            k@ == self.key_seq()[i as int],
    {
        &self.keys[i]
    }

    /// The value at position `i`, which is the value of the key there.
    pub(crate) fn value_at(&self, i: usize) -> (v: &V)
        requires
            self.wf(),
            i < self.key_seq().len(),
        ensures
            self@.contains_key(self.key_seq()[i as int]),
            *v == self@[self.key_seq()[i as int]],
    {
        assert(self.slots@[self.keys@[i as int]@] == i);
        &self.vals[i]
    }

    pub(crate) fn get(&self, key: &str) -> (out: Option<&V>)
        requires
            self.wf(),
        ensures
            match out {
                Some(v) => self@.contains_key(key@) && *v == self@[key@],
                None => !self@.contains_key(key@),
            },
    {
        match self.slots.get(key) {
            Some(i) => Some(&self.vals[*i]),
            None => None,
        }
    }

    /// Puts `value` under `key`, in place of what was there.
    pub(crate) fn insert(&mut self, key: String, value: V)
        requires
            old(self).wf(),
        ensures
            final(self).wf(),
            final(self)@ == old(self)@.insert(key@, value),
    {
        match self.slots.get(key.as_str()) {
            Some(i) => {
                let i: usize = *i;
                self.vals[i] = value;
            },
            None => {
                let i: usize = self.keys.len();
                self.slots.insert(key.clone(), i);
                self.keys.push(key);
                self.vals.push(value);
            },
        }
        assert(self@ =~= old(self)@.insert(key@, value));
    }

    /// Takes `key` out, with its value if it had one. The entry that lay
    /// last moves into the freed position.
    pub(crate) fn remove(&mut self, key: &str) -> (out: Option<V>)
        requires
            old(self).wf(),
        ensures
            final(self).wf(),
            final(self)@ == old(self)@.remove(key@),
            match out {
                Some(v) => old(self)@.contains_key(key@) && v == old(self)@[key@],
                None => !old(self)@.contains_key(key@),
            },
    {
        let i: usize = match self.slots.get(key) {
            Some(i) => *i,
            None => {
                assert(self@ =~= old(self)@.remove(key@));
                return None;
            },
        };
        self.slots.remove(key);
        self.keys.swap_remove(i);
        let value = self.vals.swap_remove(i);
        if i < self.keys.len() {
            let moved = self.keys[i].clone();
            self.slots.insert(moved, i);
        }
        assert(self@ =~= old(self)@.remove(key@));
        Some(value)
    }
}

} // verus!
