//! A small map from token account ids to values, kept as a vector of
//! entries with distinct keys. Its abstract view is a `Map` from the key's
//! characters to the value.
use vstd::prelude::*;

verus! {

/// Map from a token account id to a value, with at most one entry per id.
pub struct TokenMap<V> {
    entries: Vec<(String, V)>,
    contents: Ghost<Map<Seq<char>, V>>,
}

impl<V: Copy> TokenMap<V> {
    /// The abstract contents: token id characters to value.
    pub closed spec fn view(&self) -> Map<Seq<char>, V> {
        self.contents@
    }

    /// Internal consistency between the entries and the abstract contents.
    pub closed spec fn wf(&self) -> bool {
        &&& forall|i: int, j: int|
            0 <= i < j < self.entries@.len() ==> #[trigger] self.entries@[i].0@
                != #[trigger] self.entries@[j].0@
        &&& forall|i: int|
            0 <= i < self.entries@.len() ==> self.contents@.contains_key(
                #[trigger] self.entries@[i].0@,
            ) && self.contents@[self.entries@[i].0@] == self.entries@[i].1
        &&& forall|k: Seq<char>|
            #[trigger] self.contents@.contains_key(k) ==> exists|i: int|
                0 <= i < self.entries@.len() && #[trigger] self.entries@[i].0@ == k
    }

    /// The keys in entry order.
    pub closed spec fn key_seq(&self) -> Seq<Seq<char>> {
        self.entries@.map_values(|e: (String, V)| e.0@)
    }

    /// An empty map.
    pub fn new() -> (m: Self)
        ensures
            m.wf(),
            m.view() == Map::<Seq<char>, V>::empty(),
    {
        TokenMap { entries: Vec::new(), contents: Ghost(Map::empty()) }
    }

    /// Number of entries.
    pub fn len(&self) -> (n: usize)
        requires
            self.wf(),
        ensures
            n == self.view().len(),
            n == self.key_seq().len(),
    {
        proof {
            self.lemma_len();
        }
        self.entries.len()
    }

    proof fn lemma_len(&self)
        requires
            self.wf(),
        ensures
            self.view().len() == self.entries@.len(),
            self.view().dom().finite(),
            self.key_seq().len() == self.entries@.len(),
            self.key_seq().to_set() == self.view().dom(),
    {
        let keys = self.key_seq();
        assert(keys.no_duplicates()) by {
            assert forall|i: int, j: int|
                0 <= i < keys.len() && 0 <= j < keys.len() && i != j implies keys[i] != keys[j] by {
                if i < j {
                    assert(self.entries@[i].0@ != self.entries@[j].0@);
                } else {
                    assert(self.entries@[j].0@ != self.entries@[i].0@);
                }
            }
        }
        assert(keys.to_set() =~= self.view().dom()) by {
            assert forall|k: Seq<char>| keys.to_set().contains(k) implies self.view().dom().contains(
                k,
            ) by {
                let i = choose|i: int| 0 <= i < keys.len() && keys[i] == k;
                assert(self.entries@[i].0@ == k);
            }
            assert forall|k: Seq<char>| self.view().dom().contains(k) implies keys.to_set().contains(
                k,
            ) by {
                let i = choose|i: int| 0 <= i < self.entries@.len() && self.entries@[i].0@ == k;
                assert(keys[i] == k);
            }
        }
        keys.unique_seq_to_set();
    }

    /// The keys of a well-formed map are distinct and are its domain.
    pub proof fn lemma_keys_distinct(&self)
        requires
            self.wf(),
        ensures
            self.key_seq().no_duplicates(),
            forall|i: int| 0 <= i < self.key_seq().len() ==> self.view().contains_key(#[trigger] self.key_seq()[i]),
            self.key_seq().to_set() == self.view().dom(),
    {
        self.lemma_len();
        let keys = self.key_seq();
        assert forall|i: int, j: int|
            0 <= i < keys.len() && 0 <= j < keys.len() && i != j implies keys[i] != keys[j] by {
            if i < j {
                assert(self.entries@[i].0@ != self.entries@[j].0@);
            } else {
                assert(self.entries@[j].0@ != self.entries@[i].0@);
            }
        }
        assert forall|i: int| 0 <= i < keys.len() implies self.view().contains_key(#[trigger] keys[i]) by {
            assert(self.entries@[i].0@ == keys[i]);
        }
    }

    /// The key of the `i`-th entry.
    pub fn key_at(&self, i: usize) -> (k: &String)
        requires
            self.wf(),
            i < self.key_seq().len(),
        ensures
            k@ == self.key_seq()[i as int],
            self.view().contains_key(k@),
    {
        &self.entries[i].0
    }

    /// The value of the `i`-th entry.
    pub fn value_at(&self, i: usize) -> (v: V)
        requires
            self.wf(),
            i < self.key_seq().len(),
        ensures
            v == self.view()[self.key_seq()[i as int]],
    {
        self.entries[i].1
    }

    /// Position of `key` among the entries, if present.
    fn find(&self, key: &String) -> (r: Option<usize>)
        requires
            self.wf(),
        ensures
            match r {
                Some(i) => i < self.entries@.len() && self.entries@[i as int].0@ == key@,
                None => !self.view().contains_key(key@),
            },
    {
        let mut i: usize = 0;
        while i < self.entries.len()
            invariant
                self.wf(),
                i <= self.entries@.len(),
                forall|j: int| 0 <= j < i ==> self.entries@[j].0@ != key@,
            decreases self.entries@.len() - i,
        {
            if self.entries[i].0 == *key {
                return Some(i);
            }
            i = i + 1;
        }
        proof {
            if self.view().contains_key(key@) {
                let j = choose|j: int| 0 <= j < self.entries@.len() && self.entries@[j].0@ == key@;
                assert(self.entries@[j].0@ == key@);
            }
        }
        None
    }

    /// The value stored for `key`, if any.
    pub fn get(&self, key: &String) -> (r: Option<V>)
        requires
            self.wf(),
        ensures
            r == (if self.view().contains_key(key@) {
                Some(self.view()[key@])
            } else {
                None
            }),
    {
        match self.find(key) {
            Some(i) => Some(self.entries[i].1),
            None => None,
        }
    }

    /// Sets the value for `key`, adding an entry when it is absent.
    pub fn insert(&mut self, key: String, value: V)
        requires
            old(self).wf(),
        ensures
            final(self).wf(),
            final(self).view() == old(self).view().insert(key@, value),
    {
        let ghost k = key@;
        let ghost new_map = self.contents@.insert(k, value);
        match self.find(&key) {
            Some(i) => {
                self.entries.set(i, (key, value));
                self.contents = Ghost(new_map);
                proof {
                    assert forall|a: int, b: int|
                        0 <= a < b < self.entries@.len() implies #[trigger] self.entries@[a].0@
                        != #[trigger] self.entries@[b].0@ by {
                        assert(old(self).entries@[a].0@ != old(self).entries@[b].0@);
                    }
                    assert forall|q: Seq<char>| #[trigger]
                        self.contents@.contains_key(q) implies exists|a: int|
                        0 <= a < self.entries@.len() && #[trigger] self.entries@[a].0@ == q by {
                        if q != k {
                            let a = choose|a: int|
                                0 <= a < old(self).entries@.len() && old(self).entries@[a].0@ == q;
                            assert(self.entries@[a].0@ == q);
                        } else {
                            assert(self.entries@[i as int].0@ == q);
                        }
                    }
                }
            },
            None => {
                self.entries.push((key, value));
                self.contents = Ghost(new_map);
                proof {
                    let n = old(self).entries@.len();
                    assert forall|a: int, b: int|
                        0 <= a < b < self.entries@.len() implies #[trigger] self.entries@[a].0@
                        != #[trigger] self.entries@[b].0@ by {
                        if b < n {
                            assert(old(self).entries@[a].0@ != old(self).entries@[b].0@);
                        } else {
                            assert(old(self).contents@.contains_key(old(self).entries@[a].0@));
                        }
                    }
                    assert forall|q: Seq<char>| #[trigger]
                        self.contents@.contains_key(q) implies exists|a: int|
                        0 <= a < self.entries@.len() && #[trigger] self.entries@[a].0@ == q by {
                        if q != k {
                            let a = choose|a: int|
                                0 <= a < old(self).entries@.len() && old(self).entries@[a].0@ == q;
                            assert(self.entries@[a].0@ == q);
                        } else {
                            assert(self.entries@[n as int].0@ == q);
                        }
                    }
                }
            },
        }
    }

    /// Removes the entry for `key`, if any.
    pub fn remove(&mut self, key: &String)
        requires
            old(self).wf(),
        ensures
            final(self).wf(),
            final(self).view() == old(self).view().remove(key@),
    {
        let ghost k = key@;
        let ghost new_map = self.contents@.remove(k);
        match self.find(key) {
            Some(i) => {
                let ghost old_entries = self.entries@;
                self.entries.remove(i);
                self.contents = Ghost(new_map);
                proof {
                    assert forall|a: int|
                        0 <= a < self.entries@.len() implies #[trigger] self.entries@[a]
                        == old_entries[if a < i { a } else { a + 1 }] by {}
                    assert forall|a: int, b: int|
                        0 <= a < b < self.entries@.len() implies #[trigger] self.entries@[a].0@
                        != #[trigger] self.entries@[b].0@ by {
                        let a0 = if a < i { a } else { a + 1 };
                        let b0 = if b < i { b } else { b + 1 };
                        assert(self.entries@[a] == old_entries[a0]);
                        assert(self.entries@[b] == old_entries[b0]);
                        assert(old_entries[a0].0@ != old_entries[b0].0@);
                    }
                    assert forall|a: int| 0 <= a < self.entries@.len() implies self.contents@.contains_key(
                        #[trigger] self.entries@[a].0@,
                    ) && self.contents@[self.entries@[a].0@] == self.entries@[a].1 by {
                        let a0 = if a < i { a } else { a + 1 };
                        assert(self.entries@[a] == old_entries[a0]);
                        assert(old_entries[a0].0@ != old_entries[i as int].0@);
                    }
                    assert forall|q: Seq<char>| #[trigger]
                        self.contents@.contains_key(q) implies exists|a: int|
                        0 <= a < self.entries@.len() && #[trigger] self.entries@[a].0@ == q by {
                        let a0 = choose|a0: int|
                            0 <= a0 < old_entries.len() && old_entries[a0].0@ == q;
                        assert(a0 != i);
                        let a = if a0 < i { a0 } else { a0 - 1 };
                        assert(self.entries@[a] == old_entries[a0]);
                    }
                }
            },
            None => {
                proof {
                    assert(new_map =~= self.contents@);
                }
            },
        }
    }
}

} // verus!
