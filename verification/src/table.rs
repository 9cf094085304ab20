//! A table keyed by byte strings: filehandles, device identifiers, state identifiers.

use bytes::Bytes;
use vstd::prelude::*;

use crate::buffer::{as_slice, contents};

verus! {

/// Whether two slices hold the same bytes.
pub fn equal_bytes(left: &[u8], right: &[u8]) -> (same: bool)
    ensures
        same == (left@ == right@),
{
    if left.len() != right.len() {
        return false;
    }
    let mut i: usize = 0;
    while i < left.len()
        invariant
            i <= left@.len(),
            left@.len() == right@.len(),
            left@.take(i as int) == right@.take(i as int),
        decreases left.len() - i,
    {
        if left[i] != right[i] {
            return false;
        }
        assert(left@.take(i + 1) =~= left@.take(i as int).push(left@[i as int]));
        assert(right@.take(i + 1) =~= right@.take(i as int).push(right@[i as int]));
        i += 1;
    }
    assert(left@.take(left@.len() as int) =~= left@);
    assert(right@.take(right@.len() as int) =~= right@);
    true
}

/// A key and its value.
pub struct Entry<V> {
    pub key: Bytes,
    pub value: V,
}

/// Values by key. No key stands in it twice.
pub struct Table<V> {
    pub entries: Vec<Entry<V>>,
}

impl<V> Table<V> {
    /// The key of the entry at a position.
    pub open spec fn key_at(self, i: int) -> Seq<u8> {
        contents(self.entries@[i].key)
    }

    /// No key stands in the table twice.
    pub open spec fn wf(self) -> bool {
        forall|i: int, j: int|
            0 <= i < j < self.entries@.len() ==> #[trigger] self.key_at(i) != #[trigger] self.key_at(
                j,
            )
    }

    /// Whether an entry has the key.
    pub open spec fn has(self, key: Seq<u8>) -> bool {
        exists|i: int| 0 <= i < self.entries@.len() && #[trigger] self.key_at(i) == key
    }

    /// The position of the entry with the key.
    pub open spec fn slot(self, key: Seq<u8>) -> int {
        choose|i: int| 0 <= i < self.entries@.len() && #[trigger] self.key_at(i) == key
    }
}

impl<V> View for Table<V> {
    type V = Map<Seq<u8>, V>;

    open spec fn view(&self) -> Map<Seq<u8>, V> {
        Map::new(|key: Seq<u8>| self.has(key), |key: Seq<u8>| self.entries@[self.slot(key)].value)
    }
}

impl<V> Table<V> {
    /// What stands at a position is what the table maps its key to.
    pub proof fn lemma_entry(self, i: int)
        requires
            self.wf(),
            0 <= i < self.entries@.len(),
        ensures
            self@.contains_key(self.key_at(i)),
            self@[self.key_at(i)] == self.entries@[i].value,
            self.slot(self.key_at(i)) == i,
    {
        assert(self.has(self.key_at(i)));
        let j = self.slot(self.key_at(i));
        assert(self.key_at(j) == self.key_at(i));
        if j < i {
            assert(self.key_at(j) != self.key_at(i));
        } else if i < j {
            assert(self.key_at(i) != self.key_at(j));
        }
    }

    pub fn new() -> (table: Self)
        ensures
            table.wf(),
            table@ == Map::<Seq<u8>, V>::empty(),
    {
        let table = Table { entries: Vec::new() };
        assert(table@ =~= Map::<Seq<u8>, V>::empty());
        table
    }

    /// The position of a key.
    pub fn find(&self, key: &[u8]) -> (position: Option<usize>)
        requires
            self.wf(),
        ensures
            match position {
                Some(i) => i < self.entries@.len() && self.key_at(i as int) == key@
                    && self@.contains_key(key@) && self@[key@] == self.entries@[i as int].value,
                None => !self@.contains_key(key@),
            },
    {
        let mut i: usize = 0;
        while i < self.entries.len()
            invariant
                self.wf(),
                i <= self.entries@.len(),
                forall|j: int| 0 <= j < i ==> #[trigger] self.key_at(j) != key@,
            decreases self.entries.len() - i,
        {
            if equal_bytes(as_slice(&self.entries[i].key), key) {
                proof {
                    self.lemma_entry(i as int);
                }
                return Some(i);
            }
            assert(self.key_at(i as int) != key@);
            i += 1;
        }
        None
    }

    /// The value of a key.
    pub fn get(&self, key: &[u8]) -> (value: Option<&V>)
        requires
            self.wf(),
        ensures
            match value {
                Some(value) => self@.contains_key(key@) && *value == self@[key@],
                None => !self@.contains_key(key@),
            },
    {
        match self.find(key) {
            Some(i) => Some(&self.entries[i].value),
            None => None,
        }
    }

    /// Gives the entry at a position another value.
    pub fn set_at(&mut self, i: usize, value: V)
        requires
            old(self).wf(),
            i < old(self).entries@.len(),
        ensures
            final(self).wf(),
            final(self)@ == old(self)@.insert(old(self).key_at(i as int), value),
            final(self).entries@.len() == old(self).entries@.len(),
            forall|j: int|
                0 <= j < old(self).entries@.len() ==> #[trigger] final(self).key_at(j) == old(
                    self,
                ).key_at(j),
            final(self).entries@[i as int].value == value,
    {
        let ghost before = *self;
        self.entries[i].value = value;
        proof {
            assert forall|j: int| 0 <= j < before.entries@.len() implies #[trigger] self.key_at(j)
                == before.key_at(j) by {}
            assert forall|a: int, b: int| 0 <= a < b < self.entries@.len() implies
                #[trigger] self.key_at(a) != #[trigger] self.key_at(b) by {
                assert(before.key_at(a) != before.key_at(b));
            }
            lemma_same_keys(before, *self);
            let key = before.key_at(i as int);
            assert forall|k: Seq<u8>| before@.insert(key, value).contains_key(k) implies
                #[trigger] self@[k] == before@.insert(key, value)[k] by {
                before.lemma_entry(i as int);
                self.lemma_entry(i as int);
                let j = before.slot(k);
                if k != key {
                    assert(before.key_at(j) == k);
                    before.lemma_entry(j);
                    assert(self.key_at(j) == k);
                    self.lemma_entry(j);
                }
            }
            before.lemma_entry(i as int);
            assert(self@ =~= before@.insert(key, value));
        }
    }

    /// Gives a key a value, in place of the one it had.
    pub fn put(&mut self, key: Bytes, value: V)
        requires
            old(self).wf(),
        ensures
            final(self).wf(),
            final(self)@ == old(self)@.insert(contents(key), value),
    {
        match self.find(as_slice(&key)) {
            Some(i) => self.set_at(i, value),
            None => {
                let ghost before = *self;
                let ghost added = contents(key);
                let ghost n = self.entries@.len() as int;
                self.entries.push(Entry { key, value });
                proof {
                    assert forall|j: int| 0 <= j < n implies #[trigger] self.key_at(j)
                        == before.key_at(j) by {}
                    assert(self.key_at(n) == added);
                    assert forall|a: int, b: int| 0 <= a < b < self.entries@.len() implies
                        #[trigger] self.key_at(a) != #[trigger] self.key_at(b) by {
                        if b == n {
                            assert(before.key_at(a) == self.key_at(a));
                            assert(before.has(self.key_at(a)));
                        } else {
                            assert(before.key_at(a) != before.key_at(b));
                        }
                    }
                    assert forall|k: Seq<u8>| self@.contains_key(k) == before@.insert(
                        added,
                        value,
                    ).contains_key(k) by {
                        if self.has(k) {
                            let j = self.slot(k);
                            if j < n {
                                assert(before.key_at(j) == k);
                            }
                        }
                        if before.has(k) {
                            assert(self.key_at(before.slot(k)) == k);
                        }
                    }
                    assert forall|k: Seq<u8>| before@.insert(added, value).contains_key(k) implies
                        #[trigger] self@[k] == before@.insert(added, value)[k] by {
                        if k == added {
                            self.lemma_entry(n);
                        } else {
                            let j = before.slot(k);
                            assert(before.key_at(j) == k);
                            assert(self.key_at(j) == k);
                            self.lemma_entry(j);
                        }
                    }
                    assert(self@ =~= before@.insert(added, value));
                }
            },
        }
    }

    /// Takes the entry at a position out.
    pub fn remove_at(&mut self, i: usize) -> (entry: Entry<V>)
        requires
            old(self).wf(),
            i < old(self).entries@.len(),
        ensures
            final(self).wf(),
            entry == old(self).entries@[i as int],
            final(self).entries@ == old(self).entries@.remove(i as int),
            final(self)@ == old(self)@.remove(old(self).key_at(i as int)),
    {
        let ghost before = *self;
        let ghost key = self.key_at(i as int);
        let entry = self.entries.remove(i);
        proof {
            let gone = i as int;
            assert forall|j: int| 0 <= j < self.entries@.len() implies #[trigger] self.key_at(j)
                == before.key_at(if j < gone { j } else { j + 1 }) by {}
            assert forall|a: int, b: int| 0 <= a < b < self.entries@.len() implies
                #[trigger] self.key_at(a) != #[trigger] self.key_at(b) by {
                let x = if a < gone { a } else { a + 1 };
                let y = if b < gone { b } else { b + 1 };
                assert(before.key_at(x) != before.key_at(y));
            }
            assert forall|k: Seq<u8>| self@.contains_key(k) == before@.remove(key).contains_key(k) by {
                if self.has(k) {
                    let j = self.slot(k);
                    let x = if j < gone { j } else { j + 1 };
                    assert(before.key_at(x) == k);
                    before.lemma_entry(x);
                    before.lemma_entry(gone);
                }
                if before.has(k) && k != key {
                    let j = before.slot(k);
                    assert(before.key_at(j) == k);
                    let y = if j < gone { j } else { j - 1 };
                    assert(self.key_at(y) == k);
                }
            }
            assert forall|k: Seq<u8>| before@.remove(key).contains_key(k) implies #[trigger] self@[k]
                == before@.remove(key)[k] by {
                let j = before.slot(k);
                assert(before.key_at(j) == k);
                let y = if j < gone { j } else { j - 1 };
                assert(self.key_at(y) == k);
                self.lemma_entry(y);
            }
            assert(self@ =~= before@.remove(key));
        }
        entry
    }

    /// Takes a key out and returns its value.
    pub fn remove(&mut self, key: &[u8]) -> (value: Option<V>)
        requires
            old(self).wf(),
        ensures
            final(self).wf(),
            final(self)@ == old(self)@.remove(key@),
            match value {
                Some(value) => old(self)@.contains_key(key@) && value == old(self)@[key@],
                None => !old(self)@.contains_key(key@),
            },
    {
        match self.find(key) {
            Some(i) => Some(self.remove_at(i).value),
            None => {
                assert(self@.remove(key@) =~= self@);
                None
            },
        }
    }

    /// Takes everything out.
    pub fn clear(&mut self)
        ensures
            final(self).wf(),
            final(self)@ == Map::<Seq<u8>, V>::empty(),
            final(self).entries@.len() == 0,
    {
        self.entries.clear();
        assert(self@ =~= Map::<Seq<u8>, V>::empty());
    }
}

/// Tables with the same keys at the same positions have the same keys.
proof fn lemma_same_keys<V>(a: Table<V>, b: Table<V>)
    requires
        a.entries@.len() == b.entries@.len(),
        forall|j: int| 0 <= j < a.entries@.len() ==> #[trigger] b.key_at(j) == a.key_at(j),
    ensures
        forall|k: Seq<u8>| #[trigger] a.has(k) == b.has(k),
{
    assert forall|k: Seq<u8>| #[trigger] a.has(k) == b.has(k) by {
        if a.has(k) {
            assert(b.key_at(a.slot(k)) == k);
        }
        if b.has(k) {
            assert(a.key_at(b.slot(k)) == k);
        }
    }
}


/// The part of a map that does not lead to a value.
pub open spec fn without_value(map: Map<Seq<u8>, u64>, value: u64) -> Map<Seq<u8>, u64> {
    Map::new(|key: Seq<u8>| map.contains_key(key) && map[key] != value, |key: Seq<u8>| map[key])
}

impl Table<u64> {
    /// Takes out every key that leads to a value.
    pub fn remove_value(&mut self, value: u64)
        requires
            old(self).wf(),
        ensures
            final(self).wf(),
            final(self)@ == without_value(old(self)@, value),
    {
        let mut i: usize = 0;
        while i < self.entries.len()
            invariant
                self.wf(),
                i <= self.entries@.len(),
                forall|k: Seq<u8>| #[trigger]
                    self@.contains_key(k) ==> old(self)@.contains_key(k) && self@[k] == old(self)@[k],
                forall|k: Seq<u8>| #[trigger]
                    old(self)@.contains_key(k) && old(self)@[k] != value ==> self@.contains_key(k),
                forall|j: int| 0 <= j < i ==> (#[trigger] self.entries@[j]).value != value,
            decreases self.entries.len() - i,
        {
            proof {
                self.lemma_entry(i as int);
            }
            if self.entries[i].value == value {
                let _ = self.remove_at(i);
            } else {
                i += 1;
            }
        }
        proof {
            assert forall|k: Seq<u8>| #[trigger] self@.contains_key(k) implies self@[k] != value by {
                let j = self.slot(k);
                assert(self.key_at(j) == k);
                self.lemma_entry(j);
                assert(self.entries@[j].value != value);
            }
            assert(self@ =~= without_value(old(self)@, value));
        }
    }
}

} // verus!
