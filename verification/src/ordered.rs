//! A table keyed by numbers that is walked in the order of its keys.

use vstd::prelude::*;

verus! {

/// Values by number, the smallest number first.
pub struct OrderedTable<V> {
    pub entries: Vec<(u64, V)>,
}

impl<V> OrderedTable<V> {
    /// The key at a position.
    pub open spec fn key_at(self, i: int) -> u64 {
        self.entries@[i].0
    }

    /// The keys grow from one position to the next.
    pub open spec fn wf(self) -> bool {
        forall|i: int, j: int|
            0 <= i < j < self.entries@.len() ==> #[trigger] self.key_at(i) < #[trigger] self.key_at(j)
    }

    pub open spec fn has(self, key: u64) -> bool {
        exists|i: int| 0 <= i < self.entries@.len() && #[trigger] self.key_at(i) == key
    }

    pub open spec fn slot(self, key: u64) -> int {
        choose|i: int| 0 <= i < self.entries@.len() && #[trigger] self.key_at(i) == key
    }
}

impl<V> View for OrderedTable<V> {
    type V = Map<u64, V>;

    open spec fn view(&self) -> Map<u64, V> {
        Map::new(|key: u64| self.has(key), |key: u64| self.entries@[self.slot(key)].1)
    }
}

impl<V> OrderedTable<V> {
    /// What stands at a position is what the table maps its key to.
    pub proof fn lemma_entry(self, i: int)
        requires
            self.wf(),
            0 <= i < self.entries@.len(),
        ensures
            self@.contains_key(self.key_at(i)),
            self@[self.key_at(i)] == self.entries@[i].1,
            self.slot(self.key_at(i)) == i,
    {
        assert(self.has(self.key_at(i)));
        let j = self.slot(self.key_at(i));
        assert(self.key_at(j) == self.key_at(i));
        if j < i {
            assert(self.key_at(j) < self.key_at(i));
        } else if i < j {
            assert(self.key_at(i) < self.key_at(j));
        }
    }

    pub fn new() -> (table: Self)
        ensures
            table.wf(),
            table@ == Map::<u64, V>::empty(),
            table.entries@.len() == 0,
    {
        let table = OrderedTable { entries: Vec::new() };
        assert(table@ =~= Map::<u64, V>::empty());
        table
    }

    /// The position of the first key that is not smaller.
    fn position(&self, key: u64) -> (at: usize)
        requires
            self.wf(),
        ensures
            at <= self.entries@.len(),
            forall|i: int| 0 <= i < at ==> #[trigger] self.key_at(i) < key,
            forall|i: int| at <= i < self.entries@.len() ==> #[trigger] self.key_at(i) >= key,
    {
        let mut at: usize = 0;
        while at < self.entries.len() && self.entries[at].0 < key
            invariant
                self.wf(),
                at <= self.entries@.len(),
                forall|i: int| 0 <= i < at ==> #[trigger] self.key_at(i) < key,
            decreases self.entries.len() - at,
        {
            assert(self.key_at(at as int) < key);
            at += 1;
        }
        proof {
            assert forall|i: int| at <= i < self.entries@.len() implies #[trigger] self.key_at(i)
                >= key by {
                if i > at {
                    assert(self.key_at(at as int) < self.key_at(i));
                }
            }
        }
        at
    }

    /// The position of a key.
    pub fn find(&self, key: u64) -> (position: Option<usize>)
        requires
            self.wf(),
        ensures
            match position {
                Some(i) => i < self.entries@.len() && self.key_at(i as int) == key
                    && self@.contains_key(key) && self@[key] == self.entries@[i as int].1,
                None => !self@.contains_key(key),
            },
    {
        let at: usize = self.position(key);
        if at < self.entries.len() && self.entries[at].0 == key {
            proof {
                assert(self.key_at(at as int) == key);
                self.lemma_entry(at as int);
            }
            Some(at)
        } else {
            proof {
                if self.has(key) {
                    let i = self.slot(key);
                    assert(self.key_at(i) == key);
                    if i > at {
                        assert(self.key_at(at as int) < self.key_at(i));
                    }
                }
            }
            None
        }
    }

    /// The value of a key.
    pub fn get(&self, key: u64) -> (value: Option<&V>)
        requires
            self.wf(),
        ensures
            match value {
                Some(value) => self@.contains_key(key) && *value == self@[key],
                None => !self@.contains_key(key),
            },
    {
        match self.find(key) {
            Some(i) => Some(&self.entries[i].1),
            None => None,
        }
    }

    /// Gives a key a value, in place of the one it had.
    pub fn put(&mut self, key: u64, value: V)
        requires
            old(self).wf(),
        ensures
            final(self).wf(),
            final(self)@ == old(self)@.insert(key, value),
    {
        let ghost before = *self;
        let at: usize = self.position(key);
        if at < self.entries.len() && self.entries[at].0 == key {
            self.entries[at] = (key, value);
            proof {
                assert(before.key_at(at as int) == key);
                assert forall|i: int| 0 <= i < before.entries@.len() implies #[trigger] self.key_at(i)
                    == before.key_at(i) by {}
                assert forall|a: int, b: int| 0 <= a < b < self.entries@.len() implies
                    #[trigger] self.key_at(a) < #[trigger] self.key_at(b) by {
                    assert(before.key_at(a) < before.key_at(b));
                }
                assert forall|k: u64| self@.contains_key(k) == before@.insert(key, value).contains_key(k)
                    by {
                    if self.has(k) {
                        assert(before.key_at(self.slot(k)) == k);
                    }
                    if before.has(k) {
                        assert(self.key_at(before.slot(k)) == k);
                    }
                    self.lemma_entry(at as int);
                }
                assert forall|k: u64| before@.insert(key, value).contains_key(k) implies
                    #[trigger] self@[k] == before@.insert(key, value)[k] by {
                    if k == key {
                        self.lemma_entry(at as int);
                    } else {
                        let j = before.slot(k);
                        assert(before.key_at(j) == k);
                        before.lemma_entry(j);
                        assert(self.key_at(j) == k);
                        self.lemma_entry(j);
                    }
                }
                assert(self@ =~= before@.insert(key, value));
            }
        } else {
            self.entries.insert(at, (key, value));
            proof {
                let n = at as int;
                assert(!before.has(key)) by {
                    if before.has(key) {
                        let i = before.slot(key);
                        assert(before.key_at(i) == key);
                        if i > n {
                            assert(before.key_at(n) < before.key_at(i));
                        }
                    }
                }
                assert(self.key_at(n) == key);
                assert forall|i: int| 0 <= i < n implies #[trigger] self.key_at(i) == before.key_at(i)
                    by {}
                assert forall|i: int| n < i < self.entries@.len() implies #[trigger] self.key_at(i)
                    == before.key_at(i - 1) by {}
                assert forall|a: int, b: int| 0 <= a < b < self.entries@.len() implies
                    #[trigger] self.key_at(a) < #[trigger] self.key_at(b) by {
                    if a == n {
                        assert(before.key_at(b - 1) >= key);
                        if before.key_at(b - 1) == key {
                            assert(before.has(key));
                        }
                    } else if b == n {
                        assert(before.key_at(a) < key);
                    } else {
                        let x = if a < n { a } else { a - 1 };
                        let y = if b < n { b } else { b - 1 };
                        assert(before.key_at(x) < before.key_at(y));
                    }
                }
                assert forall|k: u64| self@.contains_key(k) == before@.insert(key, value).contains_key(k)
                    by {
                    if self.has(k) && k != key {
                        let j = self.slot(k);
                        let x = if j < n { j } else { j - 1 };
                        assert(before.key_at(x) == k);
                    }
                    if before.has(k) {
                        let j = before.slot(k);
                        assert(before.key_at(j) == k);
                        let y = if j < n { j } else { j + 1 };
                        assert(self.key_at(y) == k);
                    }
                }
                assert forall|k: u64| before@.insert(key, value).contains_key(k) implies
                    #[trigger] self@[k] == before@.insert(key, value)[k] by {
                    if k == key {
                        self.lemma_entry(n);
                    } else {
                        let j = before.slot(k);
                        assert(before.key_at(j) == k);
                        before.lemma_entry(j);
                        let y = if j < n { j } else { j + 1 };
                        assert(self.key_at(y) == k);
                        self.lemma_entry(y);
                    }
                }
                assert(self@ =~= before@.insert(key, value));
            }
        }
    }

    /// Takes a key out and returns its value.
    pub fn remove(&mut self, key: u64) -> (value: Option<V>)
        requires
            old(self).wf(),
        ensures
            final(self).wf(),
            final(self)@ == old(self)@.remove(key),
            match value {
                Some(value) => old(self)@.contains_key(key) && value == old(self)@[key],
                None => !old(self)@.contains_key(key),
            },
    {
        match self.find(key) {
            Some(i) => {
                let ghost before = *self;
                let entry = self.entries.remove(i);
                proof {
                    let gone = i as int;
                    assert forall|j: int| 0 <= j < self.entries@.len() implies #[trigger] self.key_at(j)
                        == before.key_at(if j < gone { j } else { j + 1 }) by {}
                    assert forall|a: int, b: int| 0 <= a < b < self.entries@.len() implies
                        #[trigger] self.key_at(a) < #[trigger] self.key_at(b) by {
                        let x = if a < gone { a } else { a + 1 };
                        let y = if b < gone { b } else { b + 1 };
                        assert(before.key_at(x) < before.key_at(y));
                    }
                    assert forall|k: u64| self@.contains_key(k) == before@.remove(key).contains_key(k) by {
                        if self.has(k) {
                            let j = self.slot(k);
                            let x = if j < gone { j } else { j + 1 };
                            assert(before.key_at(x) == k);
                            before.lemma_entry(x);
                            before.lemma_entry(gone);
                        }
                        if before.has(k) && k != key {
                            let j = before.slot(k);
                            assert(before.key_at(j) == k);
                            let y = if j < gone { j } else { j - 1 };
                            assert(self.key_at(y) == k);
                        }
                    }
                    assert forall|k: u64| before@.remove(key).contains_key(k) implies #[trigger] self@[k]
                        == before@.remove(key)[k] by {
                        let j = before.slot(k);
                        assert(before.key_at(j) == k);
                        let y = if j < gone { j } else { j - 1 };
                        assert(self.key_at(y) == k);
                        self.lemma_entry(y);
                    }
                    assert(self@ =~= before@.remove(key));
                }
                Some(entry.1)
            },
            None => {
                assert(self@.remove(key) =~= self@);
                None
            },
        }
    }

    /// The smallest key that is not taken.
    pub fn fresh_key(&self) -> (key: u64)
        requires
            self.wf(),
        ensures
            !self@.contains_key(key),
            forall|k: u64| k < key ==> self@.contains_key(k),
    {
        let mut i: usize = 0;
        while i < self.entries.len() && self.entries[i].0 == i as u64
            invariant
                self.wf(),
                i <= self.entries@.len(),
                forall|j: int| 0 <= j < i ==> #[trigger] self.key_at(j) == j,
            decreases self.entries.len() - i,
        {
            assert(self.key_at(i as int) == i);
            i += 1;
        }
        proof {
            assert forall|k: u64| k < i implies self@.contains_key(k) by {
                assert(self.key_at(k as int) == k);
            }
            if self.has(i as u64) {
                let j = self.slot(i as u64);
                assert(self.key_at(j) == i);
                if j > i {
                    assert(self.key_at(i as int) < self.key_at(j));
                    if i > 0 {
                        assert(self.key_at(i - 1) < self.key_at(i as int));
                    }
                }
            }
        }
        i as u64
    }

    /// The keys, the smallest first.
    pub fn keys(&self) -> (keys: Vec<u64>)
        requires
            self.wf(),
        ensures
            forall|i: int, j: int|
                0 <= i < j < keys@.len() ==> #[trigger] keys@[i] < #[trigger] keys@[j],
            forall|key: u64| #[trigger] keys@.contains(key) <==> self@.contains_key(key),
    {
        let mut keys: Vec<u64> = Vec::new();
        let mut i: usize = 0;
        while i < self.entries.len()
            invariant
                self.wf(),
                i <= self.entries@.len(),
                keys@.len() == i,
                forall|j: int| 0 <= j < i ==> #[trigger] keys@[j] == self.key_at(j),
            decreases self.entries.len() - i,
        {
            keys.push(self.entries[i].0);
            i += 1;
        }
        proof {
            assert forall|a: int, b: int| 0 <= a < b < keys@.len() implies #[trigger] keys@[a]
                < #[trigger] keys@[b] by {
                assert(self.key_at(a) < self.key_at(b));
            }
            assert forall|key: u64| #[trigger] keys@.contains(key) <==> self@.contains_key(key) by {
                if keys@.contains(key) {
                    let j = choose|j: int| 0 <= j < keys@.len() && keys@[j] == key;
                    assert(self.key_at(j) == key);
                }
                if self.has(key) {
                    let j = self.slot(key);
                    assert(self.key_at(j) == key);
                    assert(keys@[j] == key);
                }
            }
        }
        keys
    }

    /// Takes everything out.
    pub fn clear(&mut self)
        ensures
            final(self).wf(),
            final(self)@ == Map::<u64, V>::empty(),
            final(self).entries@.len() == 0,
    {
        self.entries.clear();
        assert(self@ =~= Map::<u64, V>::empty());
    }
}

} // verus!
