//! A finite map keyed by strings, kept as an association list.
//!
//! The stages keep every name-keyed table (keyword spellings, translated
//! names, scope bindings) in a `StrMap`. Its abstract value is a
//! `Map<Seq<char>, V>`; the entries hold each key at most once.

use vstd::prelude::*;
use crate::text::str_eq;

verus! {

/// Bindings from string keys to values, each key at most once.
#[derive(Debug)]
pub struct StrMap<V> {
    entries: Vec<(String, V)>,
}

impl<V> StrMap<V> {
    /// The entries, each key by its characters.
    pub closed spec fn entry_seq(&self) -> Seq<(String, V)> {
        self.entries@
    }

    /// No key is stored twice.
    #[verifier::type_invariant]
    pub closed spec fn wf(&self) -> bool {
        forall|i: int, j: int|
            0 <= i < self.entries@.len() && 0 <= j < self.entries@.len() && i != j
                ==> #[trigger] self.entries@[i].0@ != #[trigger] self.entries@[j].0@
    }

    /// Whether `k` is stored.
    pub closed spec fn has(&self, k: Seq<char>) -> bool {
        exists|i: int| 0 <= i < self.entries@.len() && #[trigger] self.entries@[i].0@ == k
    }

    /// The position of `k` among the entries.
    pub closed spec fn idx(&self, k: Seq<char>) -> int {
        choose|i: int| 0 <= i < self.entries@.len() && #[trigger] self.entries@[i].0@ == k
    }

    /// The abstract map.
    pub closed spec fn view(&self) -> Map<Seq<char>, V> {
        Map::new(|k: Seq<char>| self.has(k), |k: Seq<char>| self.entries@[self.idx(k)].1)
    }

    /// The number of keys stored.
    pub closed spec fn size(&self) -> nat {
        self.entries@.len()
    }

    proof fn lemma_at(&self, i: int)
        requires
            self.wf(),
            0 <= i < self.entries@.len(),
        ensures
            self.view().contains_key(self.entries@[i].0@),
            self.view()[self.entries@[i].0@] == self.entries@[i].1,
            self.idx(self.entries@[i].0@) == i,
    {
        let k = self.entries@[i].0@;
        assert(self.has(k));
        let j = self.idx(k);
        if j != i {
            assert(self.entries@[i].0@ != self.entries@[j].0@);
        }
    }

    proof fn lemma_view_dom_finite(&self)
        requires
            self.wf(),
        ensures
            self.view().dom().finite(),
            self.view().dom().len() == self.entries@.len(),
        decreases self.entries@.len(),
    {
        let keys = self.entries@.map_values(|e: (String, V)| e.0@);
        assert forall|i: int, j: int| 0 <= i < keys.len() && 0 <= j < keys.len() && i != j
            implies keys[i] != keys[j] by {
            assert(self.entries@[i].0@ != self.entries@[j].0@);
        }
        assert(keys.no_duplicates());
        assert forall|k: Seq<char>| self.view().dom().contains(k) <==> keys.to_set().contains(k) by {
            if self.view().dom().contains(k) {
                let i = self.idx(k);
                assert(keys[i] == k);
            }
            if keys.to_set().contains(k) {
                let i = choose|i: int| 0 <= i < keys.len() && keys[i] == k;
                assert(self.entries@[i].0@ == k);
            }
        }
        assert(self.view().dom() =~= keys.to_set());
        keys.unique_seq_to_set();
    }

    /// An empty map.
    pub fn new() -> (m: Self)
        ensures
            m@ == Map::<Seq<char>, V>::empty(),
            m.size() == 0,
    {
        let m = StrMap { entries: Vec::new() };
        assert(m.view() =~= Map::<Seq<char>, V>::empty());
        m
    }

    /// The number of keys.
    pub fn len(&self) -> (n: usize)
        ensures
            n == self@.dom().len(),
            n == self.size(),
    {
        proof {
            use_type_invariant(self);
            self.lemma_view_dom_finite();
        }
        self.entries.len()
    }

    /// Where `k` is stored, if it is.
    fn find(&self, k: &str) -> (r: Option<usize>)
        ensures
            r matches Some(i) ==> i < self.entries@.len() && self.entries@[i as int].0@ == k@
                && self.idx(k@) == i,
            r is None <==> !self@.contains_key(k@),
    {
        proof { use_type_invariant(self); }
        let mut i: usize = 0;
        while i < self.entries.len()
            invariant
                self.wf(),
                i <= self.entries@.len(),
                forall|j: int| 0 <= j < i ==> #[trigger] self.entries@[j].0@ != k@,
            decreases self.entries@.len() - i,
        {
            if str_eq(self.entries[i].0.as_str(), k) {
                proof { self.lemma_at(i as int); }
                return Some(i);
            }
            i = i + 1;
        }
        proof {
            if self.has(k@) {
                let j = self.idx(k@);
                assert(self.entries@[j].0@ == k@);
            }
        }
        None
    }

    /// Whether `k` is a key.
    pub fn contains_key(&self, k: &str) -> (r: bool)
        ensures
            r == self@.contains_key(k@),
    {
        self.find(k).is_some()
    }

    /// The value stored under `k`.
    pub fn get(&self, k: &str) -> (r: Option<&V>)
        ensures
            r matches Some(v) ==> self@.contains_key(k@) && *v == self@[k@],
            r is None <==> !self@.contains_key(k@),
    {
        proof { use_type_invariant(self); }
        match self.find(k) {
            Some(i) => {
                proof { self.lemma_at(i as int); }
                Some(&self.entries[i].1)
            },
            None => None,
        }
    }

    /// Binds `k` to `v`, replacing any earlier binding of `k`.
    pub fn insert(&mut self, k: String, v: V)
        ensures
            final(self)@ == old(self)@.insert(k@, v),
    {
        proof { use_type_invariant(&*self); }
        let ghost old_map = self@;
        let ghost before = *self;
        let ghost ks = k@;
        let found = self.find(k.as_str());
        let mut entries: Vec<(String, V)> = Vec::new();
        std::mem::swap(&mut entries, &mut self.entries);
        match found {
            Some(i) => {
                proof { before.lemma_at(i as int); }
                entries.set(i, (k, v));
                proof {
                    assert forall|a: int, b: int|
                        0 <= a < entries@.len() && 0 <= b < entries@.len() && a != b
                            implies #[trigger] entries@[a].0@ != #[trigger] entries@[b].0@ by {
                        assert(before.entries@[a].0@ != before.entries@[b].0@);
                    }
                }
                self.entries = entries;
                proof {
                    assert forall|key: Seq<char>| #[trigger] self@.contains_key(key)
                        <==> old_map.insert(ks, v).contains_key(key) by {
                        if self.has(key) {
                            let j = self.idx(key);
                            if j != i {
                                assert(before.entries@[j].0@ == key);
                            }
                        }
                        if before.has(key) {
                            let j = before.idx(key);
                            assert(self.entries@[j].0@ == key);
                        }
                        if key == ks {
                            assert(self.entries@[i as int].0@ == key);
                        }
                    }
                    assert forall|key: Seq<char>| #[trigger] self@.contains_key(key)
                        implies self@[key] == old_map.insert(ks, v)[key] by {
                        let j = self.idx(key);
                        self.lemma_at(j);
                        if j != i {
                            before.lemma_at(j);
                        }
                    }
                    assert(self@ =~= old_map.insert(ks, v));
                }
            },
            None => {
                entries.push((k, v));
                let ghost n = before.entries@.len();
                proof {
                    assert forall|a: int, b: int|
                        0 <= a < entries@.len() && 0 <= b < entries@.len() && a != b
                            implies #[trigger] entries@[a].0@ != #[trigger] entries@[b].0@ by {
                        if a < n && b < n {
                            assert(before.entries@[a].0@ != before.entries@[b].0@);
                        } else if a < n {
                            assert(before.entries@[a].0@ == entries@[a].0@);
                            assert(before.has(before.entries@[a].0@));
                        } else if b < n {
                            assert(before.has(before.entries@[b].0@));
                        }
                    }
                }
                self.entries = entries;
                proof {
                    assert forall|key: Seq<char>| #[trigger] self@.contains_key(key)
                        <==> old_map.insert(ks, v).contains_key(key) by {
                        if self.has(key) {
                            let j = self.idx(key);
                            if j < n {
                                assert(before.entries@[j].0@ == key);
                            }
                        }
                        if before.has(key) {
                            let j = before.idx(key);
                            assert(self.entries@[j].0@ == key);
                        }
                        if key == ks {
                            assert(self.entries@[n as int].0@ == key);
                        }
                    }
                    assert forall|key: Seq<char>| #[trigger] self@.contains_key(key)
                        implies self@[key] == old_map.insert(ks, v)[key] by {
                        let j = self.idx(key);
                        self.lemma_at(j);
                        if j < n {
                            before.lemma_at(j);
                        }
                    }
                    assert(self@ =~= old_map.insert(ks, v));
                }
            },
        }
    }

    /// Drops the binding of `k`, if there is one.
    pub fn remove(&mut self, k: &str)
        ensures
            final(self)@ == old(self)@.remove(k@),
    {
        proof { use_type_invariant(&*self); }
        let ghost old_map = self@;
        let ghost before = *self;
        match self.find(k) {
            Some(i) => {
                let mut entries: Vec<(String, V)> = Vec::new();
                std::mem::swap(&mut entries, &mut self.entries);
                entries.remove(i);
                proof {
                    assert forall|a: int, b: int|
                        0 <= a < entries@.len() && 0 <= b < entries@.len() && a != b
                            implies #[trigger] entries@[a].0@ != #[trigger] entries@[b].0@ by {
                        let a2 = if a < i { a } else { a + 1 };
                        let b2 = if b < i { b } else { b + 1 };
                        assert(before.entries@[a2].0@ != before.entries@[b2].0@);
                    }
                }
                self.entries = entries;
                proof {
                    assert forall|key: Seq<char>| #[trigger] self@.contains_key(key)
                        <==> old_map.remove(k@).contains_key(key) by {
                        if self.has(key) {
                            let j = self.idx(key);
                            let j2 = if j < i { j } else { j + 1 };
                            assert(before.entries@[j2].0@ == key);
                            if key == k@ {
                                assert(before.entries@[i as int].0@ == key);
                            }
                        }
                        if before.has(key) && key != k@ {
                            let j = before.idx(key);
                            if j < i {
                                assert(self.entries@[j].0@ == key);
                            } else if j > i {
                                assert(self.entries@[j - 1].0@ == key);
                            }
                        }
                    }
                    assert forall|key: Seq<char>| #[trigger] self@.contains_key(key)
                        implies self@[key] == old_map.remove(k@)[key] by {
                        let j = self.idx(key);
                        self.lemma_at(j);
                        let j2 = if j < i { j } else { j + 1 };
                        before.lemma_at(j2);
                    }
                    assert(self@ =~= old_map.remove(k@));
                }
            },
            None => {
                assert(self@ =~= old_map.remove(k@));
            },
        }
    }

    /// The key at position `i`, in insertion order.
    pub fn key_at(&self, i: usize) -> (k: &String)
        requires
            i < self.size(),
        ensures
            self@.contains_key(k@),
            k@ == self.entry_seq()[i as int].0@,
    {
        proof {
            use_type_invariant(self);
            self.lemma_at(i as int);
        }
        &self.entries[i].0
    }

    /// The value at position `i`, in insertion order.
    pub fn value_at(&self, i: usize) -> (v: &V)
        requires
            i < self.size(),
        ensures
            self@.contains_key(self.entry_seq()[i as int].0@),
            *v == self@[self.entry_seq()[i as int].0@],
            *v == self.entry_seq()[i as int].1,
    {
        proof {
            use_type_invariant(self);
            self.lemma_at(i as int);
        }
        &self.entries[i].1
    }

    /// The bindings of the first `i` entries, inserted in entry order.
    pub closed spec fn prefix_view(&self, i: int) -> Map<Seq<char>, V>
        decreases i,
    {
        if i <= 0 || i > self.entries@.len() {
            Map::empty()
        } else {
            self.prefix_view(i - 1).insert(self.entries@[i - 1].0@, self.entries@[i - 1].1)
        }
    }

    /// Inserting one more entry extends the prefix bindings by it.
    pub proof fn lemma_prefix_view_step(&self, i: int)
        requires
            0 <= i,
        ensures
            i < self.size() ==> self.prefix_view(i + 1) == self.prefix_view(i).insert(self.entry_seq()[i].0@, self.entry_seq()[i].1),
            self.prefix_view(0) == Map::<Seq<char>, V>::empty(),
    {
    }

    /// All the entries, inserted in order, give the map.
    pub proof fn lemma_prefix_view_full(&self)
        requires
            self.wf(),
        ensures
            self.prefix_view(self.size() as int) == self@,
    {
        self.lemma_prefix_view_keys(self.entries@.len() as int);
        assert forall|k: Seq<char>| #[trigger] self@.contains_key(k) implies self.prefix_view(self.size() as int).contains_key(k)
            && self.prefix_view(self.size() as int)[k] == self@[k] by {
            let j = self.idx(k);
            self.lemma_at(j);
        }
        assert(self.prefix_view(self.size() as int) =~= self@);
    }

    /// The prefix bindings hold exactly the first `i` keys, each with its entry's value.
    proof fn lemma_prefix_view_keys(&self, i: int)
        requires
            self.wf(),
            0 <= i <= self.entries@.len(),
        ensures
            forall|k: Seq<char>| #[trigger] self.prefix_view(i).contains_key(k) <==> exists|j: int| 0 <= j < i && self.entries@[j].0@ == k,
            forall|j: int| 0 <= j < i ==> #[trigger] self.prefix_view(i)[self.entries@[j].0@] == self.entries@[j].1,
        decreases i,
    {
        if i > 0 {
            self.lemma_prefix_view_keys(i - 1);
            let m = self.prefix_view(i - 1);
            let k0 = self.entries@[i - 1].0@;
            assert forall|k: Seq<char>| #[trigger] self.prefix_view(i).contains_key(k) <==> exists|j: int| 0 <= j < i && self.entries@[j].0@ == k by {
                if k == k0 {
                    assert(self.entries@[i - 1].0@ == k);
                }
                if m.contains_key(k) {
                    let j = choose|j: int| 0 <= j < i - 1 && self.entries@[j].0@ == k;
                    assert(0 <= j < i && self.entries@[j].0@ == k);
                }
            }
            assert forall|j: int| 0 <= j < i implies #[trigger] self.prefix_view(i)[self.entries@[j].0@] == self.entries@[j].1 by {
                if j < i - 1 {
                    assert(self.entries@[j].0@ != k0);
                }
            }
        }
    }

    /// The key at position `i` is not among the first `i` bindings.
    pub proof fn lemma_prefix_fresh(&self, i: int)
        requires
            self.wf(),
            0 <= i < self.size(),
        ensures
            !self.prefix_view(i).contains_key(self.entry_seq()[i].0@),
    {
        self.lemma_prefix_view_keys(i);
        if self.prefix_view(i).contains_key(self.entries@[i].0@) {
            let j = choose|j: int| 0 <= j < i && self.entries@[j].0@ == self.entries@[i].0@;
            assert(self.entries@[j].0@ != self.entries@[i].0@);
        }
    }

    /// Every key of the map sits at some position.
    pub proof fn lemma_key_position(&self, k: Seq<char>)
        requires
            self.wf(),
            self@.contains_key(k),
        ensures
            0 <= self.idx(k) < self.size(),
            self.entry_seq()[self.idx(k)].0@ == k,
    {
    }

    /// Every position holds a key of the map.
    pub proof fn lemma_position_key(&self, i: int)
        requires
            self.wf(),
            0 <= i < self.size(),
        ensures
            self@.contains_key(self.entry_seq()[i].0@),
            self@[self.entry_seq()[i].0@] == self.entry_seq()[i].1,
    {
        self.lemma_at(i);
    }
}

impl<V: Copy> Clone for StrMap<V> {
    /// A copy holding the same bindings.
    fn clone(&self) -> (r: Self)
        ensures
            r@ == self@,
            r.size() == self.size(),
    {
        proof { use_type_invariant(self); }
        let mut entries: Vec<(String, V)> = Vec::new();
        let mut i: usize = 0;
        while i < self.entries.len()
            invariant
                i <= self.entries@.len(),
                entries@ == self.entries@.take(i as int),
            decreases self.entries@.len() - i,
        {
            let k = self.entries[i].0.clone();
            let v = self.entries[i].1;
            entries.push((k, v));
            assert(entries@ =~= self.entries@.take(i + 1));
            i = i + 1;
        }
        assert(entries@ =~= self.entries@);
        let r = StrMap { entries };
        assert(r.view() =~= self.view());
        r
    }
}

} // verus!
