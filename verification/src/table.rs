use vstd::prelude::*;

verus! {

/// No two entries of the sequence share a key.
pub open spec fn keys_distinct<V>(entries: Seq<(String, V)>) -> bool {
    forall|i: int, j: int| 0 <= i < j < entries.len() ==> entries[i].0@ != entries[j].0@
}

/// The entry sequence holds an entry with key `k`.
pub open spec fn has_key<V>(entries: Seq<(String, V)>, k: Seq<char>) -> bool {
    exists|i: int| 0 <= i < entries.len() && entries[i].0@ == k
}

/// The map that an entry sequence stands for.
pub open spec fn entries_map<V>(entries: Seq<(String, V)>) -> Map<Seq<char>, V> {
    Map::new(
        |k: Seq<char>| has_key(entries, k),
        |k: Seq<char>| entries[choose|i: int| 0 <= i < entries.len() && entries[i].0@ == k].1,
    )
}

/// A map from strings to values that keeps its entries in the order in which
/// their keys were first inserted.
#[derive(Debug)]
pub struct Table<V> {
    entries: Vec<(String, V)>,
}

impl<V: Clone> Clone for Table<V> {
    /// A copy with the same keys in the same order; each value is copied by
    /// its own `clone`.
    fn clone(&self) -> (t: Self)
        ensures
            t.key_seq() == self.key_seq(),
            t.entry_seq().len() == self.entry_seq().len(),
            forall|j: int|
                0 <= j < self.entry_seq().len() ==> cloned::<V>(
                    self.entry_seq()[j].1,
                    #[trigger] t.entry_seq()[j].1,
                ),
            t@.dom() == self@.dom(),
            forall|k: Seq<char>| #[trigger] t@.contains_key(k) ==> cloned::<V>(self@[k], t@[k]),
    {
        proof {
            use_type_invariant(self);
        }
        let mut entries: Vec<(String, V)> = Vec::new();
        let mut i: usize = 0;
        while i < self.entries.len()
            invariant
                i <= self.entries@.len(),
                keys_distinct(self.entries@),
                entries@.len() == i,
                forall|j: int| 0 <= j < i ==> #[trigger] entries@[j].0@ == self.entries@[j].0@,
                forall|j: int| 0 <= j < i ==> cloned::<V>(self.entries@[j].1, #[trigger] entries@[j].1),
            decreases self.entries@.len() - i,
        {
            let k = self.entries[i].0.clone();
            let v = self.entries[i].1.clone();
            entries.push((k, v));
            i = i + 1;
        }
        let t = Table { entries };
        assert(t.key_seq() =~= self.key_seq());
        proof {
            let es = self.entries@;
            let ts = t.entries@;
            assert forall|k: Seq<char>| t@.contains_key(k) == self@.contains_key(k) by {
                if has_key(ts, k) {
                    let i = choose|i: int| 0 <= i < ts.len() && ts[i].0@ == k;
                    assert(es[i].0@ == k);
                }
                if has_key(es, k) {
                    let i = choose|i: int| 0 <= i < es.len() && es[i].0@ == k;
                    assert(ts[i].0@ == k);
                }
            }
            assert(t@.dom() =~= self@.dom());
            assert forall|k: Seq<char>| #[trigger] t@.contains_key(k) implies cloned::<V>(self@[k], t@[k]) by {
                let i1 = choose|i: int| 0 <= i < es.len() && es[i].0@ == k;
                let i2 = choose|i: int| 0 <= i < ts.len() && ts[i].0@ == k;
                assert(es[i2].0@ == k);
                assert(i1 == i2);
            }
        }
        t
    }
}

impl<V> Table<V> {
    #[verifier::type_invariant]
    pub(crate) open spec fn inv(self) -> bool {
        keys_distinct(self.entry_seq())
    }

    /// The entries, in insertion order.
    pub closed spec fn entry_seq(&self) -> Seq<(String, V)> {
        self.entries@
    }

    /// The keys, in insertion order.
    pub open spec fn key_seq(&self) -> Seq<Seq<char>> {
        self.entry_seq().map_values(|e: (String, V)| e.0@)
    }

    pub open spec fn view(&self) -> Map<Seq<char>, V> {
        entries_map(self.entry_seq())
    }

    /// A key is in the map exactly when it is in the key sequence.
    pub proof fn lemma_key_seq(&self)
        ensures
            forall|k: Seq<char>| #[trigger] self@.contains_key(k) <==> self.key_seq().contains(k),
            self.key_seq().len() == self.entry_seq().len(),
    {
        let es = self.entry_seq();
        assert forall|k: Seq<char>| #[trigger] self@.contains_key(k) <==> self.key_seq().contains(k) by {
            if self@.contains_key(k) {
                let i = choose|i: int| 0 <= i < es.len() && es[i].0@ == k;
                assert(self.key_seq()[i] == k);
            }
            if self.key_seq().contains(k) {
                let i = choose|i: int| 0 <= i < self.key_seq().len() && self.key_seq()[i] == k;
                assert(es[i].0@ == k);
            }
        }
    }

    pub fn new() -> (t: Self)
        ensures
            t.entry_seq() == Seq::<(String, V)>::empty(),
            t@ == Map::<Seq<char>, V>::empty(),
    {
        let t = Table { entries: Vec::new() };
        assert(t@ =~= Map::<Seq<char>, V>::empty());
        t
    }

    pub fn len(&self) -> (n: usize)
        ensures
            n == self.entry_seq().len(),
    {
        self.entries.len()
    }

    /// The entries, in insertion order; no two of them share a key.
    pub fn entries(&self) -> (e: &Vec<(String, V)>)
        ensures
            e@ == self.entry_seq(),
            keys_distinct(self.entry_seq()),
    {
        proof {
            use_type_invariant(self);
        }
        &self.entries
    }

    /// Gives up the table for its entries, in insertion order; no two of them
    /// share a key.
    pub fn into_entries(self) -> (e: Vec<(String, V)>)
        ensures
            e@ == self.entry_seq(),
            keys_distinct(e@),
    {
        proof {
            use_type_invariant(&self);
        }
        self.entries
    }

    /// Position of the entry with key `key`.
    fn position(&self, key: &str) -> (r: Option<usize>)
        ensures
            match r {
                Some(i) => i < self.entries@.len() && self.entries@[i as int].0@ == key@,
                None => !has_key(self.entries@, key@),
            },
    {
        let mut i: usize = 0;
        while i < self.entries.len()
            invariant
                i <= self.entries@.len(),
                forall|j: int| 0 <= j < i ==> self.entries@[j].0@ != key@,
            decreases self.entries@.len() - i,
        {
            if crate::text::str_eq(self.entries[i].0.as_str(), key) {
                return Some(i);
            }
            i = i + 1;
        }
        None
    }

    pub fn contains_key(&self, key: &str) -> (b: bool)
        ensures
            b == self@.contains_key(key@),
    {
        self.position(key).is_some()
    }

    pub fn get(&self, key: &str) -> (r: Option<&V>)
        ensures
            match r {
                Some(v) => self@.contains_key(key@) && self@[key@] == *v,
                None => !self@.contains_key(key@),
            },
    {
        proof {
            use_type_invariant(self);
        }
        match self.position(key) {
            Some(i) => {
                let ghost es = self.entries@;
                assert(es[choose|j: int| 0 <= j < es.len() && es[j].0@ == key@].0@ == key@);
                Some(&self.entries[i].1)
            },
            None => None,
        }
    }

    /// Stores `value` under `key` and hands back the value it replaces. A new
    /// key goes last; a known key keeps its place.
    pub fn insert(&mut self, key: String, value: V) -> (prev: Option<V>)
        ensures
            final(self)@ == old(self)@.insert(key@, value),
            match prev {
                Some(v) => old(self)@.contains_key(key@) && old(self)@[key@] == v,
                None => !old(self)@.contains_key(key@),
            },
            old(self)@.contains_key(key@) ==> final(self).key_seq() == old(self).key_seq(),
            !old(self)@.contains_key(key@) ==> final(self).key_seq() == old(self).key_seq().push(key@),
    {
        proof {
            use_type_invariant(&*self);
        }
        let ghost k = key@;
        let ghost es = self.entries@;
        let found = self.position(key.as_str());
        let mut entries: Vec<(String, V)> = Vec::new();
        std::mem::swap(&mut entries, &mut self.entries);
        match found {
            Some(i) => {
                let (old_key, old_value) = entries.remove(i);
                entries.insert(i, (old_key, value));
                let ghost ns = entries@;
                assert(keys_distinct(ns));
                std::mem::swap(&mut entries, &mut self.entries);
                assert(ns =~= es.update(i as int, (es[i as int].0, value)));
                assert(es[choose|j: int| 0 <= j < es.len() && es[j].0@ == k].0@ == k);
                assert(self@ =~= old(self)@.insert(k, value)) by {
                    assert forall|q: Seq<char>| #[trigger] has_key(ns, q) == has_key(es, q) by {
                        if has_key(es, q) {
                            let j = choose|j: int| 0 <= j < es.len() && es[j].0@ == q;
                            assert(ns[j].0@ == q);
                        }
                        if has_key(ns, q) {
                            let j = choose|j: int| 0 <= j < ns.len() && ns[j].0@ == q;
                            assert(es[j].0@ == q);
                        }
                    }
                    assert forall|q: Seq<char>| has_key(ns, q) implies
                        #[trigger] entries_map(ns)[q] == old(self)@.insert(k, value)[q] by {
                        let j = choose|j: int| 0 <= j < ns.len() && ns[j].0@ == q;
                        let j2 = choose|j: int| 0 <= j < es.len() && es[j].0@ == q;
                        assert(es[j].0@ == q);
                    }
                }
                assert(self.key_seq() =~= old(self).key_seq());
                Some(old_value)
            },
            None => {
                entries.push((key, value));
                let ghost ns = entries@;
                assert(keys_distinct(ns));
                std::mem::swap(&mut entries, &mut self.entries);
                assert(self@ =~= old(self)@.insert(k, value)) by {
                    assert forall|q: Seq<char>| #[trigger] has_key(ns, q) == (has_key(es, q) || q == k) by {
                        if has_key(es, q) {
                            let j = choose|j: int| 0 <= j < es.len() && es[j].0@ == q;
                            assert(ns[j].0@ == q);
                        }
                        if q == k {
                            assert(ns[es.len() as int].0@ == q);
                        }
                    }
                    assert forall|q: Seq<char>| has_key(ns, q) implies
                        #[trigger] entries_map(ns)[q] == old(self)@.insert(k, value)[q] by {
                        let j = choose|j: int| 0 <= j < ns.len() && ns[j].0@ == q;
                        if q != k {
                            let j2 = choose|j: int| 0 <= j < es.len() && es[j].0@ == q;
                            assert(ns[j2].0@ == q);
                        }
                    }
                }
                assert(self.key_seq() =~= old(self).key_seq().push(k));
                None
            },
        }
    }
}

} // verus!
