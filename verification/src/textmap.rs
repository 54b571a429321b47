//! A map keyed by text, in insertion order.
use vstd::prelude::*;

verus! {

/// A map from text keys to values; inserting a key that is present
/// replaces its value in place.
pub struct TextMap<V> {
    entries: Vec<(String, V)>,
}

/// The keys of a list of entries.
pub open spec fn entry_keys<V>(e: Seq<(String, V)>) -> Seq<Seq<char>> {
    Seq::new(e.len(), |i: int| e[i].0@)
}

impl<V> TextMap<V> {
    /// The keys, in insertion order.
    pub closed spec fn keys(&self) -> Seq<Seq<char>> {
        entry_keys(self.entries@)
    }

    /// The value of each key, by position.
    pub closed spec fn values(&self) -> Seq<V> {
        Seq::new(self.entries@.len(), |i: int| self.entries@[i].1)
    }

    /// No key occurs twice.
    pub closed spec fn wf(&self) -> bool {
        forall|i: int, j: int| 0 <= i < self.entries@.len() && 0 <= j < self.entries@.len() && i != j
            ==> self.entries@[i].0@ != self.entries@[j].0@
    }

    /// The map as a mathematical map.
    pub open spec fn as_map(&self) -> Map<Seq<char>, V> {
        Map::new(
            |k: Seq<char>| self.keys().contains(k),
            |k: Seq<char>| self.values()[choose|i: int| 0 <= i < self.keys().len() && self.keys()[i] == k],
        )
    }

    /// No key occurs twice.
    pub proof fn lemma_keys_distinct(&self)
        requires
            self.wf(),
        ensures
            self.keys().no_duplicates(),
    {
        assert forall|i: int, j: int| 0 <= i < self.keys().len() && 0 <= j < self.keys().len() && i != j
            implies self.keys()[i] != self.keys()[j] by {
            assert(self.keys()[i] == self.entries@[i].0@);
            assert(self.keys()[j] == self.entries@[j].0@);
        }
    }

    /// The keys of the map are the keys of the list.
    pub proof fn lemma_dom_is_keys(&self, k: Seq<char>)
        ensures
            self.as_map().dom().contains(k) <==> self.keys().contains(k),
    {
    }

    /// An empty map.
    pub fn new() -> (m: TextMap<V>)
        ensures
            m.wf(),
            m.keys() == Seq::<Seq<char>>::empty(),
            m.as_map() == Map::<Seq<char>, V>::empty(),
    {
        let m = TextMap { entries: Vec::new() };
        assert(m.keys() =~= Seq::<Seq<char>>::empty());
        assert(m.as_map() =~= Map::<Seq<char>, V>::empty());
        m
    }

    /// The number of keys.
    pub fn len(&self) -> (n: usize)
        ensures
            n == self.keys().len(),
    {
        self.entries.len()
    }

    /// The position of `key`, if present.
    pub fn position(&self, key: &str) -> (r: Option<usize>)
        requires
            self.wf(),
        ensures
            match r {
                Some(i) => i < self.keys().len() && self.keys()[i as int] == key@,
                None => !self.keys().contains(key@),
            },
    {
        let mut i: usize = 0;
        while i < self.entries.len()
            invariant
                i <= self.entries.len(),
                forall|j: int| 0 <= j < i ==> self.entries@[j].0@ != key@,
            decreases self.entries.len() - i,
        {
            if crate::text::str_eq(self.entries[i].0.as_str(), key) {
                return Some(i);
            }
            i = i + 1;
        }
        assert forall|j: int| 0 <= j < self.keys().len() implies self.keys()[j] != key@ by {
            assert(self.keys()[j] == self.entries@[j].0@);
        }
        None
    }

    /// The value of `key`, if present.
    pub fn get(&self, key: &str) -> (r: Option<&V>)
        requires
            self.wf(),
        ensures
            match r {
                Some(v) => self.as_map().dom().contains(key@) && self.as_map()[key@] == *v,
                None => !self.as_map().dom().contains(key@),
            },
    {
        match self.position(key) {
            Some(i) => {
                proof {
                    let c = choose|c: int| 0 <= c < self.keys().len() && self.keys()[c] == key@;
                    assert(c == i);
                }
                Some(&self.entries[i].1)
            },
            None => None,
        }
    }

    /// Sets the value of `key`: replaces it in place when present, else
    /// adds the key last.
    pub fn insert(&mut self, key: String, value: V)
        requires
            old(self).wf(),
        ensures
            final(self).wf(),
            final(self).as_map() == old(self).as_map().insert(key@, value),
            final(self).keys() == (if old(self).keys().contains(key@) { old(self).keys() } else { old(self).keys().push(key@) }),
    {
        let ghost old_keys = self.keys();
        let ghost old_map = self.as_map();
        match self.position(key.as_str()) {
            Some(i) => {
                let ghost k = key@;
                self.entries.set(i, (key, value));
                assert(self.keys() =~= old_keys);
                assert forall|x: Seq<char>| #[trigger] self.as_map().dom().contains(x) implies
                    self.as_map()[x] == old_map.insert(k, value)[x] by {
                    let c = choose|c: int| 0 <= c < self.keys().len() && self.keys()[c] == x;
                    let c0 = choose|c: int| 0 <= c < old_keys.len() && old_keys[c] == x;
                    assert(c == c0);
                }
                assert(self.as_map() =~= old_map.insert(k, value));
            },
            None => {
                let ghost k = key@;
                let ghost old_entries = self.entries@;
                self.entries.push((key, value));
                assert(self.keys() =~= old_keys.push(k));
                assert forall|i: int| 0 <= i < old_entries.len() implies old_entries[i].0@ != k by {
                    assert(old_keys[i] == old_entries[i].0@);
                }
                assert forall|x: Seq<char>| self.keys().contains(x) <==> (old_keys.contains(x) || x == k) by {
                    if self.keys().contains(x) {
                        let c = choose|c: int| 0 <= c < self.keys().len() && self.keys()[c] == x;
                        if c < old_keys.len() {
                            assert(old_keys[c] == x);
                        }
                    }
                    if x == k {
                        assert(self.keys()[old_keys.len() as int] == x);
                    }
                    if old_keys.contains(x) {
                        let c = choose|c: int| 0 <= c < old_keys.len() && old_keys[c] == x;
                        assert(self.keys()[c] == x);
                    }
                }
                assert forall|x: Seq<char>| #[trigger] self.as_map().dom().contains(x) implies
                    self.as_map()[x] == old_map.insert(k, value)[x] by {
                    let c = choose|c: int| 0 <= c < self.keys().len() && self.keys()[c] == x;
                    if x != k {
                        let c0 = choose|c: int| 0 <= c < old_keys.len() && old_keys[c] == x;
                        assert(self.keys()[c0] == x);
                        assert(c == c0);
                    } else {
                        assert(self.keys()[old_keys.len() as int] == x);
                    }
                }
                assert(self.as_map() =~= old_map.insert(k, value));
            },
        }
    }
}

impl<V> TextMap<V> {
    /// The key at position `i`.
    pub fn key_at(&self, i: usize) -> (k: &String)
        requires
            i < self.keys().len(),
        ensures
            k@ == self.keys()[i as int],
    {
        &self.entries[i].0
    }

    /// Replaces the value at position `i`, keeping its key and position.
    pub fn set_at(&mut self, i: usize, value: V)
        requires
            old(self).wf(),
            i < old(self).keys().len(),
        ensures
            final(self).wf(),
            final(self).keys() == old(self).keys(),
            final(self).as_map() == old(self).as_map().insert(old(self).keys()[i as int], value),
    {
        let ghost old_keys = self.keys();
        let ghost old_map = self.as_map();
        let ghost k = old_keys[i as int];
        let key = self.entries[i].0.clone();
        self.entries.set(i, (key, value));
        assert(self.keys() =~= old_keys);
        assert forall|x: Seq<char>| #[trigger] self.as_map().dom().contains(x) implies
            self.as_map()[x] == old_map.insert(k, value)[x] by {
            let c = choose|c: int| 0 <= c < self.keys().len() && self.keys()[c] == x;
            let c0 = choose|c: int| 0 <= c < old_keys.len() && old_keys[c] == x;
            assert(c == c0);
            if x == k {
                assert(c == i as int) by {
                    if c != i as int {
                        assert(self.entries@[c].0@ == self.entries@[i as int].0@);
                    }
                }
            }
        }
        assert(self.as_map() =~= old_map.insert(k, value));
    }
}

impl<V> TextMap<V> {
    /// The value at position `i`.
    pub fn value_at(&self, i: usize) -> (v: &V)
        requires
            self.wf(),
            i < self.keys().len(),
        ensures
            *v == self.as_map()[self.keys()[i as int]],
    {
        proof {
            let k = self.keys()[i as int];
            let c = choose|c: int| 0 <= c < self.keys().len() && self.keys()[c] == k;
            if c != i as int {
                assert(self.entries@[c].0@ == self.entries@[i as int].0@);
            }
        }
        &self.entries[i].1
    }
}

} // verus!
