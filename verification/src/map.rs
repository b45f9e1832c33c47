//! A map keyed by template path.

use vstd::prelude::*;

verus! {

/// A map from template paths to values. Two paths are the same key when they
/// hold the same text. No key occurs twice.
#[derive(Debug, PartialEq, Eq)]
pub struct PathMap<V> {
    entries: Vec<(String, V)>,
}

/// Whether `key` is the key of the entry at `i`.
pub open spec fn key_at<V>(entries: Seq<(String, V)>, key: Seq<char>, i: int) -> bool {
    0 <= i < entries.len() && entries[i].0@ == key
}

/// The keys of a sequence of entries, in order.
pub open spec fn keys_of<V>(entries: Seq<(String, V)>) -> Seq<Seq<char>> {
    entries.map_values(|e: (String, V)| e.0@)
}

impl<V> PathMap<V> {
    /// No key occurs twice.
    #[verifier::type_invariant]
    spec fn wf(&self) -> bool {
        forall|i: int, j: int|
            0 <= i < j < self.entries.len() ==> (#[trigger] self.entries[i]).0@ != (
            #[trigger] self.entries[j]).0@
    }

    /// The map that the entries stand for.
    pub closed spec fn view(&self) -> Map<Seq<char>, V> {
        Map::new(
            |k: Seq<char>| exists|i: int| key_at(self.entries@, k, i),
            |k: Seq<char>| self.entries[choose|i: int| key_at(self.entries@, k, i)].1,
        )
    }

    proof fn lemma_index(&self, i: int)
        requires
            self.wf(),
            0 <= i < self.entries.len(),
        ensures
            self@.contains_key(self.entries[i].0@),
            self@[self.entries[i].0@] == self.entries[i].1,
    {
        let k = self.entries[i].0@;
        assert(key_at(self.entries@, k, i));
        let c = choose|c: int| key_at(self.entries@, k, c);
        assert(key_at(self.entries@, k, c));
        if c < i {
            assert(self.entries[c].0@ != self.entries[i].0@);
        } else if i < c {
            assert(self.entries[i].0@ != self.entries[c].0@);
        }
    }

    proof fn lemma_dom(&self)
        requires
            self.wf(),
        ensures
            self@.dom() =~= keys_of(self.entries@).to_set(),
            keys_of(self.entries@).no_duplicates(),
            self@.dom().finite(),
            self@.dom().len() == self.entries.len(),
    {
        let keys = keys_of(self.entries@);
        assert forall|k: Seq<char>| self@.dom().contains(k) <==> keys.to_set().contains(k) by {
            if self@.dom().contains(k) {
                let i = choose|i: int| key_at(self.entries@, k, i);
                assert(keys[i] == k);
            }
            if keys.to_set().contains(k) {
                let i = choose|i: int| 0 <= i < keys.len() && keys[i] == k;
                assert(key_at(self.entries@, k, i));
            }
        }
        assert forall|i: int, j: int| 0 <= i < keys.len() && 0 <= j < keys.len() && i != j implies keys[i]
            != keys[j] by {
            if i < j {
                assert(self.entries[i].0@ != self.entries[j].0@);
            } else {
                assert(self.entries[j].0@ != self.entries[i].0@);
            }
        }
        keys.unique_seq_to_set();
    }

    /// The empty map.
    pub fn new() -> (m: Self)
        ensures
            m@ == Map::<Seq<char>, V>::empty(),
    {
        let m = PathMap { entries: Vec::new() };
        assert(m@ =~= Map::<Seq<char>, V>::empty());
        m
    }

    /// The number of keys.
    pub fn len(&self) -> (n: usize)
        ensures
            self@.dom().finite(),
            n == self@.dom().len(),
    {
        proof {
            use_type_invariant(self);
            self.lemma_dom();
        }
        self.entries.len()
    }

    fn position(&self, key: &String) -> (r: Option<usize>)
        ensures
            match r {
                Some(i) => key_at(self.entries@, key@, i as int),
                None => !self@.contains_key(key@),
            },
    {
        let n: usize = self.entries.len();
        let mut i: usize = 0;
        while i < n
            invariant
                i <= n,
                n == self.entries.len(),
                forall|j: int| 0 <= j < i ==> !key_at(self.entries@, key@, j),
            decreases n - i,
        {
            if self.entries[i].0 == *key {
                return Some(i);
            }
            i = i + 1;
        }
        None
    }

    /// Whether `key` is in the map.
    pub fn contains_key(&self, key: &String) -> (b: bool)
        ensures
            b == self@.contains_key(key@),
    {
        match self.position(key) {
            Some(i) => {
                proof {
                    use_type_invariant(self);
                    self.lemma_index(i as int);
                }
                true
            },
            None => false,
        }
    }

    /// The value under `key`, if there is one.
    pub fn get(&self, key: &String) -> (r: Option<&V>)
        ensures
            match r {
                Some(v) => self@.contains_key(key@) && *v == self@[key@],
                None => !self@.contains_key(key@),
            },
    {
        match self.position(key) {
            Some(i) => {
                proof {
                    use_type_invariant(self);
                    self.lemma_index(i as int);
                }
                Some(&self.entries[i].1)
            },
            None => None,
        }
    }

    /// Puts `value` under `key`, in place of the value that was there, if any.
    pub fn insert(&mut self, key: String, value: V)
        ensures
            final(self)@ == old(self)@.insert(key@, value),
    {
        proof {
            use_type_invariant(&*self);
        }
        let ghost before = *self;
        let found = self.position(&key);
        let mut entries: Vec<(String, V)> = Vec::new();
        std::mem::swap(&mut self.entries, &mut entries);
        match found {
            Some(i) => {
                entries.set(i, (key, value));
                self.entries = entries;
                proof {
                    assert forall|a: int, b: int| 0 <= a < b < self.entries.len() implies (
                    #[trigger] self.entries[a]).0@ != (#[trigger] self.entries[b]).0@ by {
                        assert(before.entries[a].0@ != before.entries[b].0@);
                    }
                    assert forall|k: Seq<char>| #[trigger]
                        self@.contains_key(k) == before@.insert(key@, value).contains_key(k) by {
                        if self@.contains_key(k) {
                            let c = choose|c: int| key_at(self.entries@, k, c);
                            assert(key_at(before.entries@, k, c));
                        }
                        if before@.contains_key(k) {
                            let c = choose|c: int| key_at(before.entries@, k, c);
                            assert(key_at(self.entries@, k, c));
                        }
                        if k == key@ {
                            assert(key_at(self.entries@, k, i as int));
                        }
                    }
                    assert forall|k: Seq<char>| self@.contains_key(k) implies #[trigger] self@[k]
                        == before@.insert(key@, value)[k] by {
                        let c = choose|c: int| key_at(self.entries@, k, c);
                        self.lemma_index(c);
                        if c != i {
                            before.lemma_index(c);
                        }
                    }
                    assert(self@ =~= before@.insert(key@, value));
                }
            },
            None => {
                entries.push((key, value));
                proof {
                    let n = before.entries.len() as int;
                    assert forall|a: int, b: int| 0 <= a < b < entries.len() implies (
                    #[trigger] entries[a]).0@ != (#[trigger] entries[b]).0@ by {
                        if b < n {
                            assert(before.entries[a].0@ != before.entries[b].0@);
                        } else {
                            assert(!key_at(before.entries@, key@, a));
                        }
                    }
                }
                self.entries = entries;
                proof {
                    let n = before.entries.len() as int;
                    assert forall|k: Seq<char>| #[trigger]
                        self@.contains_key(k) == before@.insert(key@, value).contains_key(k) by {
                        if self@.contains_key(k) {
                            let c = choose|c: int| key_at(self.entries@, k, c);
                            if c < n {
                                assert(key_at(before.entries@, k, c));
                            }
                        }
                        if before@.contains_key(k) {
                            let c = choose|c: int| key_at(before.entries@, k, c);
                            assert(key_at(self.entries@, k, c));
                        }
                        if k == key@ {
                            assert(key_at(self.entries@, k, n));
                        }
                    }
                    assert forall|k: Seq<char>| self@.contains_key(k) implies #[trigger] self@[k]
                        == before@.insert(key@, value)[k] by {
                        let c = choose|c: int| key_at(self.entries@, k, c);
                        self.lemma_index(c);
                        if c < n {
                            before.lemma_index(c);
                        }
                    }
                    assert(self@ =~= before@.insert(key@, value));
                }
            },
        }
    }

    /// Takes one entry out of the map, if it has any.
    pub fn pop_entry(&mut self) -> (r: Option<(String, V)>)
        ensures
            match r {
                Some(e) => old(self)@.contains_key(e.0@) && old(self)@[e.0@] == e.1 && final(self)@
                    == old(self)@.remove(e.0@),
                None => old(self)@ == Map::<Seq<char>, V>::empty() && final(self)@ == old(self)@,
            },
    {
        proof {
            use_type_invariant(&*self);
        }
        let ghost before = *self;
        let mut entries: Vec<(String, V)> = Vec::new();
        std::mem::swap(&mut self.entries, &mut entries);
        let r = entries.pop();
        self.entries = entries;
        proof {
            if r is Some {
                let e = r->0;
                {
                    let n = self.entries.len() as int;
                    assert(before.entries[n] == e);
                    before.lemma_index(n);
                    assert forall|a: int, b: int| 0 <= a < b < self.entries.len() implies (
                    #[trigger] self.entries[a]).0@ != (#[trigger] self.entries[b]).0@ by {
                        assert(before.entries[a].0@ != before.entries[b].0@);
                    }
                    assert forall|k: Seq<char>| #[trigger]
                        self@.contains_key(k) == before@.remove(e.0@).contains_key(k) by {
                        if self@.contains_key(k) {
                            let c = choose|c: int| key_at(self.entries@, k, c);
                            assert(key_at(before.entries@, k, c));
                            assert(before.entries[c].0@ != before.entries[n].0@);
                        }
                        if before@.contains_key(k) && k != e.0@ {
                            let c = choose|c: int| key_at(before.entries@, k, c);
                            assert(key_at(self.entries@, k, c));
                        }
                    }
                    assert forall|k: Seq<char>| self@.contains_key(k) implies #[trigger] self@[k]
                        == before@.remove(e.0@)[k] by {
                        let c = choose|c: int| key_at(self.entries@, k, c);
                        self.lemma_index(c);
                        before.lemma_index(c);
                    }
                    assert(self@ =~= before@.remove(e.0@));
                }
            } else {
                assert(before@ =~= Map::<Seq<char>, V>::empty());
            }
        }
        r
    }

    /// The keys, each once, in the order in which they first came in.
    pub fn keys(&self) -> (keys: Vec<String>)
        ensures
            keys@.len() == self@.dom().len(),
            forall|i: int, j: int|
                0 <= i < j < keys@.len() ==> (#[trigger] keys@[i])@ != (#[trigger] keys@[j])@,
            forall|i: int| 0 <= i < keys@.len() ==> self@.contains_key(#[trigger] keys@[i]@),
            forall|k: Seq<char>|
                self@.contains_key(k) ==> exists|i: int| 0 <= i < keys@.len() && keys@[i]@ == k,
    {
        proof {
            use_type_invariant(self);
            self.lemma_dom();
        }
        let n: usize = self.entries.len();
        let mut keys: Vec<String> = Vec::new();
        let mut i: usize = 0;
        while i < n
            invariant
                i <= n,
                n == self.entries.len(),
                keys@.len() == i,
                forall|j: int| 0 <= j < i ==> (#[trigger] keys@[j])@ == self.entries[j].0@,
            decreases n - i,
        {
            keys.push(self.entries[i].0.clone());
            i = i + 1;
        }
        proof {
            assert forall|a: int, b: int| 0 <= a < b < keys@.len() implies (#[trigger] keys@[a])@
                != (#[trigger] keys@[b])@ by {
                assert(self.entries[a].0@ != self.entries[b].0@);
            }
            assert forall|j: int| 0 <= j < keys@.len() implies self@.contains_key(
                #[trigger] keys@[j]@,
            ) by {
                self.lemma_index(j);
            }
            assert forall|k: Seq<char>| self@.contains_key(k) implies exists|j: int|
                0 <= j < keys@.len() && keys@[j]@ == k by {
                let c = choose|c: int| key_at(self.entries@, k, c);
                assert(keys@[c]@ == k);
            }
        }
        keys
    }
}

} // verus!
