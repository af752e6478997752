//! A small map from serial-number strings to values, backed by a pair of
//! vectors with distinct keys. Its view is a `Map<Seq<char>, V::V>`, so the
//! registry and framebuffer contracts can be stated over mathematical maps.

use vstd::prelude::*;

verus! {

/// A map keyed by strings, holding one value per distinct key.
pub struct AssocMap<V> {
    keys: Vec<String>,
    vals: Vec<V>,
}

impl<V: View> AssocMap<V> {
    /// The key strings, as a sequence of character sequences.
    pub closed spec fn key_seq(self) -> Seq<Seq<char>> {
        self.keys@.map_values(|k: String| k@)
    }

    /// Well-formedness: keys and values line up, and no key repeats.
    pub closed spec fn wf(self) -> bool {
        &&& self.keys@.len() == self.vals@.len()
        &&& forall|i: int, j: int|
            0 <= i < j < self.key_seq().len() ==> self.key_seq()[i] != self.key_seq()[j]
    }

    /// The abstract contents: each stored key maps to its value's view.
    pub closed spec fn view(self) -> Map<Seq<char>, V::V> {
        Map::new(
            |k: Seq<char>| self.key_seq().contains(k),
            |k: Seq<char>| self.vals@[self.key_seq().index_of(k)]@,
        )
    }

    /// A key stored at position `i` is found again at position `i`.
    proof fn lemma_key_index(self, i: int)
        requires
            self.wf(),
            0 <= i < self.key_seq().len(),
        ensures
            self.key_seq().index_of(self.key_seq()[i]) == i,
            self@.contains_key(self.key_seq()[i]),
            self@[self.key_seq()[i]] == self.vals@[i]@,
    {
        let ks = self.key_seq();
        assert(ks.contains(ks[i]));
        let j = ks.index_of(ks[i]);
        assert(0 <= j < ks.len() && ks[j] == ks[i]);
        if i < j {
            assert(ks[i] != ks[j]);
        }
        if j < i {
            assert(ks[j] != ks[i]);
        }
    }

    /// An empty map.
    pub fn new() -> (m: Self)
        ensures
            m.wf(),
            m@ == Map::<Seq<char>, V::V>::empty(),
    {
        let m = AssocMap { keys: Vec::new(), vals: Vec::new() };
        proof {
            assert(m@ =~= Map::<Seq<char>, V::V>::empty());
        }
        m
    }

    /// Position of `key` among the stored keys, if present.
    fn find(&self, key: &String) -> (r: Option<usize>)
        requires
            self.wf(),
        ensures
            match r {
                Some(i) => i < self.key_seq().len() && self.key_seq()[i as int] == key@,
                None => !self.key_seq().contains(key@),
            },
    {
        let n = self.keys.len();
        let mut i: usize = 0;
        while i < n
            invariant
                n == self.key_seq().len(),
                i <= n,
                self.wf(),
                forall|j: int| 0 <= j < i ==> self.key_seq()[j] != key@,
            decreases n - i,
        {
            if self.keys[i] == *key {
                return Some(i);
            }
            i = i + 1;
        }
        None
    }

    /// Whether `key` has a value.
    pub fn contains_key(&self, key: &String) -> (r: bool)
        requires
            self.wf(),
        ensures
            r == self@.contains_key(key@),
    {
        match self.find(key) {
            Some(i) => {
                proof {
                    self.lemma_key_index(i as int);
                }
                true
            },
            None => false,
        }
    }

    /// The value stored under `key`, if any.
    pub fn get(&self, key: &String) -> (r: Option<&V>)
        requires
            self.wf(),
        ensures
            match r {
                Some(v) => self@.contains_key(key@) && v@ == self@[key@],
                None => !self@.contains_key(key@),
            },
    {
        match self.find(key) {
            Some(i) => {
                proof {
                    self.lemma_key_index(i as int);
                }
                Some(&self.vals[i])
            },
            None => None,
        }
    }

    /// Stores `val` under `key`, replacing any previous value.
    pub fn insert(&mut self, key: String, val: V)
        requires
            old(self).wf(),
        ensures
            final(self).wf(),
            final(self)@ == old(self)@.insert(key@, val@),
    {
        let ghost old_self = *self;
        match self.find(&key) {
            Some(i) => {
                self.vals.set(i, val);
                proof {
                    assert(self.key_seq() =~= old_self.key_seq());
                    assert(self.wf());
                    assert forall|k: Seq<char>| #[trigger] self@.contains_key(k) || old_self@.insert(
                        key@,
                        val@,
                    ).contains_key(k) implies self@.contains_key(k) && old_self@.insert(
                        key@,
                        val@,
                    ).contains_key(k) && self@[k] == old_self@.insert(key@, val@)[k] by {
                        if k == key@ {
                            self.lemma_key_index(i as int);
                        } else {
                            if old_self.key_seq().contains(k) {
                                let j = old_self.key_seq().index_of(k);
                                old_self.lemma_key_index(j);
                                self.lemma_key_index(j);
                                assert(j != i);
                            }
                        }
                    }
                    assert(self@ =~= old_self@.insert(key@, val@));
                }
            },
            None => {
                let ghost k = key@;
                self.keys.push(key);
                self.vals.push(val);
                proof {
                    assert(self.key_seq() =~= old_self.key_seq().push(k));
                    let n = old_self.key_seq().len() as int;
                    assert forall|i: int, j: int|
                        0 <= i < j < self.key_seq().len() implies self.key_seq()[i]
                        != self.key_seq()[j] by {
                        if j < n {
                            assert(old_self.key_seq()[i] != old_self.key_seq()[j]);
                        } else {
                            assert(self.key_seq()[j] == k);
                            assert(old_self.key_seq()[i] == self.key_seq()[i]);
                            assert(!old_self.key_seq().contains(k));
                        }
                    }
                    assert(self.wf());
                    assert forall|q: Seq<char>| #[trigger] self@.contains_key(q) || old_self@.insert(
                        k,
                        val@,
                    ).contains_key(q) implies self@.contains_key(q) && old_self@.insert(
                        k,
                        val@,
                    ).contains_key(q) && self@[q] == old_self@.insert(k, val@)[q] by {
                        if q == k {
                            self.lemma_key_index(n);
                        } else {
                            if old_self.key_seq().contains(q) {
                                let j = old_self.key_seq().index_of(q);
                                old_self.lemma_key_index(j);
                                assert(self.key_seq()[j] == q);
                                self.lemma_key_index(j);
                            } else if self.key_seq().contains(q) {
                                let j = self.key_seq().index_of(q);
                                self.lemma_key_index(j);
                                assert(j < n ==> old_self.key_seq()[j] == q);
                                assert(j == n ==> q == k);
                            }
                        }
                    }
                    assert(self@ =~= old_self@.insert(k, val@));
                }
            },
        }
    }

    /// Removes and returns the value stored under `key`, if any.
    pub fn take(&mut self, key: &String) -> (r: Option<V>)
        requires
            old(self).wf(),
        ensures
            final(self).wf(),
            final(self)@ == old(self)@.remove(key@),
            match r {
                Some(v) => old(self)@.contains_key(key@) && v@ == old(self)@[key@],
                None => !old(self)@.contains_key(key@),
            },
    {
        let ghost old_self = *self;
        match self.find(key) {
            Some(i) => {
                proof {
                    old_self.lemma_key_index(i as int);
                }
                self.keys.remove(i);
                let v = self.vals.remove(i);
                proof {
                    let n = old_self.key_seq().len() as int;
                    assert(self.key_seq() =~= old_self.key_seq().remove(i as int));
                    assert forall|a: int, b: int|
                        0 <= a < b < self.key_seq().len() implies self.key_seq()[a]
                        != self.key_seq()[b] by {
                        let a0: int = if a < i { a } else { a + 1 };
                        let b0: int = if b < i { b } else { b + 1 };
                        assert(self.key_seq()[a] == old_self.key_seq()[a0]);
                        assert(self.key_seq()[b] == old_self.key_seq()[b0]);
                    }
                    assert(self.wf());
                    assert forall|q: Seq<char>| #[trigger] self@.contains_key(q) || old_self@.remove(
                        key@,
                    ).contains_key(q) implies self@.contains_key(q) && old_self@.remove(
                        key@,
                    ).contains_key(q) && self@[q] == old_self@.remove(key@)[q] by {
                        if self.key_seq().contains(q) {
                            let j = self.key_seq().index_of(q);
                            self.lemma_key_index(j);
                            let j0: int = if j < i { j } else { j + 1 };
                            assert(old_self.key_seq()[j0] == q);
                            old_self.lemma_key_index(j0);
                            assert(q != key@);
                        } else if old_self@.remove(key@).contains_key(q) {
                            let j0 = old_self.key_seq().index_of(q);
                            old_self.lemma_key_index(j0);
                            assert(j0 != i);
                            let j: int = if j0 < i { j0 } else { j0 - 1 };
                            assert(self.key_seq()[j] == q);
                            assert(self.key_seq().contains(q));
                        }
                    }
                    assert(self@ =~= old_self@.remove(key@));
                }
                Some(v)
            },
            None => {
                proof {
                    assert(self@ =~= old_self@.remove(key@));
                }
                None
            },
        }
    }
}

impl AssocMap<String> {
    /// All key/value pairs, cloned: every stored key appears exactly once
    /// with its value.
    pub fn entries(&self) -> (r: Vec<(String, String)>)
        requires
            self.wf(),
        ensures
            forall|i: int|
                0 <= i < r@.len() ==> self@.contains_key(#[trigger] r@[i].0@) && self@[r@[i].0@]
                    == r@[i].1@,
            forall|k: Seq<char>|
                self@.contains_key(k) ==> exists|i: int| 0 <= i < r@.len() && #[trigger] r@[i].0@
                    == k,
            forall|i: int, j: int| 0 <= i < j < r@.len() ==> r@[i].0@ != r@[j].0@,
    {
        let n = self.keys.len();
        let mut r: Vec<(String, String)> = Vec::new();
        let mut i: usize = 0;
        while i < n
            invariant
                self.wf(),
                n == self.key_seq().len(),
                i <= n,
                r@.len() == i,
                forall|j: int| 0 <= j < i ==> #[trigger] r@[j].0@ == self.key_seq()[j],
                forall|j: int|
                    0 <= j < i ==> self@.contains_key(#[trigger] r@[j].0@) && self@[r@[j].0@]
                        == r@[j].1@,
            decreases n - i,
        {
            let pair = (self.keys[i].clone(), self.vals[i].clone());
            proof {
                self.lemma_key_index(i as int);
            }
            r.push(pair);
            i = i + 1;
        }
        proof {
            assert forall|k: Seq<char>| self@.contains_key(k) implies exists|j: int|
                0 <= j < r@.len() && #[trigger] r@[j].0@ == k by {
                let j = self.key_seq().index_of(k);
                assert(0 <= j < r@.len() && r@[j].0@ == k);
            }
        }
        r
    }
}

} // verus!
