//! A small map keyed by text, kept as two parallel lists. Its model is a
//! `Map` from the key's characters to the stored value.

use crate::models::texts;
use crate::text::str_eq;
use vstd::prelude::*;

verus! {

/// A finite map from strings to values of type `V`.
pub struct TextMap<V> {
    keys: Vec<String>,
    vals: Vec<V>,
}

impl<V> TextMap<V> {
    /// Keys and values pair up, and no key is stored twice.
    pub closed spec fn wf(&self) -> bool {
        &&& self.keys.len() == self.vals.len()
        &&& forall|i: int, j: int|
            0 <= i < j < self.keys.len() ==> self.keys@[i]@ != self.keys@[j]@
    }

    closed spec fn slot(&self, key: Seq<char>) -> int {
        choose|i: int| 0 <= i < self.keys.len() && self.keys@[i]@ == key
    }

    /// The map that this value stands for.
    pub closed spec fn model(&self) -> Map<Seq<char>, V> {
        Map::new(
            |k: Seq<char>| exists|i: int| 0 <= i < self.keys.len() && self.keys@[i]@ == k,
            |k: Seq<char>| self.vals@[self.slot(k)],
        )
    }

    proof fn lemma_slot(&self, i: int)
        requires
            self.wf(),
            0 <= i < self.keys.len(),
        ensures
            self.model().contains_key(self.keys@[i]@),
            self.slot(self.keys@[i]@) == i,
            self.model()[self.keys@[i]@] == self.vals@[i],
    {
        let k = self.keys@[i]@;
        let j = self.slot(k);
        assert(0 <= j < self.keys.len() && self.keys@[j]@ == k);
        if i < j {
            assert(self.keys@[i]@ != self.keys@[j]@);
        } else if j < i {
            assert(self.keys@[j]@ != self.keys@[i]@);
        }
    }

    /// The empty map.
    pub fn new() -> (m: Self)
        ensures
            m.wf(),
            m.model() == Map::<Seq<char>, V>::empty(),
    {
        let m = TextMap { keys: Vec::new(), vals: Vec::new() };
        assert(m.model() =~= Map::<Seq<char>, V>::empty());
        m
    }

    fn find(&self, key: &str) -> (r: Option<usize>)
        requires
            self.wf(),
        ensures
            match r {
                Some(i) => i < self.keys.len() && self.keys@[i as int]@ == key@,
                None => !self.model().contains_key(key@),
            },
    {
        let mut i: usize = 0;
        while i < self.keys.len()
            invariant
                i <= self.keys.len(),
                forall|k: int| 0 <= k < i ==> self.keys@[k]@ != key@,
            decreases self.keys.len() - i,
        {
            if str_eq(self.keys[i].as_str(), key) {
                return Some(i);
            }
            i = i + 1;
        }
        None
    }

    /// The value stored under `key`, if there is one.
    pub fn get(&self, key: &str) -> (r: Option<&V>)
        requires
            self.wf(),
        ensures
            match r {
                Some(v) => self.model().contains_key(key@) && *v == self.model()[key@],
                None => !self.model().contains_key(key@),
            },
    {
        match self.find(key) {
            Some(i) => {
                proof {
                    self.lemma_slot(i as int);
                }
                Some(&self.vals[i])
            },
            None => None,
        }
    }

    /// Stores `val` under `key`, replacing what was there.
    pub fn put(&mut self, key: String, val: V)
        requires
            old(self).wf(),
        ensures
            final(self).wf(),
            final(self).model() == old(self).model().insert(key@, val),
    {
        let ghost before = *self;
        match self.find(key.as_str()) {
            Some(i) => {
                self.vals.set(i, val);
                proof {
                    let after = *self;
                    assert forall|k: Seq<char>| #[trigger]
                        after.model().contains_key(k) implies after.model()[k]
                        == before.model().insert(key@, val)[k] by {
                        let j = after.slot(k);
                        after.lemma_slot(j);
                        before.lemma_slot(j);
                    }
                    assert(after.model() =~= before.model().insert(key@, val));
                }
            },
            None => {
                self.keys.push(key);
                self.vals.push(val);
                proof {
                    let after = *self;
                    assert(after.wf());
                    assert forall|k: Seq<char>| #[trigger]
                        after.model().contains_key(k) implies after.model()[k]
                        == before.model().insert(key@, val)[k] by {
                        let j = after.slot(k);
                        after.lemma_slot(j);
                        if j < before.keys.len() {
                            before.lemma_slot(j);
                        }
                    }
                    assert forall|k: Seq<char>| #[trigger]
                        before.model().insert(key@, val).contains_key(k) implies after.model()
                        .contains_key(k) by {
                        if k == key@ {
                            after.lemma_slot(before.keys.len() as int);
                        } else {
                            let j = before.slot(k);
                            after.lemma_slot(j);
                        }
                    }
                    assert(after.model() =~= before.model().insert(key@, val));
                }
            },
        }
    }

    /// Forgets what is stored under `key`.
    pub fn remove(&mut self, key: &str)
        requires
            old(self).wf(),
        ensures
            final(self).wf(),
            final(self).model() == old(self).model().remove(key@),
    {
        let ghost before = *self;
        match self.find(key) {
            Some(i) => {
                self.keys.remove(i);
                self.vals.remove(i);
                proof {
                    let after = *self;
                    assert(after.wf()) by {
                        assert forall|a: int, b: int| 0 <= a < b < after.keys.len() implies after
                            .keys@[a]@ != after.keys@[b]@ by {
                            let a0 = if a < i { a } else { a + 1 };
                            let b0 = if b < i { b } else { b + 1 };
                            assert(after.keys@[a] == before.keys@[a0]);
                            assert(after.keys@[b] == before.keys@[b0]);
                        }
                    }
                    assert forall|k: Seq<char>| #[trigger]
                        after.model().contains_key(k) implies before.model().remove(
                        key@,
                    ).contains_key(k) && after.model()[k] == before.model().remove(key@)[k] by {
                        let j = after.slot(k);
                        after.lemma_slot(j);
                        let j0 = if j < i { j } else { j + 1 };
                        before.lemma_slot(j0);
                        before.lemma_slot(i as int);
                    }
                    assert forall|k: Seq<char>| #[trigger]
                        before.model().remove(key@).contains_key(k) implies after.model()
                        .contains_key(k) by {
                        let j0 = before.slot(k);
                        before.lemma_slot(j0);
                        let j = if j0 < i { j0 } else { j0 - 1 };
                        assert(after.keys@[j] == before.keys@[j0]);
                    }
                    assert(after.model() =~= before.model().remove(key@));
                }
            },
            None => {
                assert(self.model() =~= before.model().remove(key@));
            },
        }
    }

    /// The keys under which something is stored, each once, in the order
    /// in which they were first stored.
    pub fn keys(&self) -> (r: Vec<String>)
        requires
            self.wf(),
        ensures
            forall|i: int, j: int| 0 <= i < j < r.len() ==> r@[i]@ != r@[j]@,
            forall|k: Seq<char>| texts(r@).contains(k) <==> self.model().contains_key(k),
    {
        let mut r: Vec<String> = Vec::new();
        let mut i: usize = 0;
        while i < self.keys.len()
            invariant
                i <= self.keys.len(),
                r.len() == i,
                forall|k: int| 0 <= k < i ==> (#[trigger] r@[k])@ == self.keys@[k]@,
            decreases self.keys.len() - i,
        {
            r.push(self.keys[i].clone());
            i = i + 1;
        }
        proof {
            assert forall|k: Seq<char>| texts(r@).contains(k) <==> self.model().contains_key(
                k,
            ) by {
                if texts(r@).contains(k) {
                    let i = choose|i: int| 0 <= i < texts(r@).len() && texts(r@)[i] == k;
                    assert(self.keys@[i]@ == k);
                }
                if self.model().contains_key(k) {
                    let i = choose|i: int| 0 <= i < self.keys.len() && self.keys@[i]@ == k;
                    assert(texts(r@)[i] == k);
                }
            }
        }
        r
    }

    /// Forgets everything.
    pub fn clear(&mut self)
        ensures
            final(self).wf(),
            final(self).model() == Map::<Seq<char>, V>::empty(),
    {
        self.keys.clear();
        self.vals.clear();
        assert(self.model() =~= Map::<Seq<char>, V>::empty());
    }
}

} // verus!
