//! A map keyed by strings, used where a string-keyed hash map holds the
//! headers, cookies, query and form fields, sessions and caches.
use vstd::prelude::*;
use crate::text::{chars_of, chars_eq};

verus! {

/// A finite map from strings to values; no key occurs twice.
pub struct StrMap<V> {
    entries: Vec<(String, V)>,
}

impl<V> StrMap<V> {
    /// The keys, in storage order.
    pub closed spec fn keys(&self) -> Seq<Seq<char>> {
        self.entries@.map_values(|e: (String, V)| e.0@)
    }

    #[verifier::type_invariant]
    closed spec fn unique_keys(&self) -> bool {
        forall|i: int, j: int|
            0 <= i < self.entries@.len() && 0 <= j < self.entries@.len() && i != j
                ==> self.entries@[i].0@ != self.entries@[j].0@
    }

    /// Whether `k` is a key.
    pub closed spec fn has(&self, k: Seq<char>) -> bool {
        exists|i: int| 0 <= i < self.entries@.len() && self.entries@[i].0@ == k
    }

    /// The position of key `k`.
    closed spec fn pos(&self, k: Seq<char>) -> int {
        choose|i: int| 0 <= i < self.entries@.len() && self.entries@[i].0@ == k
    }

    /// The map from keys to values.
    pub closed spec fn view(&self) -> Map<Seq<char>, V> {
        Map::new(|k: Seq<char>| self.has(k), |k: Seq<char>| self.entries@[self.pos(k)].1)
    }

    /// The number of entries.
    pub closed spec fn size(&self) -> nat {
        self.entries@.len()
    }

    proof fn lemma_pos(&self, i: int)
        requires
            self.unique_keys(),
            0 <= i < self.entries@.len(),
        ensures
            self.has(self.entries@[i].0@),
            self.pos(self.entries@[i].0@) == i,
            self.view()[self.entries@[i].0@] == self.entries@[i].1,
    {
        let k = self.entries@[i].0@;
        assert(self.has(k));
        let j = self.pos(k);
        assert(self.entries@[j].0@ == k);
    }

    /// An empty map.
    pub fn new() -> (r: Self)
        ensures
            r.view() == Map::<Seq<char>, V>::empty(),
            r.size() == 0,
    {
        let r = StrMap { entries: Vec::new() };
        assert(r.view() =~= Map::<Seq<char>, V>::empty());
        r
    }

    /// The position of the entry whose key is `k`.
    fn find(&self, k: &Vec<char>) -> (r: Option<usize>)
        ensures
            match r {
                Some(i) => i < self.entries@.len() && self.entries@[i as int].0@ == k@,
                None => !self.has(k@),
            },
    {
        let mut i: usize = 0;
        while i < self.entries.len()
            invariant
                i <= self.entries@.len(),
                forall|j: int| 0 <= j < i ==> self.entries@[j].0@ != k@,
            decreases self.entries.len() - i,
        {
            let kc = chars_of(self.entries[i].0.as_str());
            if chars_eq(&kc, k) {
                return Some(i);
            }
            i = i + 1;
        }
        None
    }

    /// The value stored under `k`.
    pub fn get(&self, k: &str) -> (r: Option<&V>)
        ensures
            match r {
                Some(v) => self.view().contains_key(k@) && self.view()[k@] == *v,
                None => !self.view().contains_key(k@),
            },
    {
        proof {
            use_type_invariant(self);
        }
        let kc = chars_of(k);
        match self.find(&kc) {
            Some(i) => {
                proof {
                    self.lemma_pos(i as int);
                }
                Some(&self.entries[i].1)
            },
            None => None,
        }
    }

    /// Whether `k` is a key.
    pub fn contains_key(&self, k: &str) -> (r: bool)
        ensures
            r == self.view().contains_key(k@),
    {
        proof {
            use_type_invariant(self);
        }
        let kc = chars_of(k);
        match self.find(&kc) {
            Some(i) => {
                proof {
                    self.lemma_pos(i as int);
                }
                true
            },
            None => false,
        }
    }

    /// Whether the map has no entries.
    pub fn is_empty(&self) -> (r: bool)
        ensures
            r == (self.view() == Map::<Seq<char>, V>::empty()),
            r == (self.size() == 0),
    {
        proof {
            use_type_invariant(self);
        }
        if self.entries.len() == 0 {
            assert(self.view() =~= Map::<Seq<char>, V>::empty());
            true
        } else {
            proof {
                self.lemma_pos(0);
                assert(self.view().contains_key(self.entries@[0].0@));
            }
            false
        }
    }

    /// The number of entries.
    pub fn len(&self) -> (r: usize)
        ensures
            r == self.size(),
    {
        self.entries.len()
    }

    /// Stores `v` under `k`, replacing any earlier value.
    pub fn insert(&mut self, k: String, v: V)
        ensures
            final(self).view() == old(self).view().insert(k@, v),
            old(self).view().contains_key(k@) ==> final(self).size() == old(self).size(),
            !old(self).view().contains_key(k@) ==> final(self).size() == old(self).size() + 1,
    {
        proof {
            use_type_invariant(&*self);
        }
        let kc = chars_of(k.as_str());
        let ghost kv = k@;
        let ghost before = *self;
        match self.find(&kc) {
            Some(i) => {
                let mut entries = Vec::new();
                std::mem::swap(&mut entries, &mut self.entries);
                let ghost old_entries = entries@;
                entries.set(i, (k, v));
                assert forall|a: int, b: int|
                    0 <= a < entries@.len() && 0 <= b < entries@.len() && a != b implies entries@[a].0@
                    != entries@[b].0@ by {
                    assert(old_entries[a].0@ != old_entries[b].0@);
                }
                self.entries = entries;
                proof {
                    use_type_invariant(&*self);
                    before.lemma_pos(i as int);
                    assert forall|key: Seq<char>|
                        #![auto]
                        self.view().contains_key(key) == before.view().insert(kv, v).contains_key(
                            key,
                        ) by {
                        if key == kv {
                            assert(self.entries@[i as int].0@ == kv);
                        }
                        if key != kv && before.has(key) {
                            let j = before.pos(key);
                            assert(self.entries@[j].0@ == key);
                        }
                        if self.has(key) {
                            let j = self.pos(key);
                            if j != i {
                                assert(before.entries@[j].0@ == key);
                            }
                        }
                    }
                    assert forall|key: Seq<char>| #[trigger]
                        self.view().contains_key(key) implies self.view()[key] == before.view().insert(
                        kv,
                        v,
                    )[key] by {
                        if key == kv {
                            self.lemma_pos(i as int);
                        } else {
                            let j = self.pos(key);
                            self.lemma_pos(j);
                            before.lemma_pos(j);
                        }
                    }
                    assert(self.view() =~= before.view().insert(kv, v));
                }
            },
            None => {
                let mut entries = Vec::new();
                std::mem::swap(&mut entries, &mut self.entries);
                let ghost old_entries = entries@;
                entries.push((k, v));
                assert forall|a: int, b: int|
                    0 <= a < entries@.len() && 0 <= b < entries@.len() && a != b implies entries@[a].0@
                    != entries@[b].0@ by {
                    if a < old_entries.len() && b < old_entries.len() {
                        assert(old_entries[a].0@ != old_entries[b].0@);
                    } else if a < old_entries.len() {
                        assert(before.entries@[a].0@ != kv);
                    } else {
                        assert(before.entries@[b].0@ != kv);
                    }
                }
                self.entries = entries;
                proof {
                    use_type_invariant(&*self);
                    let n = old_entries.len() as int;
                    assert forall|key: Seq<char>|
                        #![auto]
                        self.view().contains_key(key) == before.view().insert(kv, v).contains_key(
                            key,
                        ) by {
                        if key == kv {
                            assert(self.entries@[n].0@ == kv);
                        } else if before.has(key) {
                            let j = before.pos(key);
                            assert(self.entries@[j].0@ == key);
                        }
                        if self.has(key) {
                            let j = self.pos(key);
                            if j != n {
                                assert(before.entries@[j].0@ == key);
                            }
                        }
                    }
                    assert forall|key: Seq<char>| #[trigger]
                        self.view().contains_key(key) implies self.view()[key] == before.view().insert(
                        kv,
                        v,
                    )[key] by {
                        if key == kv {
                            self.lemma_pos(n);
                        } else {
                            let j = self.pos(key);
                            self.lemma_pos(j);
                            before.lemma_pos(j);
                        }
                    }
                    assert(self.view() =~= before.view().insert(kv, v));
                }
            },
        }
    }

    /// Removes the entry for `k`, if any.
    pub fn remove(&mut self, k: &str)
        ensures
            final(self).view() == old(self).view().remove(k@),
    {
        let _ = self.take(k);
    }

    /// Removes the entry for `k` and gives back its value, if there was one.
    pub fn take(&mut self, k: &str) -> (r: Option<V>)
        ensures
            final(self).view() == old(self).view().remove(k@),
            match r {
                Some(v) => old(self).view().contains_key(k@) && old(self).view()[k@] == v,
                None => !old(self).view().contains_key(k@),
            },
    {
        proof {
            use_type_invariant(&*self);
        }
        let kc = chars_of(k);
        let ghost before = *self;
        match self.find(&kc) {
            Some(i) => {
                let mut entries = Vec::new();
                std::mem::swap(&mut entries, &mut self.entries);
                let ghost old_entries = entries@;
                proof {
                    before.lemma_pos(i as int);
                }
                let taken = entries.remove(i);
                assert forall|a: int, b: int|
                    0 <= a < entries@.len() && 0 <= b < entries@.len() && a != b implies entries@[a].0@
                    != entries@[b].0@ by {
                    let a2 = if a < i { a } else { a + 1 };
                    let b2 = if b < i { b } else { b + 1 };
                    assert(old_entries[a2].0@ != old_entries[b2].0@);
                }
                self.entries = entries;
                proof {
                    use_type_invariant(&*self);
                    let ki = i as int;
                    assert forall|key: Seq<char>|
                        #![auto]
                        self.view().contains_key(key) == before.view().remove(k@).contains_key(
                            key,
                        ) by {
                        if key != k@ && before.has(key) {
                            let j = before.pos(key);
                            if j < ki {
                                assert(self.entries@[j].0@ == key);
                            } else {
                                assert(j != ki);
                                assert(self.entries@[j - 1].0@ == key);
                            }
                        }
                        if self.has(key) {
                            let j = self.pos(key);
                            let j2 = if j < ki { j } else { j + 1 };
                            assert(before.entries@[j2].0@ == key);
                            assert(key != k@);
                        }
                    }
                    assert forall|key: Seq<char>| #[trigger]
                        self.view().contains_key(key) implies self.view()[key] == before.view().remove(
                        k@,
                    )[key] by {
                        let j = self.pos(key);
                        self.lemma_pos(j);
                        let j2 = if j < ki { j } else { j + 1 };
                        before.lemma_pos(j2);
                    }
                    assert(self.view() =~= before.view().remove(k@));
                }
                Some(taken.1)
            },
            None => {
                assert(self.view() =~= before.view().remove(k@));
                None
            },
        }
    }

    /// The entries as (key, value) references.
    pub fn pairs(&self) -> (r: Vec<(&String, &V)>)
        ensures
            r@.len() == self.size(),
            forall|i: int|
                0 <= i < r@.len() ==> self.view().contains_key(#[trigger] r@[i].0@)
                    && self.view()[r@[i].0@] == *r@[i].1,
            forall|k: Seq<char>|
                self.view().contains_key(k) ==> exists|i: int|
                    0 <= i < r@.len() && #[trigger] r@[i].0@ == k,
    {
        proof {
            use_type_invariant(self);
        }
        let mut r: Vec<(&String, &V)> = Vec::new();
        let mut i: usize = 0;
        while i < self.entries.len()
            invariant
                i <= self.entries@.len(),
                r@.len() == i,
                forall|j: int|
                    0 <= j < i ==> r@[j].0 == &self.entries@[j].0 && r@[j].1 == &self.entries@[j].1,
            decreases self.entries.len() - i,
        {
            r.push((&self.entries[i].0, &self.entries[i].1));
            i = i + 1;
        }
        proof {
            assert forall|j: int| 0 <= j < r@.len() implies self.view().contains_key(
                #[trigger] r@[j].0@,
            ) && self.view()[r@[j].0@] == *r@[j].1 by {
                self.lemma_pos(j);
            }
            assert forall|k: Seq<char>| self.view().contains_key(k) implies exists|j: int|
                0 <= j < r@.len() && #[trigger] r@[j].0@ == k by {
                let j = self.pos(k);
                assert(r@[j].0@ == k);
            }
        }
        r
    }
}

} // verus!
