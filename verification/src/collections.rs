//! A map from texts, kept as a list of entries with distinct keys.
use crate::text::str_eq;
use vstd::prelude::*;

verus! {

pub struct StringMap<V> {
    entries: Vec<(String, V)>,
}

impl<V> View for StringMap<V> {
    type V = Map<Seq<char>, V>;

    closed spec fn view(&self) -> Map<Seq<char>, V> {
        Map::new(|k: Seq<char>| self.holds(k), |k: Seq<char>| self.entries@[self.place(k)].1)
    }
}

impl<V> StringMap<V> {
    /// No key occurs twice.
    pub closed spec fn wf(&self) -> bool {
        forall|i: int, j: int|
            0 <= i < j < self.entries@.len() ==> (#[trigger] self.entries@[i]).0@ != (
            #[trigger] self.entries@[j]).0@
    }

    spec fn at(&self, k: Seq<char>, i: int) -> bool {
        0 <= i < self.entries@.len() && self.entries@[i].0@ == k
    }

    spec fn holds(&self, k: Seq<char>) -> bool {
        exists|i: int| self.at(k, i)
    }

    spec fn place(&self, k: Seq<char>) -> int {
        choose|i: int| self.at(k, i)
    }

    /// The keys in the order in which the entries are kept.
    pub closed spec fn keys(&self) -> Seq<Seq<char>> {
        Seq::new(self.entries@.len(), |i: int| self.entries@[i].0@)
    }

    proof fn lemma_at(&self, k: Seq<char>, i: int)
        requires
            self.wf(),
            self.at(k, i),
        ensures
            self@.dom().contains(k),
            self@[k] == self.entries@[i].1,
    {
        let p = self.place(k);
        assert(self.at(k, p));
        if p < i {
            assert(self.entries@[p].0@ != self.entries@[i].0@);
        } else if i < p {
            assert(self.entries@[i].0@ != self.entries@[p].0@);
        }
    }

    /// Every key is listed once, and nothing else is.
    pub proof fn lemma_keys(&self)
        requires
            self.wf(),
        ensures
            self.keys().no_duplicates(),
            forall|k: Seq<char>| #[trigger] self.keys().contains(k) <==> self@.dom().contains(k),
    {
        assert forall|i: int, j: int|
            0 <= i < self.keys().len() && 0 <= j < self.keys().len() && i
                != j implies self.keys()[i] != self.keys()[j] by {
            if i < j {
                assert(self.entries@[i].0@ != self.entries@[j].0@);
            } else {
                assert(self.entries@[j].0@ != self.entries@[i].0@);
            }
        }
        assert forall|k: Seq<char>| #[trigger]
            self.keys().contains(k) <==> self@.dom().contains(k) by {
            if self.keys().contains(k) {
                let i = choose|i: int| 0 <= i < self.keys().len() && self.keys()[i] == k;
                assert(self.at(k, i));
            }
            if self@.dom().contains(k) {
                let i = choose|i: int| self.at(k, i);
                assert(self.keys()[i] == k);
            }
        }
    }

    /// The map has as many keys as it has entries.
    pub proof fn lemma_len(&self)
        requires
            self.wf(),
        ensures
            self@.dom().finite(),
            self@.dom().len() == self.keys().len(),
    {
        self.lemma_keys();
        self.keys().unique_seq_to_set();
        assert(self.keys().to_set() =~= self@.dom());
        vstd::seq_lib::seq_to_set_is_finite(self.keys());
    }

    pub fn new() -> (r: Self)
        ensures
            r.wf(),
            r@ == Map::<Seq<char>, V>::empty(),
            r.keys() == Seq::<Seq<char>>::empty(),
    {
        let r = StringMap { entries: Vec::new() };
        proof {
            assert(r@.dom() =~= Set::empty()) by {
                assert forall|k: Seq<char>| !r@.dom().contains(k) by {
                    if r.holds(k) {
                        let i = choose|i: int| r.at(k, i);
                    }
                }
            }
            assert(r@ =~= Map::empty());
            assert(r.keys() =~= Seq::empty());
        }
        r
    }

    pub fn len(&self) -> (n: usize)
        requires
            self.wf(),
        ensures
            n == self@.dom().len(),
            n == self.keys().len(),
    {
        proof {
            self.lemma_len();
        }
        self.entries.len()
    }

    pub fn is_empty(&self) -> (r: bool)
        requires
            self.wf(),
        ensures
            r == (self@.dom().len() == 0),
    {
        self.len() == 0
    }

    fn index_of(&self, key: &str) -> (r: Option<usize>)
        requires
            self.wf(),
        ensures
            r is Some <==> self@.dom().contains(key@),
            r matches Some(i) ==> self.at(key@, i as int) && self@[key@]
                == self.entries@[i as int].1,
    {
        for i in 0..self.entries.len()
            invariant
                self.wf(),
                forall|j: int| 0 <= j < i ==> (#[trigger] self.entries@[j]).0@ != key@,
        {
            if str_eq(self.entries[i].0.as_str(), key) {
                proof {
                    self.lemma_at(key@, i as int);
                }
                return Some(i);
            }
        }
        proof {
            if self.holds(key@) {
                let j = choose|j: int| self.at(key@, j);
                assert(self.entries@[j].0@ != key@);
            }
        }
        None
    }

    pub fn get(&self, key: &str) -> (r: Option<&V>)
        requires
            self.wf(),
        ensures
            r == if self@.dom().contains(key@) {
                Some(&self@[key@])
            } else {
                None
            },
    {
        match self.index_of(key) {
            Some(i) => Some(&self.entries[i].1),
            None => None,
        }
    }

    pub fn contains_key(&self, key: &str) -> (r: bool)
        requires
            self.wf(),
        ensures
            r == self@.dom().contains(key@),
    {
        self.index_of(key).is_some()
    }

    /// Set the value under a key. A new key comes last.
    pub fn insert(&mut self, key: String, value: V)
        requires
            old(self).wf(),
        ensures
            final(self).wf(),
            final(self)@ == old(self)@.insert(key@, value),
            final(self).keys() == if old(self)@.dom().contains(key@) {
                old(self).keys()
            } else {
                old(self).keys().push(key@)
            },
    {
        let ghost before = *self;
        let ghost k = key@;
        match self.index_of(key.as_str()) {
            Some(i) => {
                self.entries[i] = (key, value);
                proof {
                    assert(forall|j: int| 0 <= j < self.entries@.len() ==> (
                    #[trigger] self.entries@[j]).0@ == before.entries@[j].0@);
                    assert(self.wf());
                    assert(self.keys() =~= before.keys());
                    before.lemma_entries();
                    let m = before@.insert(k, value);
                    assert forall|j: int| 0 <= j < self.entries@.len() implies m.dom().contains(
                        (#[trigger] self.entries@[j]).0@,
                    ) && m[self.entries@[j].0@] == self.entries@[j].1 by {
                        if j != i {
                            assert(self.entries@[j] == before.entries@[j]);
                            if j < i {
                                assert(before.entries@[j].0@ != before.entries@[i as int].0@);
                            } else {
                                assert(before.entries@[i as int].0@ != before.entries@[j].0@);
                            }
                        }
                    }
                    assert forall|q: Seq<char>| m.dom().contains(q) implies #[trigger] self.holds(
                        q,
                    ) by {
                        if q == k {
                            assert(self.at(q, i as int));
                        } else {
                            let j = choose|j: int| before.at(q, j);
                            assert(self.at(q, j));
                        }
                    }
                    self.lemma_same_as(m);
                }
            },
            None => {
                self.entries.push((key, value));
                proof {
                    assert(self.wf()) by {
                        assert forall|i: int, j: int| 0 <= i < j < self.entries@.len() implies (
                        #[trigger] self.entries@[i]).0@ != (#[trigger] self.entries@[j]).0@ by {
                            assert(self.entries@[i] == before.entries@[i]);
                            if j == before.entries@.len() {
                                if before.entries@[i].0@ == k {
                                    assert(before.at(k, i));
                                }
                            } else {
                                assert(self.entries@[j] == before.entries@[j]);
                            }
                        }
                    }
                    assert(self.keys() =~= before.keys().push(k));
                    before.lemma_entries();
                    assert forall|i: int| 0 <= i < self.entries@.len() implies before@.insert(
                        k,
                        value,
                    ).dom().contains((#[trigger] self.entries@[i]).0@) && before@.insert(
                        k,
                        value,
                    )[self.entries@[i].0@] == self.entries@[i].1 by {
                        if i < before.entries@.len() {
                            assert(self.entries@[i] == before.entries@[i]);
                            assert(before.at(before.entries@[i].0@, i));
                        }
                    }
                    assert forall|q: Seq<char>|
                        before@.insert(k, value).dom().contains(q) implies #[trigger] self.holds(
                        q,
                    ) by {
                        if q == k {
                            assert(self.at(q, before.entries@.len() as int));
                        } else {
                            let i = choose|i: int| before.at(q, i);
                            assert(self.at(q, i));
                        }
                    }
                    self.lemma_same_as(before@.insert(k, value));
                }
            },
        }
    }

    /// Take a key out of the map.
    pub fn remove(&mut self, key: &str) -> (r: Option<V>)
        requires
            old(self).wf(),
        ensures
            final(self).wf(),
            final(self)@ == old(self)@.remove(key@),
            r == if old(self)@.dom().contains(key@) {
                Some(old(self)@[key@])
            } else {
                None
            },
    {
        let ghost before = *self;
        match self.index_of(key) {
            Some(i) => {
                let (_, value) = self.entries.remove(i);
                proof {
                    assert(forall|j: int|
                        0 <= j < self.entries@.len() ==> #[trigger] self.entries@[j] == if j < i {
                            before.entries@[j]
                        } else {
                            before.entries@[j + 1]
                        });
                    assert(self.wf()) by {
                        assert forall|p: int, q: int| 0 <= p < q < self.entries@.len() implies (
                        #[trigger] self.entries@[p]).0@ != (#[trigger] self.entries@[q]).0@ by {
                            let p2 = if p < i {
                                p
                            } else {
                                p + 1
                            };
                            let q2 = if q < i {
                                q
                            } else {
                                q + 1
                            };
                            assert(before.entries@[p2].0@ != before.entries@[q2].0@);
                        }
                    }
                    before.lemma_entries();
                    let m = before@.remove(key@);
                    assert forall|j: int| 0 <= j < self.entries@.len() implies m.dom().contains(
                        (#[trigger] self.entries@[j]).0@,
                    ) && m[self.entries@[j].0@] == self.entries@[j].1 by {
                        let j2 = if j < i {
                            j
                        } else {
                            j + 1
                        };
                        assert(before.at(before.entries@[j2].0@, j2));
                        if j2 < i {
                            assert(before.entries@[j2].0@ != before.entries@[i as int].0@);
                        } else {
                            assert(before.entries@[i as int].0@ != before.entries@[j2].0@);
                        }
                    }
                    assert forall|q: Seq<char>| m.dom().contains(q) implies #[trigger] self.holds(
                        q,
                    ) by {
                        let j = choose|j: int| before.at(q, j);
                        assert(before.at(q, j));
                        if j < i {
                            assert(self.at(q, j));
                        } else {
                            assert(self.entries@[j - 1] == before.entries@[j]);
                            assert(self.at(q, j - 1));
                        }
                    }
                    self.lemma_same_as(m);
                }
                Some(value)
            },
            None => {
                assert(before@.remove(key@) =~= before@);
                None
            },
        }
    }

    proof fn lemma_entries(&self)
        requires
            self.wf(),
        ensures
            forall|i: int|
                0 <= i < self.entries@.len() ==> self@.dom().contains(
                    (#[trigger] self.entries@[i]).0@,
                ) && self@[self.entries@[i].0@] == self.entries@[i].1,
    {
        assert forall|i: int| 0 <= i < self.entries@.len() implies self@.dom().contains(
            (#[trigger] self.entries@[i]).0@,
        ) && self@[self.entries@[i].0@] == self.entries@[i].1 by {
            self.lemma_at(self.entries@[i].0@, i);
        }
    }

    proof fn lemma_same_as(&self, m: Map<Seq<char>, V>)
        requires
            self.wf(),
            forall|i: int|
                0 <= i < self.entries@.len() ==> m.dom().contains((#[trigger] self.entries@[i]).0@)
                    && m[self.entries@[i].0@] == self.entries@[i].1,
            forall|k: Seq<char>| m.dom().contains(k) ==> #[trigger] self.holds(k),
        ensures
            self@ == m,
    {
        assert forall|k: Seq<char>| #[trigger] self@.dom().contains(k) <==> m.dom().contains(
            k,
        ) by {
            if self.holds(k) {
                let i = choose|i: int| self.at(k, i);
                assert(m.dom().contains(self.entries@[i].0@));
            }
        }
        assert forall|k: Seq<char>| self@.dom().contains(k) implies self@[k] == m[k] by {
            let i = choose|i: int| self.at(k, i);
            self.lemma_at(k, i);
            assert(m[self.entries@[i].0@] == self.entries@[i].1);
        }
        assert(self@ =~= m);
    }

    /// The entry kept at a place.
    pub fn entry(&self, i: usize) -> (r: (&String, &V))
        requires
            self.wf(),
            i < self.keys().len(),
        ensures
            r.0@ == self.keys()[i as int],
            self@.dom().contains(r.0@),
            *r.1 == self@[r.0@],
    {
        proof {
            self.lemma_entries();
            assert(self.keys()[i as int] == self.entries@[i as int].0@);
        }
        let e = &self.entries[i];
        (&e.0, &e.1)
    }
}

} // verus!
