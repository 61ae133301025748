//! A string-keyed association table. It backs every registry cache and every
//! modelled durable table: keys are compared by their characters, one value is
//! held per key, and the order in which keys entered is observable, which keeps
//! registry scans deterministic.

use vstd::prelude::*;

verus! {

pub struct StrMap<V> {
    keys: Vec<String>,
    vals: Vec<V>,
}

impl<V> View for StrMap<V> {
    type V = Map<Seq<char>, V>;

    closed spec fn view(&self) -> Map<Seq<char>, V> {
        Map::new(
            |k: Seq<char>| self.keys.deep_view().contains(k),
            |k: Seq<char>| self.vals@[self.keys.deep_view().index_of(k)],
        )
    }
}

impl<V> StrMap<V> {
    /// The keys in storage order, as character sequences.
    pub closed spec fn key_seq(&self) -> Seq<Seq<char>> {
        self.keys.deep_view()
    }

    /// One value per key and no key twice.
    pub closed spec fn wf(&self) -> bool {
        &&& self.keys@.len() == self.vals@.len()
        &&& self.key_seq().no_duplicates()
    }

    /// A well-formed map's key order lists no key twice.
    pub proof fn lemma_no_dup_keys(&self)
        requires
            self.wf(),
        ensures
            self.key_seq().no_duplicates(),
    {
    }

    /// The map holds a key exactly when the key order lists it.
    pub proof fn lemma_dom(&self)
        ensures
            forall|k: Seq<char>| self@.contains_key(k) <==> self.key_seq().contains(k),
    {
    }

    /// The stored values in key order (an implementation view; `lemma_val_at`
    /// ties it to the map).
    pub closed spec fn vals_internal(&self) -> Seq<V> {
        self.vals@
    }

    /// The value stored at position `i` of the key order is the value of that key.
    pub proof fn lemma_val_at(&self, i: int)
        requires
            self.wf(),
            0 <= i < self.key_seq().len(),
        ensures
            self@.contains_key(self.key_seq()[i]),
            self@[self.key_seq()[i]] == self.vals_internal()[i],
    {
        let k = self.key_seq()[i];
        assert(self.key_seq().contains(k));
        let j = self.key_seq().index_of(k);
        assert(self.key_seq()[j] == k);
    }

    pub fn new() -> (m: Self)
        ensures
            m.wf(),
            m@ == Map::<Seq<char>, V>::empty(),
            m.key_seq() == Seq::<Seq<char>>::empty(),
    {
        let m = StrMap { keys: Vec::new(), vals: Vec::new() };
        proof {
            assert(m.key_seq() =~= Seq::<Seq<char>>::empty());
            assert(m@ =~= Map::<Seq<char>, V>::empty());
        }
        m
    }

    pub fn len(&self) -> (n: usize)
        ensures
            n == self.key_seq().len(),
    {
        self.keys.len()
    }

    fn find(&self, k: &String) -> (r: Option<usize>)
        requires
            self.wf(),
        ensures
            match r {
                Some(i) => i < self.key_seq().len() && self.key_seq()[i as int] == k@,
                None => !self.key_seq().contains(k@),
            },
    {
        let n = self.keys.len();
        let mut i: usize = 0;
        while i < n
            invariant
                self.wf(),
                n == self.key_seq().len(),
                i <= n,
                forall|j: int| 0 <= j < i ==> self.key_seq()[j] != k@,
            decreases n - i,
        {
            proof {
                assert(self.key_seq()[i as int] == self.keys@[i as int]@);
            }
            if self.keys[i].eq(k) {
                return Some(i);
            }
            i = i + 1;
        }
        None
    }

    pub fn contains_key(&self, k: &String) -> (r: bool)
        requires
            self.wf(),
        ensures
            r == self@.contains_key(k@),
    {
        self.find(k).is_some()
    }

    pub fn get(&self, k: &String) -> (r: Option<&V>)
        requires
            self.wf(),
        ensures
            match r {
                Some(v) => self@.contains_key(k@) && *v == self@[k@],
                None => !self@.contains_key(k@),
            },
    {
        match self.find(k) {
            Some(i) => {
                proof {
                    self.lemma_val_at(i as int);
                }
                Some(&self.vals[i])
            },
            None => None,
        }
    }

    pub fn insert(&mut self, k: String, v: V)
        requires
            old(self).wf(),
        ensures
            final(self).wf(),
            final(self)@ == old(self)@.insert(k@, v),
            old(self)@.contains_key(k@) ==> final(self).key_seq() == old(self).key_seq(),
            !old(self)@.contains_key(k@) ==> final(self).key_seq() == old(self).key_seq().push(k@),
    {
        match self.find(&k) {
            Some(i) => {
                self.vals[i] = v;
                proof {
                    assert(self.key_seq() =~= old(self).key_seq());
                    assert(self@ =~= old(self)@.insert(k@, v)) by {
                        assert forall|q: Seq<char>|
                            #[trigger] self@.contains_key(q) && q != k@ implies self@[q] == old(
                            self,
                        )@[q] by {
                            let j = self.key_seq().index_of(q);
                            assert(self.vals@[j] == old(self).vals_internal()[j]);
                        }
                        let j = self.key_seq().index_of(k@);
                        assert(self.key_seq()[i as int] == k@);
                        assert(j == i);
                    }
                }
            },
            None => {
                self.keys.push(k);
                self.vals.push(v);
                proof {
                    assert(self.key_seq() =~= old(self).key_seq().push(k@));
                    let n = old(self).key_seq().len() as int;
                    assert(self@ =~= old(self)@.insert(k@, v)) by {
                        assert forall|q: Seq<char>| #[trigger]
                            old(self).key_seq().contains(q) implies self.key_seq().contains(q) by {
                            let j = old(self).key_seq().index_of(q);
                            assert(self.key_seq()[j] == q);
                        }
                        assert forall|q: Seq<char>|
                            #[trigger] self@.contains_key(q) && q != k@ implies self@[q] == old(
                            self,
                        )@[q] by {
                            let j = self.key_seq().index_of(q);
                            assert(self.key_seq()[j] == q);
                            assert(j < n);
                            assert(old(self).key_seq()[j] == q);
                            assert(old(self).key_seq().index_of(q) == j);
                        }
                        assert(self.key_seq()[n] == k@);
                        assert(self.key_seq().contains(k@));
                        let j = self.key_seq().index_of(k@);
                        assert(j == n);
                    }
                }
            },
        }
    }

    pub fn remove(&mut self, k: &String) -> (r: bool)
        requires
            old(self).wf(),
        ensures
            final(self).wf(),
            final(self)@ == old(self)@.remove(k@),
            r == old(self)@.contains_key(k@),
    {
        match self.find(k) {
            Some(i) => {
                let n = self.keys.len();
                self.keys.swap_remove(i);
                self.vals.swap_remove(i);
                proof {
                    let okeys = old(self).key_seq();
                    let last = (okeys.len() - 1) as int;
                    assert(self.key_seq() =~= okeys.update(i as int, okeys[last]).drop_last());
                    assert(self.key_seq().no_duplicates());
                    assert(self@ =~= old(self)@.remove(k@)) by {
                        assert forall|q: Seq<char>| #[trigger] self@.contains_key(q) implies old(
                            self,
                        )@.contains_key(q) && q != k@ && self@[q] == old(self)@[q] by {
                            let j = self.key_seq().index_of(q);
                            assert(self.key_seq()[j] == q);
                            let oj: int = if j == i { last } else { j };
                            assert(okeys[oj] == q);
                            assert(okeys.contains(q));
                            assert(okeys.index_of(q) == oj);
                            assert(okeys[i as int] == k@);
                        }
                        assert forall|q: Seq<char>|
                            #[trigger] old(self)@.contains_key(q) && q != k@ implies self
                            @.contains_key(q) by {
                            let oj = okeys.index_of(q);
                            assert(okeys[i as int] == k@);
                            if oj == last && oj != i {
                                assert(self.key_seq()[i as int] == q);
                            } else {
                                assert(self.key_seq()[oj] == q);
                            }
                            assert(self.key_seq().contains(q));
                        }
                    }
                }
                true
            },
            None => {
                proof {
                    assert(self@ =~= old(self)@.remove(k@));
                }
                false
            },
        }
    }

    pub fn clear(&mut self)
        ensures
            final(self).wf(),
            final(self)@ == Map::<Seq<char>, V>::empty(),
            final(self).key_seq() == Seq::<Seq<char>>::empty(),
    {
        self.keys.clear();
        self.vals.clear();
        proof {
            assert(self.key_seq() =~= Seq::<Seq<char>>::empty());
            assert(self@ =~= Map::<Seq<char>, V>::empty());
        }
    }

    pub fn key_at(&self, i: usize) -> (k: &String)
        requires
            self.wf(),
            i < self.key_seq().len(),
        ensures
            k@ == self.key_seq()[i as int],
    {
        proof {
            assert(self.key_seq()[i as int] == self.keys@[i as int]@);
        }
        &self.keys[i]
    }

    pub fn val_at(&self, i: usize) -> (v: &V)
        requires
            self.wf(),
            i < self.key_seq().len(),
        ensures
            self@.contains_key(self.key_seq()[i as int]),
            *v == self@[self.key_seq()[i as int]],
    {
        proof {
            self.lemma_val_at(i as int);
        }
        &self.vals[i]
    }
}

} // verus!
