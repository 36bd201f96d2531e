//! `StrMap`: a map from strings (coin symbols) to values, kept as a vector
//! of entries with pairwise distinct keys.  Its view is a `Map` from the
//! key's characters to the value.

use vstd::prelude::*;

verus! {

/// A string-keyed map; no key occurs twice among the entries.
pub struct StrMap<T> {
    entries: Vec<(String, T)>,
}

impl<T> StrMap<T> {
    #[verifier::type_invariant]
    spec fn keys_distinct(self) -> bool {
        forall|i: int, j: int|
            0 <= i < self.entries.len() && 0 <= j < self.entries.len() && i != j
                ==> self.entries@[i].0@ != self.entries@[j].0@
    }

    spec fn has_at(self, i: int, k: Seq<char>) -> bool {
        0 <= i < self.entries.len() && self.entries@[i].0@ == k
    }

    /// The map that the entries stand for.
    pub closed spec fn view(&self) -> Map<Seq<char>, T> {
        Map::new(
            |k: Seq<char>| exists|i: int| self.has_at(i, k),
            |k: Seq<char>| self.entries@[choose|i: int| self.has_at(i, k)].1,
        )
    }

    /// Number of entries.
    pub closed spec fn spec_len(&self) -> nat {
        self.entries@.len()
    }

    proof fn lemma_entry(self, i: int)
        requires
            self.keys_distinct(),
            0 <= i < self.entries.len(),
        ensures
            self.view().dom().contains(self.entries@[i].0@),
            self.view()[self.entries@[i].0@] == self.entries@[i].1,
    {
        let k = self.entries@[i].0@;
        assert(self.has_at(i, k));
        let j = choose|j: int| self.has_at(j, k);
        assert(j == i);
    }

    /// An empty map.
    pub fn new() -> (r: StrMap<T>)
        ensures
            r.view() == Map::<Seq<char>, T>::empty(),
            r.spec_len() == 0,
    {
        let r = StrMap { entries: Vec::new() };
        assert(r.view() =~= Map::<Seq<char>, T>::empty());
        r
    }

    /// Number of keys.
    pub fn len(&self) -> (r: usize)
        ensures
            r == self.spec_len(),
    {
        self.entries.len()
    }

    /// The position of `key` among the entries.
    fn find(&self, key: &String) -> (r: Option<usize>)
        ensures
            r is None ==> !self.view().dom().contains(key@),
            r is Some ==> r->0 < self.entries.len() && self.entries@[r->0 as int].0@ == key@,
    {
        proof {
            use_type_invariant(self);
        }
        let mut i: usize = 0;
        while i < self.entries.len()
            invariant
                i <= self.entries.len(),
                forall|j: int| 0 <= j < i ==> self.entries@[j].0@ != key@,
            decreases self.entries.len() - i,
        {
            if self.entries[i].0 == *key {
                return Some(i);
            }
            i = i + 1;
        }
        proof {
            if self.view().dom().contains(key@) {
                let j = choose|j: int| self.has_at(j, key@);
                assert(self.entries@[j].0@ != key@);
            }
        }
        None
    }

    /// Whether no key is present.
    pub fn is_empty(&self) -> (r: bool)
        ensures
            r == (self.view().dom() == Set::<Seq<char>>::empty()),
    {
        proof {
            use_type_invariant(self);
            if self.entries.len() > 0 {
                self.lemma_entry(0);
            } else {
                assert(self.view().dom() =~= Set::<Seq<char>>::empty());
            }
        }
        self.entries.len() == 0
    }

    /// Whether `key` is present.
    pub fn contains_key(&self, key: &str) -> (r: bool)
        ensures
            r == self.view().dom().contains(key@),
    {
        proof {
            use_type_invariant(self);
        }
        let k = key.to_owned();
        match self.find(&k) {
            Some(i) => {
                proof {
                    self.lemma_entry(i as int);
                }
                true
            },
            None => false,
        }
    }

    /// The value stored under `key`.
    pub fn get(&self, key: &str) -> (r: Option<&T>)
        ensures
            r is None <==> !self.view().dom().contains(key@),
            r is Some ==> *r->0 == self.view()[key@],
    {
        proof {
            use_type_invariant(self);
        }
        let k = key.to_owned();
        match self.find(&k) {
            Some(i) => {
                proof {
                    self.lemma_entry(i as int);
                }
                Some(&self.entries[i].1)
            },
            None => None,
        }
    }

    /// Stores `value` under `key`, replacing what was there.
    pub fn insert(&mut self, key: String, value: T)
        ensures
            final(self).view() == old(self).view().insert(key@, value),
    {
        proof {
            use_type_invariant(&*self);
        }
        let ghost old_self = *self;
        let mut entries: Vec<(String, T)> = Vec::new();
        std::mem::swap(&mut entries, &mut self.entries);
        let mut i: usize = 0;
        let mut found: Option<usize> = None;
        while i < entries.len()
            invariant
                i <= entries.len(),
                entries@ == old_self.entries@,
                found is None ==> forall|j: int| 0 <= j < i ==> entries@[j].0@ != key@,
                found is Some ==> found->0 < entries.len() && entries@[found->0 as int].0@ == key@,
            ensures
                entries@ == old_self.entries@,
                found is None ==> forall|j: int| 0 <= j < entries.len() ==> entries@[j].0@ != key@,
                found is Some ==> found->0 < entries.len() && entries@[found->0 as int].0@ == key@,
            decreases entries.len() - i,
        {
            if entries[i].0 == key {
                found = Some(i);
                break;
            }
            i = i + 1;
        }
        let ghost key_v = key@;
        match found {
            Some(i) => {
                entries.set(i, (key, value));
            },
            None => {
                entries.push((key, value));
            },
        }
        let ghost pos: int = match found {
            Some(i) => i as int,
            None => old_self.entries.len() as int,
        };
        proof {
            let oe = old_self.entries@;
            let ne = entries@;
            assert(ne.len() == oe.len() || ne.len() == oe.len() + 1);
            assert(ne[pos].0@ == key_v);
            assert forall|a: int| 0 <= a < ne.len() && a != pos implies ne[a] == oe[a] by {}
            assert forall|a: int| 0 <= a < oe.len() && oe[a].0@ == key_v implies a == pos by {
                if found is None {
                    assert(oe[a].0@ != key_v);
                } else {
                    assert(oe[pos].0@ == key_v);
                }
            }
            assert forall|a: int, b: int|
                0 <= a < ne.len() && 0 <= b < ne.len() && a != b implies ne[a].0@ != ne[b].0@ by {
                if a != pos && b != pos {
                    assert(oe[a].0@ != oe[b].0@);
                }
            }
        }
        self.entries = entries;
        proof {
            use_type_invariant(&*self);
            let m = self.view();
            let target = old_self.view().insert(key_v, value);
            assert forall|k: Seq<char>| #[trigger] m.dom().contains(k) <==> target.dom().contains(k) by {
                if k == key_v {
                    assert(self.has_at(pos, k));
                } else {
                    if m.dom().contains(k) {
                        let j = choose|j: int| self.has_at(j, k);
                        assert(old_self.has_at(j, k));
                    }
                    if old_self.view().dom().contains(k) {
                        let j = choose|j: int| old_self.has_at(j, k);
                        assert(self.has_at(j, k));
                    }
                }
            }
            assert forall|k: Seq<char>| #[trigger] m.dom().contains(k) implies m[k] == target[k] by {
                let j = choose|j: int| self.has_at(j, k);
                self.lemma_entry(j);
                if k != key_v {
                    assert(old_self.has_at(j, k));
                    old_self.lemma_entry(j);
                }
            }
            assert(m =~= target);
        }
    }

    /// Removes `key`, handing back its value.
    pub fn remove(&mut self, key: &str) -> (r: Option<T>)
        ensures
            final(self).view() == old(self).view().remove(key@),
            r is Some <==> old(self).view().dom().contains(key@),
            r is Some ==> r->0 == old(self).view()[key@],
    {
        proof {
            use_type_invariant(&*self);
        }
        let ghost old_self = *self;
        let k = key.to_owned();
        let found = self.find(&k);
        match found {
            None => None,
            Some(pos) => {
                proof {
                    old_self.lemma_entry(pos as int);
                }
                let mut entries: Vec<(String, T)> = Vec::new();
                std::mem::swap(&mut entries, &mut self.entries);
                let (_, v) = entries.remove(pos);
                proof {
                    let oe = old_self.entries@;
                    let ne = entries@;
                    let p = pos as int;
                    assert forall|a: int| 0 <= a < ne.len() implies #[trigger] ne[a] == (if a < p {
                        oe[a]
                    } else {
                        oe[a + 1]
                    }) by {}
                    assert forall|a: int, b: int|
                        0 <= a < ne.len() && 0 <= b < ne.len() && a != b implies ne[a].0@
                        != ne[b].0@ by {
                        let oa = if a < p {
                            a
                        } else {
                            a + 1
                        };
                        let ob = if b < p {
                            b
                        } else {
                            b + 1
                        };
                        assert(ne[a] == oe[oa]);
                        assert(ne[b] == oe[ob]);
                        assert(oe[oa].0@ != oe[ob].0@);
                    }
                }
                self.entries = entries;
                proof {
                    use_type_invariant(&*self);
                    let oe = old_self.entries@;
                    let ne = self.entries@;
                    let p = pos as int;
                    let m = self.view();
                    let target = old_self.view().remove(key@);
                    assert forall|kk: Seq<char>| #[trigger]
                        m.dom().contains(kk) <==> target.dom().contains(kk) by {
                        if m.dom().contains(kk) {
                            let j = choose|j: int| self.has_at(j, kk);
                            let oj = if j < p {
                                j
                            } else {
                                j + 1
                            };
                            assert(ne[j] == oe[oj]);
                            assert(old_self.has_at(oj, kk));
                            assert(oj != p);
                        }
                        if target.dom().contains(kk) {
                            let oj = choose|oj: int| old_self.has_at(oj, kk);
                            assert(oj != p);
                            let j = if oj < p {
                                oj
                            } else {
                                oj - 1
                            };
                            assert(ne[j] == oe[oj]);
                            assert(self.has_at(j, kk));
                        }
                    }
                    assert forall|kk: Seq<char>| #[trigger]
                        m.dom().contains(kk) implies m[kk] == target[kk] by {
                        let j = choose|j: int| self.has_at(j, kk);
                        self.lemma_entry(j);
                        let oj = if j < p {
                            j
                        } else {
                            j + 1
                        };
                        assert(ne[j] == oe[oj]);
                        assert(old_self.has_at(oj, kk));
                        old_self.lemma_entry(oj);
                    }
                    assert(m =~= target);
                }
                Some(v)
            },
        }
    }

    /// Removes every key.
    pub fn clear(&mut self)
        ensures
            final(self).view() == Map::<Seq<char>, T>::empty(),
    {
        self.entries = Vec::new();
        assert(self.view() =~= Map::<Seq<char>, T>::empty());
    }
}

} // verus!
