//! A finite map keyed by `u64`, held as two parallel vectors in key order.

use vstd::prelude::*;

verus! {

/// A map from `u64` keys to values. The keys are kept strictly increasing, so
/// walking the map by position visits the keys in ascending order.
#[derive(Debug, Clone, PartialEq, Eq)]
pub struct IdMap<T> {
    keys: Vec<u64>,
    values: Vec<T>,
}

impl<T> View for IdMap<T> {
    type V = Map<u64, T>;

    closed spec fn view(&self) -> Map<u64, T> {
        Map::new(
            |k: u64| self.keys@.contains(k),
            |k: u64| self.values@[self.keys@.index_of(k)],
        )
    }
}

/// Whether `s` is strictly increasing.
pub open spec fn strictly_increasing(s: Seq<u64>) -> bool {
    forall|i: int, j: int| 0 <= i < j < s.len() ==> s[i] < s[j]
}

/// A strictly increasing sequence is determined by the set of its elements.
pub proof fn lemma_increasing_unique(a: Seq<u64>, b: Seq<u64>)
    requires
        strictly_increasing(a),
        strictly_increasing(b),
        forall|k: u64| a.contains(k) <==> b.contains(k),
    ensures
        a == b,
    decreases a.len(),
{
    if a.len() == 0 {
        if b.len() > 0 {
            assert(b.contains(b[0]));
            assert(a.contains(b[0]));
        }
        assert(a =~= b);
    } else {
        let m = a.last();
        assert(a.contains(m));
        assert(b.contains(m));
        let jb = choose|j: int| 0 <= j < b.len() && b[j] == m;
        // m is the greatest element of both, hence the last of b
        if jb != b.len() - 1 {
            let x = b.last();
            assert(b.contains(x));
            assert(a.contains(x));
            let ia = choose|i: int| 0 <= i < a.len() && a[i] == x;
            assert(a[ia] <= m);
            assert(b[jb] < b[b.len() - 1]);
        }
        let a0 = a.drop_last();
        let b0 = b.drop_last();
        assert forall|k: u64| a0.contains(k) <==> b0.contains(k) by {
            if a0.contains(k) {
                let i = choose|i: int| 0 <= i < a0.len() && a0[i] == k;
                assert(a[i] == k);
                assert(a.contains(k));
                assert(k < m);
                let j = choose|j: int| 0 <= j < b.len() && b[j] == k;
                assert(j < b.len() - 1);
                assert(b0[j] == k);
            }
            if b0.contains(k) {
                let j = choose|j: int| 0 <= j < b0.len() && b0[j] == k;
                assert(b[j] == k);
                assert(b.contains(k));
                assert(k < m);
                let i = choose|i: int| 0 <= i < a.len() && a[i] == k;
                assert(i < a.len() - 1);
                assert(a0[i] == k);
            }
        }
        lemma_increasing_unique(a0, b0);
        assert(a =~= a0.push(m));
        assert(b =~= b0.push(m));
    }
}

/// The elements of a finite set in ascending order.
pub open spec fn ascending(s: Set<u64>) -> Seq<u64> {
    choose|q: Seq<u64>| strictly_increasing(q) && forall|k: u64| q.contains(k) <==> s.contains(k)
}

/// A strictly increasing sequence is the ascending order of its own elements.
pub proof fn lemma_ascending_is(q: Seq<u64>, s: Set<u64>)
    requires
        strictly_increasing(q),
        forall|k: u64| q.contains(k) <==> s.contains(k),
    ensures
        ascending(s) == q,
{
    let c = ascending(s);
    assert(strictly_increasing(c) && forall|k: u64| c.contains(k) <==> s.contains(k));
    lemma_increasing_unique(c, q);
}

/// The ascending order of the empty set is the empty sequence.
pub proof fn lemma_ascending_empty()
    ensures
        ascending(Set::<u64>::empty()) == Seq::<u64>::empty(),
{
    lemma_ascending_is(Seq::<u64>::empty(), Set::<u64>::empty());
}

impl<T> IdMap<T> {
    /// The keys in ascending order.
    pub closed spec fn keys(&self) -> Seq<u64> {
        self.keys@
    }

    /// The representation invariant: one value per key, keys strictly increasing.
    pub closed spec fn wf(&self) -> bool {
        &&& self.keys@.len() == self.values@.len()
        &&& strictly_increasing(self.keys@)
    }

    /// The keys of a well-formed map are exactly the domain of its view, in
    /// ascending order.
    pub proof fn lemma_keys(&self)
        requires
            self.wf(),
        ensures
            strictly_increasing(self.keys()),
            forall|k: u64| self.keys().contains(k) <==> self@.contains_key(k),
            self@.dom().finite(),
            self@.dom().len() == self.keys().len(),
    {
        assert(self.keys@.no_duplicates());
        assert(self@.dom() =~= self.keys@.to_set());
        self.keys@.unique_seq_to_set();
    }

    proof fn lemma_entry(&self, i: int)
        requires
            self.wf(),
            0 <= i < self.keys@.len(),
        ensures
            self@.contains_key(self.keys@[i]),
            self@[self.keys@[i]] == self.values@[i],
            self.keys@.index_of(self.keys@[i]) == i,
    {
        let k = self.keys@[i];
        assert(self.keys@.contains(k));
        let j = self.keys@.index_of(k);
        assert(0 <= j < self.keys@.len() && self.keys@[j] == k);
    }

    /// An empty map.
    pub fn new() -> (m: Self)
        ensures
            m.wf(),
            m@ == Map::<u64, T>::empty(),
    {
        let m = IdMap { keys: Vec::new(), values: Vec::new() };
        assert(m@ =~= Map::<u64, T>::empty());
        m
    }

    /// The number of keys.
    pub fn len(&self) -> (n: usize)
        requires
            self.wf(),
        ensures
            n == self.keys().len(),
    {
        self.keys.len()
    }

    /// The key at position `i` of the ascending order.
    pub fn key_at(&self, i: usize) -> (k: u64)
        requires
            self.wf(),
            i < self.keys().len(),
        ensures
            k == self.keys()[i as int],
            self@.contains_key(k),
    {
        proof {
            self.lemma_entry(i as int);
        }
        self.keys[i]
    }

    /// The value at position `i` of the ascending order of keys.
    pub fn value_at(&self, i: usize) -> (v: &T)
        requires
            self.wf(),
            i < self.keys().len(),
        ensures
            *v == self@[self.keys()[i as int]],
    {
        proof {
            self.lemma_entry(i as int);
        }
        &self.values[i]
    }

    /// The first position whose key is not below `key`.
    fn lower_bound(&self, key: u64) -> (p: usize)
        requires
            self.wf(),
        ensures
            p <= self.keys@.len(),
            forall|j: int| 0 <= j < p ==> self.keys@[j] < key,
            forall|j: int| p <= j < self.keys@.len() ==> self.keys@[j] >= key,
    {
        let mut lo: usize = 0;
        let mut hi: usize = self.keys.len();
        while lo < hi
            invariant
                self.wf(),
                lo <= hi <= self.keys@.len(),
                forall|j: int| 0 <= j < lo ==> self.keys@[j] < key,
                forall|j: int| hi <= j < self.keys@.len() ==> self.keys@[j] >= key,
            decreases hi - lo,
        {
            let mid: usize = lo + (hi - lo) / 2;
            if self.keys[mid] < key {
                lo = mid + 1;
            } else {
                hi = mid;
            }
        }
        lo
    }

    /// Whether `key` has a value.
    pub fn contains_key(&self, key: u64) -> (b: bool)
        requires
            self.wf(),
        ensures
            b == self@.contains_key(key),
    {
        let p = self.lower_bound(key);
        let found = p < self.keys.len() && self.keys[p] == key;
        proof {
            if found {
                self.lemma_entry(p as int);
            } else if self.keys@.contains(key) {
                let j = self.keys@.index_of(key);
                assert(self.keys@[j] == key);
            }
        }
        found
    }

    /// The value of `key`, if it has one.
    pub fn get(&self, key: u64) -> (r: Option<&T>)
        requires
            self.wf(),
        ensures
            match r {
                Some(v) => self@.contains_key(key) && *v == self@[key],
                None => !self@.contains_key(key),
            },
    {
        let p = self.lower_bound(key);
        if p < self.keys.len() && self.keys[p] == key {
            proof {
                self.lemma_entry(p as int);
            }
            Some(&self.values[p])
        } else {
            proof {
                if self.keys@.contains(key) {
                    let j = self.keys@.index_of(key);
                    assert(self.keys@[j] == key);
                }
            }
            None
        }
    }

    /// Gives `key` the value `value`, and returns the value it had before.
    pub fn insert(&mut self, key: u64, value: T) -> (prev: Option<T>)
        requires
            old(self).wf(),
        ensures
            final(self).wf(),
            final(self)@ == old(self)@.insert(key, value),
            match prev {
                Some(v) => old(self)@.contains_key(key) && v == old(self)@[key],
                None => !old(self)@.contains_key(key),
            },
    {
        let prev = self.remove(key);
        let p = self.lower_bound(key);
        let ghost mid = *self;
        proof {
            assert forall|j: int| 0 <= j < self.keys@.len() implies self.keys@[j] != key by {
                self.lemma_entry(j);
            }
        }
        self.keys.insert(p, key);
        self.values.insert(p, value);
        proof {
            assert(self.wf());
            assert forall|k: u64| self@.contains_key(k) <==> mid@.insert(key, value).contains_key(
                k,
            ) by {
                if self.keys@.contains(k) {
                    let j = self.keys@.index_of(k);
                    assert(self.keys@[j] == k);
                    if j < p {
                        assert(mid.keys@[j] == k);
                    } else if j > p {
                        assert(mid.keys@[j - 1] == k);
                    }
                }
                if mid.keys@.contains(k) {
                    let j = mid.keys@.index_of(k);
                    assert(mid.keys@[j] == k);
                    if j < p {
                        assert(self.keys@[j] == k);
                    } else {
                        assert(self.keys@[j + 1] == k);
                    }
                }
                if k == key {
                    assert(self.keys@[p as int] == k);
                }
            }
            assert forall|k: u64| self@.contains_key(k) implies self@[k] == mid@.insert(
                key,
                value,
            )[k] by {
                let j = self.keys@.index_of(k);
                assert(self.keys@[j] == k);
                self.lemma_entry(j);
                if j < p {
                    mid.lemma_entry(j);
                } else if j > p {
                    mid.lemma_entry(j - 1);
                }
            }
            assert(self@ =~= mid@.insert(key, value));
            assert(mid@.insert(key, value) =~= old(self)@.insert(key, value));
        }
        prev
    }

    /// Takes `key` and its value out of the map, and returns the value.
    pub fn remove(&mut self, key: u64) -> (prev: Option<T>)
        requires
            old(self).wf(),
        ensures
            final(self).wf(),
            final(self)@ == old(self)@.remove(key),
            match prev {
                Some(v) => old(self)@.contains_key(key) && v == old(self)@[key],
                None => !old(self)@.contains_key(key),
            },
    {
        let p = self.lower_bound(key);
        if p < self.keys.len() && self.keys[p] == key {
            proof {
                self.lemma_entry(p as int);
            }
            self.keys.remove(p);
            let v = self.values.remove(p);
            proof {
                let before = *old(self);
                assert(self.wf());
                assert forall|k: u64| self@.contains_key(k) <==> before@.remove(key).contains_key(
                    k,
                ) by {
                    if self.keys@.contains(k) {
                        let j = self.keys@.index_of(k);
                        assert(self.keys@[j] == k);
                        if j < p {
                            assert(before.keys@[j] == k);
                        } else {
                            assert(before.keys@[j + 1] == k);
                        }
                    }
                    if before.keys@.contains(k) && k != key {
                        let j = before.keys@.index_of(k);
                        assert(before.keys@[j] == k);
                        if j < p {
                            assert(self.keys@[j] == k);
                        } else {
                            assert(self.keys@[j - 1] == k);
                        }
                    }
                }
                assert forall|k: u64| self@.contains_key(k) implies self@[k] == before@.remove(
                    key,
                )[k] by {
                    let j = self.keys@.index_of(k);
                    assert(self.keys@[j] == k);
                    self.lemma_entry(j);
                    if j < p {
                        before.lemma_entry(j);
                    } else {
                        before.lemma_entry(j + 1);
                    }
                }
                assert(self@ =~= before@.remove(key));
            }
            Some(v)
        } else {
            proof {
                if self.keys@.contains(key) {
                    let j = self.keys@.index_of(key);
                    assert(self.keys@[j] == key);
                }
                assert(self@ =~= old(self)@.remove(key));
            }
            None
        }
    }
}

} // verus!
