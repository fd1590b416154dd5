//! The index of expiry heights: which identifiers are due at which height.

use vstd::prelude::*;
use crate::id_map::{ascending, lemma_ascending_empty, lemma_ascending_is, strictly_increasing, IdMap};
use crate::types::{BlockNumber, Error};

verus! {

/// The identifiers that `due` schedules at `height`: the bucket of that height.
pub open spec fn bucket_of(due: Map<u64, BlockNumber>, height: BlockNumber) -> Set<u64> {
    Set::new(|id: u64| due.contains_key(id) && due[id] == height)
}

/// A sparse schedule. Its view maps each scheduled identifier to the one
/// height at which it is due, so an identifier can stand in one bucket only,
/// and a height at which nothing is due takes no room.
#[derive(Debug, Clone, PartialEq, Eq)]
pub struct ExpiryIndex {
    due: IdMap<BlockNumber>,
}

impl View for ExpiryIndex {
    type V = Map<u64, BlockNumber>;

    closed spec fn view(&self) -> Map<u64, BlockNumber> {
        self.due@
    }
}

/// A second drain of one height finds nothing: once the bucket of `height`
/// is taken out of a schedule, the bucket of `height` in what is left is
/// empty, every other bucket is as it was, and the ascending order of the
/// empty bucket is the empty sequence.
pub proof fn lemma_drain_at_most_once(due: Map<u64, BlockNumber>, height: BlockNumber)
    ensures
        bucket_of(due.remove_keys(bucket_of(due, height)), height) == Set::<u64>::empty(),
        ascending(bucket_of(due.remove_keys(bucket_of(due, height)), height)) == Seq::<u64>::empty(),
        forall|other: BlockNumber|
            other != height ==> #[trigger] bucket_of(
                due.remove_keys(bucket_of(due, height)),
                other,
            ) == bucket_of(due, other),
{
    let rest = due.remove_keys(bucket_of(due, height));
    assert(bucket_of(rest, height) =~= Set::<u64>::empty());
    lemma_ascending_empty();
    assert forall|other: BlockNumber| other != height implies #[trigger] bucket_of(rest, other)
        == bucket_of(due, other) by {
        assert(bucket_of(rest, other) =~= bucket_of(due, other));
    }
}

/// An identifier stands in at most one bucket.
pub proof fn lemma_one_bucket(due: Map<u64, BlockNumber>, id: u64, h1: BlockNumber, h2: BlockNumber)
    requires
        bucket_of(due, h1).contains(id),
        bucket_of(due, h2).contains(id),
    ensures
        h1 == h2,
{
}

impl ExpiryIndex {
    /// The invariant of the representation.
    pub closed spec fn wf(&self) -> bool {
        self.due.wf()
    }

    /// The identifiers due at `height`.
    pub open spec fn bucket(&self, height: BlockNumber) -> Set<u64> {
        bucket_of(self@, height)
    }

    /// An index in which nothing is scheduled.
    pub fn new() -> (x: Self)
        ensures
            x.wf(),
            x@ == Map::<u64, BlockNumber>::empty(),
    {
        ExpiryIndex { due: IdMap::new() }
    }

    /// The height at which `id` is due, if it is scheduled.
    pub fn height_of(&self, id: u64) -> (r: Option<BlockNumber>)
        requires
            self.wf(),
        ensures
            r == if self@.contains_key(id) {
                Some(self@[id])
            } else {
                None::<BlockNumber>
            },
    {
        match self.due.get(id) {
            Some(h) => Some(*h),
            None => None,
        }
    }

    /// Schedules `id` at `height`. An identifier that is already scheduled,
    /// at whatever height, is refused, and the index stays as it was.
    pub fn insert(&mut self, height: BlockNumber, id: u64) -> (r: Result<(), Error>)
        requires
            old(self).wf(),
        ensures
            final(self).wf(),
            old(self)@.contains_key(id) ==> r == Err::<(), Error>(Error::CorruptIndex) && *final(self) == *old(self),
            !old(self)@.contains_key(id) ==> r == Ok::<(), Error>(()) && final(self)@ == old(self)@.insert(id, height),
    {
        if self.due.contains_key(id) {
            Err(Error::CorruptIndex)
        } else {
            self.due.insert(id, height);
            Ok(())
        }
    }

    /// Moves `id` from the bucket of `old_height` to that of `new_height` in
    /// one step. An identifier that is not due at `old_height` is refused,
    /// and the index stays as it was.
    pub fn relocate(&mut self, id: u64, old_height: BlockNumber, new_height: BlockNumber) -> (r:
        Result<(), Error>)
        requires
            old(self).wf(),
        ensures
            final(self).wf(),
            !old(self).bucket(old_height).contains(id) ==> r == Err::<(), Error>(
                Error::CorruptIndex,
            ) && *final(self) == *old(self),
            old(self).bucket(old_height).contains(id) ==> r == Ok::<(), Error>(()) && final(self)@ == old(self)@.insert(id, new_height),
    {
        let at_old = match self.due.get(id) {
            Some(h) => *h == old_height,
            None => false,
        };
        if at_old {
            self.due.insert(id, new_height);
            Ok(())
        } else {
            Err(Error::CorruptIndex)
        }
    }

    /// The identifiers due at `height`, in ascending order.
    pub fn due_at(&self, height: BlockNumber) -> (ids: Vec<u64>)
        requires
            self.wf(),
        ensures
            ids@ == ascending(self.bucket(height)),
            strictly_increasing(ids@),
            forall|id: u64| ids@.contains(id) <==> self.bucket(height).contains(id),
    {
        let mut ids: Vec<u64> = Vec::new();
        let n: usize = self.due.len();
        let mut i: usize = 0;
        proof {
            self.due.lemma_keys();
        }
        while i < n
            invariant
                self.wf(),
                n == self.due.keys().len(),
                i <= n,
                strictly_increasing(self.due.keys()),
                forall|k: u64| self.due.keys().contains(k) <==> self@.contains_key(k),
                strictly_increasing(ids@),
                forall|k: int|
                    0 <= k < ids@.len() ==> self.bucket(height).contains(#[trigger] ids@[k])
                        && exists|j: int| 0 <= j < i && self.due.keys()[j] == ids@[k],
                forall|j: int|
                    0 <= j < i && self@[#[trigger] self.due.keys()[j]] == height ==> ids@.contains(
                        self.due.keys()[j],
                    ),
            decreases n - i,
        {
            let id: u64 = self.due.key_at(i);
            let h: BlockNumber = *self.due.value_at(i);
            if h == height {
                proof {
                    assert forall|a: int, b: int| 0 <= a < b < ids@.push(id).len() implies ids@.push(
                        id,
                    )[a] < ids@.push(id)[b] by {
                        if b == ids@.len() {
                            let w = ids@[a];
                            let j = choose|j: int| 0 <= j < i && self.due.keys()[j] == w;
                            assert(self.due.keys()[j] < self.due.keys()[i as int]);
                        }
                    }
                }
                let ghost before = ids@;
                ids.push(id);
                proof {
                    assert(ids@[before.len() as int] == id);
                    assert forall|k: int| 0 <= k < ids@.len() implies self.bucket(height).contains(
                        #[trigger] ids@[k],
                    ) && exists|j: int| 0 <= j < i + 1 && self.due.keys()[j] == ids@[k] by {
                        if k < before.len() {
                            assert(ids@[k] == before[k]);
                            let j = choose|j: int| 0 <= j < i && self.due.keys()[j] == before[k];
                            assert(0 <= j < i + 1 && self.due.keys()[j] == ids@[k]);
                        } else {
                            assert(self.due.keys()[i as int] == ids@[k]);
                        }
                    }
                    assert forall|j: int|
                        0 <= j < i + 1 && self@[#[trigger] self.due.keys()[j]]
                            == height implies ids@.contains(self.due.keys()[j]) by {
                        if j < i {
                            assert(before.contains(self.due.keys()[j]));
                            let k = choose|k: int|
                                0 <= k < before.len() && before[k] == self.due.keys()[j];
                            assert(ids@[k] == self.due.keys()[j]);
                        } else {
                            assert(ids@[before.len() as int] == self.due.keys()[j]);
                        }
                    }
                }
            }
            i = i + 1;
        }
        proof {
            assert forall|id: u64| ids@.contains(id) <==> self.bucket(height).contains(id) by {
                if self.bucket(height).contains(id) {
                    assert(self.due.keys().contains(id));
                    let j = choose|j: int| 0 <= j < n && self.due.keys()[j] == id;
                    assert(self@[self.due.keys()[j]] == height);
                }
            }
            lemma_ascending_is(ids@, self.bucket(height));
        }
        ids
    }

    /// Takes the bucket of `height` out of the index and returns its
    /// identifiers in ascending order. The other buckets stay as they were.
    pub fn drain(&mut self, height: BlockNumber) -> (ids: Vec<u64>)
        requires
            old(self).wf(),
        ensures
            final(self).wf(),
            ids@ == ascending(old(self).bucket(height)),
            strictly_increasing(ids@),
            forall|id: u64| ids@.contains(id) <==> old(self).bucket(height).contains(id),
            final(self)@ == old(self)@.remove_keys(old(self).bucket(height)),
            final(self).bucket(height) == Set::<u64>::empty(),
    {
        let ids = self.due_at(height);
        let mut k: usize = 0;
        while k < ids.len()
            invariant
                self.wf(),
                k <= ids@.len(),
                self@ == old(self)@.remove_keys(ids@.take(k as int).to_set()),
            decreases ids@.len() - k,
        {
            let ghost before = self@;
            self.due.remove(ids[k]);
            proof {
                let t0 = ids@.take(k as int);
                let t1 = ids@.take(k + 1);
                let x0 = ids@[k as int];
                assert(t1 =~= t0.push(x0));
                assert forall|x: u64| t1.to_set().contains(x) <==> t0.to_set().insert(x0).contains(
                    x,
                ) by {
                    if t1.contains(x) {
                        let j = choose|j: int| 0 <= j < t1.len() && t1[j] == x;
                        if j < k {
                            assert(t0[j] == x);
                        }
                    }
                    if t0.contains(x) {
                        let j = choose|j: int| 0 <= j < t0.len() && t0[j] == x;
                        assert(t1[j] == x);
                    }
                    if x == x0 {
                        assert(t1[k as int] == x);
                    }
                }
                assert(t1.to_set() =~= t0.to_set().insert(x0));
                assert(self@ =~= old(self)@.remove_keys(ids@.take(k + 1).to_set()));
            }
            k = k + 1;
        }
        proof {
            assert(ids@.take(ids@.len() as int) =~= ids@);
            assert(ids@.to_set() =~= old(self).bucket(height));
            lemma_drain_at_most_once(old(self)@, height);
        }
        ids
    }
}

} // verus!
