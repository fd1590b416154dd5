//! The authoritative store of records and their lifecycle state.

use vstd::prelude::*;
use crate::allocator::IdAllocator;
use crate::id_map::IdMap;
use crate::types::{BlockNumber, Error, Status};

verus! {

/// A registered entity: its identifier, its window of heights, its lifecycle
/// state, and what is particular to its kind.
#[derive(Debug, Clone, PartialEq, Eq)]
pub struct Record<T> {
    /// The identifier under which the record is stored.
    pub id: u64,
    /// The height at which the window opens.
    pub start_height: BlockNumber,
    /// The height at which the entity is due for settlement.
    pub end_height: BlockNumber,
    /// The lifecycle state.
    pub status: Status,
    /// What is particular to the kind of entity.
    pub detail: T,
}

/// The end height of an entity after a request to move it to `new_end`: the
/// request is taken only where it does not move the end backwards.
pub open spec fn end_after_request(end: BlockNumber, new_end: BlockNumber) -> BlockNumber {
    if new_end >= end {
        new_end
    } else {
        end
    }
}

/// The end height of an entity after a sequence of requests, taken in order.
pub open spec fn end_after_requests(end: BlockNumber, requests: Seq<BlockNumber>) -> BlockNumber
    decreases requests.len(),
{
    if requests.len() == 0 {
        end
    } else {
        end_after_request(end_after_requests(end, requests.drop_last()), requests.last())
    }
}

/// Over any sequence of extension requests, granted or refused, the end
/// height of an entity never moves backwards.
pub proof fn lemma_end_height_non_decreasing(end: BlockNumber, requests: Seq<BlockNumber>, n: int)
    requires
        0 <= n <= requests.len(),
    ensures
        end <= end_after_requests(end, requests.take(n)),
        end_after_requests(end, requests.take(n)) <= end_after_requests(end, requests),
    decreases requests.len() - n,
{
    lemma_end_lower_bound(end, requests.take(n));
    if n == requests.len() {
        assert(requests.take(n) =~= requests);
    } else {
        lemma_end_height_non_decreasing(end, requests, n + 1);
        assert(requests.take(n + 1).drop_last() =~= requests.take(n));
    }
}

proof fn lemma_end_lower_bound(end: BlockNumber, requests: Seq<BlockNumber>)
    ensures
        end <= end_after_requests(end, requests),
    decreases requests.len(),
{
    if requests.len() > 0 {
        lemma_end_lower_bound(end, requests.drop_last());
    }
}

/// Whether `id` names an active record of `records`.
pub open spec fn active_in<T>(records: Map<u64, Record<T>>, id: u64) -> bool {
    records.contains_key(id) && records[id].status == Status::Active
}

/// Whether a window of heights may be registered at height `now`.
pub open spec fn valid_window(now: BlockNumber, start: BlockNumber, end: BlockNumber) -> bool {
    now < start && start < end
}

/// The records of one kind of entity, with the allocator of their identifiers.
#[derive(Debug, Clone, PartialEq, Eq)]
pub struct Registry<T> {
    allocator: IdAllocator,
    records: IdMap<Record<T>>,
}

impl<T> View for Registry<T> {
    type V = Map<u64, Record<T>>;

    closed spec fn view(&self) -> Map<u64, Record<T>> {
        self.records@
    }
}

impl<T> Registry<T> {
    /// The identifier that the next record will get. Every identifier below
    /// it has been handed out, and none of them will be handed out again.
    pub closed spec fn next_id(&self) -> u64 {
        self.allocator.peek()
    }

    /// The invariant: every record is stored under its own identifier, and
    /// every stored identifier has been handed out.
    pub closed spec fn wf(&self) -> bool {
        &&& self.records.wf()
        &&& forall|id: u64| #[trigger]
            self@.contains_key(id) ==> id < self.next_id() && self@[id].id == id
    }

    /// What `wf` says, for those who cannot see inside it.
    pub proof fn lemma_wf(&self)
        requires
            self.wf(),
        ensures
            forall|id: u64| #[trigger]
                self@.contains_key(id) ==> id < self.next_id() && self@[id].id == id,
    {
    }

    /// Identifiers are not reused: the next identifier, and every one after
    /// it, names no record, so a new record never takes the identifier of
    /// one that is or was stored.
    pub proof fn lemma_next_id_is_fresh(&self, id: u64)
        requires
            self.wf(),
            id >= self.next_id(),
        ensures
            !self@.contains_key(id),
    {
    }

    /// Whether `id` names a record that is active.
    pub open spec fn is_active(&self, id: u64) -> bool {
        active_in(self@, id)
    }

    /// The failure of `create`, if it fails.
    pub open spec fn create_error(&self, now: BlockNumber, start: BlockNumber, end: BlockNumber)
        -> Option<Error> {
        if !valid_window(now, start, end) {
            Some(Error::InvalidWindow)
        } else if self.next_id() == u64::MAX {
            Some(Error::Exhausted)
        } else {
            None
        }
    }

    /// The failure of `update_end`, if it fails.
    pub open spec fn update_end_error(&self, id: u64, new_end: BlockNumber) -> Option<Error> {
        if !self@.contains_key(id) {
            Some(Error::NotFound)
        } else if self@[id].status != Status::Active {
            Some(Error::NotActive)
        } else if new_end < self@[id].end_height {
            Some(Error::MonotonicityViolation)
        } else {
            None
        }
    }

    /// The failure of an operation that needs an active record, if it fails.
    pub open spec fn active_error(&self, id: u64) -> Option<Error> {
        if !self@.contains_key(id) {
            Some(Error::NotFound)
        } else if self@[id].status != Status::Active {
            Some(Error::NotActive)
        } else {
            None
        }
    }

    /// The failure of `remove`, if it fails.
    pub open spec fn remove_error(&self, id: u64) -> Option<Error> {
        if !self@.contains_key(id) {
            Some(Error::NotFound)
        } else if self@[id].status != Status::Finalized {
            Some(Error::NotFinalized)
        } else {
            None
        }
    }

    /// A registry without records, whose first identifier is zero.
    pub fn new() -> (r: Self)
        ensures
            r.wf(),
            r@ == Map::<u64, Record<T>>::empty(),
            r.next_id() == 0,
    {
        Registry { allocator: IdAllocator::new(), records: IdMap::new() }
    }

    /// A registry without records, whose first identifier is `first`.
    pub fn starting_at(first: u64) -> (r: Self)
        ensures
            r.wf(),
            r@ == Map::<u64, Record<T>>::empty(),
            r.next_id() == first,
    {
        Registry { allocator: IdAllocator::starting_at(first), records: IdMap::new() }
    }

    /// The identifier that the next record will get.
    pub fn upcoming_id(&self) -> (id: u64)
        ensures
            id == self.next_id(),
    {
        self.allocator.upcoming()
    }

    /// Registers an active record with the window `start..end` under a fresh
    /// identifier, and returns the identifier. A window that does not satisfy
    /// `now < start < end` is refused, and so is a registration when the
    /// identifiers are used up; a refusal changes nothing.
    pub fn create(&mut self, now: BlockNumber, start: BlockNumber, end: BlockNumber, detail: T) -> (r:
        Result<u64, Error>)
        requires
            old(self).wf(),
        ensures
            final(self).wf(),
            match old(self).create_error(now, start, end) {
                Some(e) => r == Err::<u64, Error>(e) && *final(self) == *old(self),
                None => {
                    &&& r == Ok::<u64, Error>(old(self).next_id())
                    &&& final(self).next_id() == old(self).next_id() + 1
                    &&& final(self)@ == old(self)@.insert(
                        old(self).next_id(),
                        (Record {
                            id: old(self).next_id(),
                            start_height: start,
                            end_height: end,
                            status: Status::Active,
                            detail,
                        }),
                    )
                },
            },
    {
        if !(now < start && start < end) {
            return Err(Error::InvalidWindow);
        }
        match self.allocator.next() {
            Err(e) => Err(e),
            Ok(id) => {
                let record = Record {
                    id,
                    start_height: start,
                    end_height: end,
                    status: Status::Active,
                    detail,
                };
                self.records.insert(id, record);
                Ok(id)
            },
        }
    }

    /// The record under `id`.
    pub fn get(&self, id: u64) -> (r: Result<&Record<T>, Error>)
        requires
            self.wf(),
        ensures
            match r {
                Ok(record) => self@.contains_key(id) && *record == self@[id],
                Err(e) => !self@.contains_key(id) && e == Error::NotFound,
            },
    {
        match self.records.get(id) {
            Some(record) => Ok(record),
            None => Err(Error::NotFound),
        }
    }

    /// Moves the end height of the active record `id` to `new_end`, which
    /// must not lie before the current end. A refusal changes nothing.
    pub fn update_end(&mut self, id: u64, new_end: BlockNumber) -> (r: Result<(), Error>)
        requires
            old(self).wf(),
        ensures
            final(self).wf(),
            final(self).next_id() == old(self).next_id(),
            match old(self).update_end_error(id, new_end) {
                Some(e) => r == Err::<(), Error>(e) && *final(self) == *old(self),
                None => {
                    &&& r == Ok::<(), Error>(())
                    &&& final(self)@ == old(self)@.insert(
                        id,
                        (Record { end_height: new_end, ..old(self)@[id] }),
                    )
                },
            },
            old(self)@.contains_key(id) ==> final(self)@.contains_key(id)
                && final(self)@[id].end_height >= old(self)@[id].end_height,
            old(self).is_active(id) ==> final(self)@[id].end_height == end_after_request(
                old(self)@[id].end_height,
                new_end,
            ),
    {
        let active = match self.records.get(id) {
            None => { return Err(Error::NotFound); },
            Some(record) => matches!(record.status, Status::Active) && new_end >= record.end_height,
        };
        if !active {
            let record = self.records.get(id).unwrap();
            if !matches!(record.status, Status::Active) {
                return Err(Error::NotActive);
            }
            return Err(Error::MonotonicityViolation);
        }
        let taken = self.records.remove(id);
        let mut record = taken.unwrap();
        record.end_height = new_end;
        self.records.insert(id, record);
        proof {
            assert(self.records@ =~= old(self).records@.insert(
                id,
                (Record { end_height: new_end, ..old(self)@[id] }),
            ));
        }
        Ok(())
    }

    /// Marks the active record `id` as finalized. A refusal changes nothing.
    pub fn finalize(&mut self, id: u64) -> (r: Result<(), Error>)
        requires
            old(self).wf(),
        ensures
            final(self).wf(),
            final(self).next_id() == old(self).next_id(),
            match old(self).active_error(id) {
                Some(e) => r == Err::<(), Error>(e) && *final(self) == *old(self),
                None => {
                    &&& r == Ok::<(), Error>(())
                    &&& final(self)@ == old(self)@.insert(
                        id,
                        (Record { status: Status::Finalized, ..old(self)@[id] }),
                    )
                },
            },
    {
        let active = match self.records.get(id) {
            None => { return Err(Error::NotFound); },
            Some(record) => matches!(record.status, Status::Active),
        };
        if !active {
            return Err(Error::NotActive);
        }
        let taken = self.records.remove(id);
        let mut record = taken.unwrap();
        record.status = Status::Finalized;
        self.records.insert(id, record);
        proof {
            assert(self.records@ =~= old(self).records@.insert(
                id,
                (Record { status: Status::Finalized, ..old(self)@[id] }),
            ));
        }
        Ok(())
    }

    /// Puts `detail` in place of what is particular to the active record
    /// `id`, and returns what was there. A refusal changes nothing.
    pub fn replace_detail(&mut self, id: u64, detail: T) -> (r: Result<T, Error>)
        requires
            old(self).wf(),
        ensures
            final(self).wf(),
            final(self).next_id() == old(self).next_id(),
            match old(self).active_error(id) {
                Some(e) => r == Err::<T, Error>(e) && *final(self) == *old(self),
                None => {
                    &&& r == Ok::<T, Error>(old(self)@[id].detail)
                    &&& final(self)@ == old(self)@.insert(
                        id,
                        (Record { detail, ..old(self)@[id] }),
                    )
                },
            },
    {
        let active = match self.records.get(id) {
            None => { return Err(Error::NotFound); },
            Some(record) => matches!(record.status, Status::Active),
        };
        if !active {
            return Err(Error::NotActive);
        }
        let taken = self.records.remove(id);
        let record = taken.unwrap();
        let Record { id: rid, start_height, end_height, status, detail: previous } = record;
        self.records.insert(id, Record { id: rid, start_height, end_height, status, detail });
        proof {
            assert(self.records@ =~= old(self).records@.insert(
                id,
                (Record { detail, ..old(self)@[id] }),
            ));
        }
        Ok(previous)
    }

    /// Takes the finalized record `id` out of the registry and returns it. A
    /// refusal changes nothing.
    pub fn remove(&mut self, id: u64) -> (r: Result<Record<T>, Error>)
        requires
            old(self).wf(),
        ensures
            final(self).wf(),
            final(self).next_id() == old(self).next_id(),
            match old(self).remove_error(id) {
                Some(e) => r == Err::<Record<T>, Error>(e) && *final(self) == *old(self),
                None => {
                    &&& r == Ok::<Record<T>, Error>(old(self)@[id])
                    &&& final(self)@ == old(self)@.remove(id)
                },
            },
    {
        let finalized = match self.records.get(id) {
            None => { return Err(Error::NotFound); },
            Some(record) => matches!(record.status, Status::Finalized),
        };
        if !finalized {
            return Err(Error::NotFinalized);
        }
        let taken = self.records.remove(id);
        Ok(taken.unwrap())
    }
}

} // verus!
