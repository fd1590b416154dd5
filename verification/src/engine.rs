//! The engine's state: the registries, the expiry indexes, the ledger and the
//! notifications, with the invariant that holds them together.

use vstd::prelude::*;
use crate::expiry::ExpiryIndex;
use crate::id_map::IdMap;
use crate::ledger::Ledger;
use crate::registry::{active_in, Record, Registry};
use crate::types::{AccountId, AuctionId, Bid, BlockNumber, CountryId, Error, Event, PoolId};

verus! {

/// What is particular to a staking pool.
#[derive(Debug, Clone, PartialEq, Eq)]
pub struct Pool {
    /// The pool's name.
    pub name: Vec<u8>,
    /// The reward rate, in percent of the staked amount.
    pub reward_percentage: u32,
}

/// What is particular to an auction.
#[derive(Debug, Clone, Copy, PartialEq, Eq, Structural)]
pub struct Auction {
    /// How close to the end a bid must come to move the end, and how far past
    /// the bid's height the end then moves.
    pub closing_window: BlockNumber,
    /// The highest bid taken so far.
    pub current_leader: Option<Bid>,
}

/// Whether a registry and its expiry index agree: the scheduled identifiers
/// are the active ones together with those in `pending`, which have been
/// taken out of their bucket and are about to be settled, and each scheduled
/// identifier is due at the end height of its record.
pub open spec fn linked<T>(
    records: Map<u64, Record<T>>,
    due: Map<u64, BlockNumber>,
    pending: Set<u64>,
) -> bool {
    forall|id: u64|
        #![trigger active_in(records, id)]
        #![trigger due.contains_key(id)]
        #![trigger pending.contains(id)]
        {
            &&& active_in(records, id) <==> (due.contains_key(id) || pending.contains(id))
            &&& due.contains_key(id) ==> !pending.contains(id) && due[id]
                == records[id].end_height
        }
}

/// The whole state of the engine. Every operation takes it by exclusive
/// reference, so the operations on one engine form a single sequence.
#[derive(Debug, Clone, PartialEq, Eq)]
pub struct Engine {
    pub(crate) pools: Registry<Pool>,
    pub(crate) auctions: Registry<Auction>,
    pub(crate) pool_expiry: ExpiryIndex,
    pub(crate) auction_expiry: ExpiryIndex,
    pub(crate) ledger: Ledger,
    pub(crate) country_pools: IdMap<Vec<PoolId>>,
    pub(crate) events: Vec<Event>,
}

impl Engine {
    /// The registry of pools.
    pub closed spec fn pools(&self) -> Registry<Pool> {
        self.pools
    }

    /// The registry of auctions.
    pub closed spec fn auctions(&self) -> Registry<Auction> {
        self.auctions
    }

    /// The expiry index of the pools.
    pub closed spec fn pool_expiry(&self) -> ExpiryIndex {
        self.pool_expiry
    }

    /// The expiry index of the auctions.
    pub closed spec fn auction_expiry(&self) -> ExpiryIndex {
        self.auction_expiry
    }

    /// The staking ledger.
    pub closed spec fn ledger(&self) -> Ledger {
        self.ledger
    }

    /// The pools of each country, in the order of their creation.
    pub closed spec fn country_pools(&self) -> Map<CountryId, Seq<PoolId>> {
        self.country_pools@.map_values(|v: Vec<PoolId>| v@)
    }

    /// The notifications that have not been taken yet, oldest first.
    pub closed spec fn events(&self) -> Seq<Event> {
        self.events@
    }

    /// Whether the pools, the pool index and the ledger agree while the pools
    /// of `pending` are being settled.
    pub open spec fn pools_linked(&self, pending: Set<u64>) -> bool {
        &&& linked(self.pools()@, self.pool_expiry()@, pending)
        &&& forall|id: PoolId| #[trigger]
            self.pools().is_active(id) ==> !self.ledger().book(id).settled
        &&& forall|id: PoolId| #[trigger]
            self.ledger()@.contains_key(id) ==> id < self.pools().next_id()
    }

    /// Whether each part is well formed by itself.
    pub closed spec fn parts_wf(&self) -> bool {
        &&& self.pools.wf()
        &&& self.auctions.wf()
        &&& self.pool_expiry.wf()
        &&& self.auction_expiry.wf()
        &&& self.ledger.wf()
        &&& self.country_pools.wf()
    }

    /// What the accessors and `parts_wf` stand for, for the rest of the crate.
    pub(crate) proof fn lemma_parts(&self)
        ensures
            self.pools() == self.pools,
            self.auctions() == self.auctions,
            self.pool_expiry() == self.pool_expiry,
            self.auction_expiry() == self.auction_expiry,
            self.ledger() == self.ledger,
            self.country_pools() == self.country_pools@.map_values(|v: Vec<PoolId>| v@),
            self.events() == self.events@,
            self.parts_wf() == (self.pools.wf() && self.auctions.wf() && self.pool_expiry.wf()
                && self.auction_expiry.wf() && self.ledger.wf() && self.country_pools.wf()),
    {
    }

    /// The pools of `country`, in the order of their creation.
    pub open spec fn pools_of(&self, country: CountryId) -> Seq<PoolId> {
        if self.country_pools().contains_key(country) {
            self.country_pools()[country]
        } else {
            Seq::empty()
        }
    }

    /// Whether `other` differs from this engine in its notifications at most.
    pub open spec fn same_core(&self, other: &Engine) -> bool {
        &&& self.pools() == other.pools()
        &&& self.auctions() == other.auctions()
        &&& self.pool_expiry() == other.pool_expiry()
        &&& self.auction_expiry() == other.auction_expiry()
        &&& self.ledger() == other.ledger()
        &&& self.country_pools() == other.country_pools()
    }

    /// The invariant of the engine. Each part is well formed; every active
    /// pool and every active auction stands in exactly one bucket of its
    /// index, that of its end height, and nothing else stands in any bucket;
    /// no active pool is settled in the ledger.
    pub open spec fn wf(&self) -> bool {
        &&& self.parts_wf()
        &&& self.pools_linked(Set::empty())
        &&& linked(self.auctions()@, self.auction_expiry()@, Set::empty())
    }

    /// For every pool, at all times, the recorded total is the sum of what
    /// the accounts have staked in it, and no account has staked more than
    /// the total.
    pub proof fn lemma_total_is_sum(&self, pool: PoolId)
        requires
            self.wf(),
        ensures
            self.ledger().book(pool).total_staked == crate::stake::sum_staked(
                self.ledger().book(pool).positions,
            ),
            forall|account: AccountId|
                self.ledger().staked(pool, account) <= self.ledger().book(pool).total_staked,
    {
        self.ledger.lemma_total_is_sum(pool);
    }

    /// An engine without pools, auctions, stakes or notifications.
    pub fn new(lock_settled: bool) -> (e: Self)
        ensures
            e.wf(),
            e.pools()@ == Map::<u64, Record<Pool>>::empty(),
            e.auctions()@ == Map::<u64, Record<Auction>>::empty(),
            e.pool_expiry()@ == Map::<u64, BlockNumber>::empty(),
            e.auction_expiry()@ == Map::<u64, BlockNumber>::empty(),
            e.ledger()@ == Map::<PoolId, crate::book::BookView>::empty(),
            e.ledger().locks_settled() == lock_settled,
            e.country_pools() == Map::<CountryId, Seq<PoolId>>::empty(),
            e.events() == Seq::<Event>::empty(),
            e.pools().next_id() == 0,
            e.auctions().next_id() == 0,
    {
        let e = Engine {
            pools: Registry::new(),
            auctions: Registry::new(),
            pool_expiry: ExpiryIndex::new(),
            auction_expiry: ExpiryIndex::new(),
            ledger: Ledger::new(lock_settled),
            country_pools: IdMap::new(),
            events: Vec::new(),
        };
        assert(e.country_pools() =~= Map::<CountryId, Seq<PoolId>>::empty());
        e
    }
}

impl Engine {
    /// The record of pool `id`.
    pub fn pool(&self, id: PoolId) -> (r: Result<&Record<Pool>, Error>)
        requires
            self.wf(),
        ensures
            match r {
                Ok(record) => self.pools()@.contains_key(id) && *record == self.pools()@[id],
                Err(e) => !self.pools()@.contains_key(id) && e == Error::NotFound,
            },
    {
        self.pools.get(id)
    }

    /// The record of auction `id`.
    pub fn auction(&self, id: AuctionId) -> (r: Result<&Record<Auction>, Error>)
        requires
            self.wf(),
        ensures
            match r {
                Ok(record) => self.auctions()@.contains_key(id) && *record == self.auctions()@[id],
                Err(e) => !self.auctions()@.contains_key(id) && e == Error::NotFound,
            },
    {
        self.auctions.get(id)
    }

    /// The pools that are due at `height`, in ascending order.
    pub fn pools_ended(&self, height: BlockNumber) -> (ids: Vec<PoolId>)
        requires
            self.wf(),
        ensures
            ids@ == crate::id_map::ascending(self.pool_expiry().bucket(height)),
    {
        self.pool_expiry.due_at(height)
    }

    /// The auctions that are due at `height`, in ascending order.
    pub fn auctions_ended(&self, height: BlockNumber) -> (ids: Vec<AuctionId>)
        requires
            self.wf(),
        ensures
            ids@ == crate::id_map::ascending(self.auction_expiry().bucket(height)),
    {
        self.auction_expiry.due_at(height)
    }

    /// The pools of `country`, in the order of their creation.
    pub fn country_staking_pools(&self, country: CountryId) -> (ids: Vec<PoolId>)
        requires
            self.wf(),
        ensures
            ids@ == self.pools_of(country),
    {
        match self.country_pools.get(country) {
            Some(list) => {
                let mut ids: Vec<PoolId> = Vec::new();
                let mut i: usize = 0;
                while i < list.len()
                    invariant
                        i <= list@.len(),
                        ids@ == list@.take(i as int),
                    decreases list@.len() - i,
                {
                    ids.push(list[i]);
                    proof {
                        assert(list@.take(i + 1) =~= list@.take(i as int).push(list@[i as int]));
                    }
                    i = i + 1;
                }
                proof {
                    assert(list@.take(list@.len() as int) =~= list@);
                }
                ids
            },
            None => Vec::new(),
        }
    }

    /// What `account` has staked in `pool`.
    pub fn staked_amount(&self, pool: PoolId, account: AccountId) -> (a: crate::types::Balance)
        requires
            self.wf(),
        ensures
            a == self.ledger().staked(pool, account),
    {
        self.ledger.staked_amount(pool, account)
    }

    /// What `account` has earned in `pool` and not yet claimed.
    pub fn accrued_reward(&self, pool: PoolId, account: AccountId) -> (a: crate::types::Reward)
        requires
            self.wf(),
        ensures
            a == self.ledger().accrued(pool, account),
    {
        self.ledger.accrued_reward(pool, account)
    }

    /// The recorded total staked in `pool`, which is the sum of what its
    /// accounts have staked.
    pub fn total_staked(&self, pool: PoolId) -> (t: crate::types::Balance)
        requires
            self.wf(),
        ensures
            t == self.ledger().book(pool).total_staked,
            t == crate::stake::sum_staked(self.ledger().book(pool).positions),
    {
        self.ledger.total_staked(pool)
    }

    /// The number of notifications that have not been taken yet.
    pub fn event_count(&self) -> (n: usize)
        ensures
            n == self.events().len(),
    {
        self.events.len()
    }

    /// Hands the notifications over to the sink, oldest first, and forgets
    /// them. Nothing else changes.
    pub fn take_events(&mut self) -> (taken: Vec<Event>)
        ensures
            taken@ == old(self).events(),
            final(self).events() == Seq::<Event>::empty(),
            final(self).same_core(old(self)),
            old(self).wf() ==> final(self).wf(),
    {
        let mut taken: Vec<Event> = Vec::new();
        std::mem::swap(&mut self.events, &mut taken);
        taken
    }
}

/// The latest notification of `engine`.
pub fn last_event(engine: &Engine) -> (e: Event)
    requires
        engine.events().len() > 0,
    ensures
        e == engine.events().last(),
{
    engine.events[engine.events.len() - 1]
}

/// Builds a fresh engine.
#[derive(Debug, Clone, Copy, PartialEq, Eq, Structural)]
pub struct ExtBuilder {
    lock_settled: bool,
}

impl Default for ExtBuilder {
    /// A builder of an engine that lets stakes be taken back at any time.
    fn default() -> (b: Self)
        ensures
            !b.locks_settled(),
    {
        ExtBuilder { lock_settled: false }
    }
}

impl ExtBuilder {
    /// Whether the engine to be built locks the stakes of settled pools.
    pub closed spec fn locks_settled(&self) -> bool {
        self.lock_settled
    }

    /// Sets whether the engine to be built locks the stakes of settled pools.
    pub fn lock_settled(self, lock: bool) -> (b: Self)
        ensures
            b.locks_settled() == lock,
    {
        ExtBuilder { lock_settled: lock }
    }

    /// The engine: well formed and empty.
    pub fn build(self) -> (e: Engine)
        ensures
            e.wf(),
            e.pools()@ == Map::<u64, Record<Pool>>::empty(),
            e.auctions()@ == Map::<u64, Record<Auction>>::empty(),
            e.pool_expiry()@ == Map::<u64, BlockNumber>::empty(),
            e.auction_expiry()@ == Map::<u64, BlockNumber>::empty(),
            e.ledger()@ == Map::<PoolId, crate::book::BookView>::empty(),
            e.ledger().locks_settled() == self.locks_settled(),
            e.country_pools() == Map::<CountryId, Seq<PoolId>>::empty(),
            e.events() == Seq::<Event>::empty(),
            e.pools().next_id() == 0,
            e.auctions().next_id() == 0,
    {
        Engine::new(self.lock_settled)
    }
}

} // verus!

mod bidding;
mod scheduler;
mod staking;
