//! The scheduler: what happens when the clock reaches a height.

use vstd::prelude::*;
use crate::bid::AuctionHandler;
use crate::book::BookView;
use crate::engine::{linked, Auction, Engine};
use crate::ledger::Ledger;
use crate::stake::{lemma_rewarded, reward_for};
use crate::id_map::{ascending, strictly_increasing};
use crate::registry::{active_in, Record};
use crate::types::{
    AccountId, AuctionId, Bid, BlockNumber, Error, Event, PoolId, Reward, Status,
};

verus! {

/// The pools and auctions that a tick has settled, each in ascending order.
#[derive(Debug, Clone, PartialEq, Eq)]
pub struct Settled {
    /// The pools.
    pub pools: Vec<PoolId>,
    /// The auctions.
    pub auctions: Vec<AuctionId>,
}

/// The elements of `ids` from place `i` on.
pub open spec fn from_place(ids: Seq<u64>, i: int) -> Set<u64> {
    Set::new(|x: u64| exists|k: int| i <= k < ids.len() && ids[k] == x)
}

/// The elements of `ids` before place `i`.
pub open spec fn before_place(ids: Seq<u64>, i: int) -> Set<u64> {
    Set::new(|x: u64| exists|k: int| 0 <= k < i && ids[k] == x)
}

proof fn lemma_places(ids: Seq<u64>, i: int)
    requires
        strictly_increasing(ids),
        0 <= i < ids.len(),
    ensures
        from_place(ids, i).contains(ids[i]),
        !before_place(ids, i).contains(ids[i]),
        from_place(ids, i).remove(ids[i]) == from_place(ids, i + 1),
        before_place(ids, i).insert(ids[i]) == before_place(ids, i + 1),
{
    assert(from_place(ids, i).remove(ids[i]) =~= from_place(ids, i + 1));
    assert(before_place(ids, i).insert(ids[i]) =~= before_place(ids, i + 1));
}

proof fn lemma_all_places(ids: Seq<u64>, s: Set<u64>)
    requires
        forall|x: u64| ids.contains(x) <==> s.contains(x),
    ensures
        from_place(ids, 0) == s,
        before_place(ids, ids.len() as int) == s,
        from_place(ids, ids.len() as int) == Set::<u64>::empty(),
        before_place(ids, 0) == Set::<u64>::empty(),
{
    assert forall|x: u64| from_place(ids, 0).contains(x) <==> s.contains(x) by {
        if ids.contains(x) {
            let k = choose|k: int| 0 <= k < ids.len() && ids[k] == x;
            assert(0 <= k < ids.len() && ids[k] == x);
        }
        if from_place(ids, 0).contains(x) {
            let k = choose|k: int| 0 <= k < ids.len() && ids[k] == x;
            assert(ids.contains(x));
        }
    }
    assert forall|x: u64| before_place(ids, ids.len() as int).contains(x) <==> s.contains(x) by {
        if ids.contains(x) {
            let k = choose|k: int| 0 <= k < ids.len() && ids[k] == x;
            assert(0 <= k < ids.len() && ids[k] == x);
        }
        if before_place(ids, ids.len() as int).contains(x) {
            let k = choose|k: int| 0 <= k < ids.len() && ids[k] == x;
            assert(ids.contains(x));
        }
    }
    assert(from_place(ids, 0) =~= s);
    assert(before_place(ids, ids.len() as int) =~= s);
    assert(from_place(ids, ids.len() as int) =~= Set::<u64>::empty());
    assert(before_place(ids, 0) =~= Set::<u64>::empty());
}

/// The ledger after the pools of `due` have been settled at the rates that
/// `pools` records for them.
pub open spec fn ledger_settled(
    ledger: Map<PoolId, BookView>,
    pools: Map<u64, Record<crate::engine::Pool>>,
    due: Set<u64>,
) -> Map<PoolId, BookView> {
    Map::new(
        |p: PoolId| ledger.contains_key(p) || due.contains(p),
        |p: PoolId|
            if due.contains(p) {
                (if ledger.contains_key(p) {
                    ledger[p]
                } else {
                    BookView::empty()
                }).settled_at(pools[p].detail.reward_percentage)
            } else {
                ledger[p]
            },
    )
}

/// What settling the pools of `due` changes in the ledger: each of them is
/// settled, and every account of it has accrued the reward on what it has
/// staked, at the rate that `pools` records; the stakes and the other pools
/// are as they were.
pub open spec fn settled_effect(
    before: Ledger,
    after: Ledger,
    pools: Map<u64, Record<crate::engine::Pool>>,
    due: Set<u64>,
) -> bool {
    &&& after@ == ledger_settled(before@, pools, due)
    &&& after.locks_settled() == before.locks_settled()
    &&& forall|p: PoolId| !due.contains(p) ==> #[trigger] after.book(p) == before.book(p)
    &&& forall|p: PoolId|
        due.contains(p) ==> (#[trigger] after.book(p)).settled && after.book(p).total_staked
            == before.book(p).total_staked
    &&& forall|p: PoolId, a: AccountId| #[trigger]
        after.staked(p, a) == before.staked(p, a)
    &&& forall|p: PoolId, a: AccountId|
        due.contains(p) ==> #[trigger] after.accrued(p, a) == reward_for(
            before.staked(p, a),
            pools[p].detail.reward_percentage,
        )
}

proof fn lemma_settled_effect(
    before: Ledger,
    after: Ledger,
    pools: Map<u64, Record<crate::engine::Pool>>,
    due: Set<u64>,
)
    requires
        before.wf(),
        after@ == ledger_settled(before@, pools, due),
        after.locks_settled() == before.locks_settled(),
    ensures
        settled_effect(before, after, pools, due),
{
    assert forall|p: PoolId, a: AccountId| #[trigger]
        after.staked(p, a) == before.staked(p, a) by {
        before.lemma_total_is_sum(p);
        if due.contains(p) {
            lemma_rewarded(before.book(p).positions, pools[p].detail.reward_percentage, a);
        }
    }
    assert forall|p: PoolId, a: AccountId| due.contains(p) implies #[trigger] after.accrued(p, a)
        == reward_for(before.staked(p, a), pools[p].detail.reward_percentage) by {
        before.lemma_total_is_sum(p);
        lemma_rewarded(before.book(p).positions, pools[p].detail.reward_percentage, a);
    }
}

/// The notifications of the auctions `ids` ending, each with the leader that
/// `auctions` records for it as the winner.
pub open spec fn auction_events(auctions: Map<u64, Record<Auction>>, ids: Seq<u64>) -> Seq<Event> {
    Seq::new(
        ids.len(),
        |i: int| Event::AuctionFinalized(ids[i], auctions[ids[i]].detail.current_leader),
    )
}

impl Engine {
    /// Every active pool stands in exactly one bucket, that of its end
    /// height, and a pool that is not active stands in none.
    pub proof fn lemma_pool_in_one_bucket(&self, id: PoolId, height: BlockNumber)
        requires
            self.wf(),
        ensures
            self.pool_expiry().bucket(height).contains(id) <==> (self.pools().is_active(id)
                && self.pools()@[id].end_height == height),
    {
        assert(active_in(self.pools()@, id) <==> self.pool_expiry()@.contains_key(id));
    }

    /// Every active auction stands in exactly one bucket, that of its end
    /// height, and an auction that is not active stands in none.
    pub proof fn lemma_auction_in_one_bucket(&self, id: AuctionId, height: BlockNumber)
        requires
            self.wf(),
        ensures
            self.auction_expiry().bucket(height).contains(id) <==> (self.auctions().is_active(id)
                && self.auctions()@[id].end_height == height),
    {
        assert(active_in(self.auctions()@, id) <==> self.auction_expiry()@.contains_key(id));
    }

    /// Settles the pool `id`, which has been taken out of its bucket: gives
    /// its accounts their rewards, marks it finalized and takes it out of the
    /// registry. What could fail is tested before anything is changed.
    fn finalize_pool(&mut self, id: PoolId, Ghost(pending): Ghost<Set<u64>>) -> (r: Result<
        Reward,
        Error,
    >)
        requires
            old(self).parts_wf(),
            old(self).pools_linked(pending),
            pending.contains(id),
        ensures
            final(self).parts_wf(),
            final(self).pools_linked(pending.remove(id)),
            r is Ok,
            final(self).pools()@ == old(self).pools()@.remove(id),
            final(self).pools().next_id() == old(self).pools().next_id(),
            crate::ledger::reward_effect(
                old(self).ledger(),
                final(self).ledger(),
                id,
                old(self).pools()@[id].detail.reward_percentage,
            ),
            final(self).pool_expiry() == old(self).pool_expiry(),
            final(self).auctions() == old(self).auctions(),
            final(self).auction_expiry() == old(self).auction_expiry(),
            final(self).country_pools() == old(self).country_pools(),
            final(self).events() == old(self).events(),
    {
        proof {
            self.lemma_parts();
            self.pools.lemma_wf();
            assert(active_in(self.pools@, id));
            assert(self.pools().is_active(id));
        }
        let rate: u32 = match self.pools.get(id) {
            Err(e) => { return Err(e); },
            Ok(record) => {
                if !matches!(record.status, Status::Active) {
                    return Err(Error::NotActive);
                }
                record.detail.reward_percentage
            },
        };
        let given = match self.ledger.accrue_reward(id, rate) {
            Err(e) => { return Err(e); },
            Ok(given) => given,
        };
        let _ = self.pools.finalize(id);
        let _ = self.pools.remove(id);
        proof {
            self.lemma_parts();
            assert(self.pools@ =~= old(self).pools@.remove(id));
            let rest = pending.remove(id);
            assert forall|x: u64|
                #![trigger active_in(self.pools@, x)]
                #![trigger self.pool_expiry@.contains_key(x)]
                #![trigger rest.contains(x)]
                {
                    &&& active_in(self.pools@, x) <==> (self.pool_expiry@.contains_key(x)
                        || rest.contains(x))
                    &&& self.pool_expiry@.contains_key(x) ==> !rest.contains(x)
                        && self.pool_expiry@[x] == self.pools@[x].end_height
                } by {
                assert(active_in(old(self).pools@, x) <==> (old(self).pool_expiry@.contains_key(x)
                    || pending.contains(x)));
            }
            assert forall|p: PoolId| #[trigger]
                self.ledger()@.contains_key(p) implies p < self.pools().next_id() by {
                if p != id {
                    assert(old(self).ledger()@.contains_key(p));
                }
            }
            assert forall|p: PoolId| #[trigger]
                self.pools().is_active(p) implies !self.ledger().book(p).settled by {
                assert(old(self).pools().is_active(p));
                assert(!old(self).ledger().book(p).settled);
            }
        }
        Ok(given)
    }

    /// Settles the auction `id`, which has been taken out of its bucket: its
    /// leader is the winner, the handler is told, the auction is marked
    /// finalized and taken out of the registry, and `AuctionFinalized` is
    /// notified. What could fail is tested before anything is changed.
    fn finalize_auction<H: AuctionHandler>(
        &mut self,
        handler: &mut H,
        id: AuctionId,
        Ghost(pending): Ghost<Set<u64>>,
    ) -> (r: Result<Option<Bid>, Error>)
        requires
            old(self).parts_wf(),
            old(self).pools_linked(Set::empty()),
            linked(old(self).auctions()@, old(self).auction_expiry()@, pending),
            pending.contains(id),
        ensures
            final(self).parts_wf(),
            final(self).pools_linked(Set::empty()),
            linked(final(self).auctions()@, final(self).auction_expiry()@, pending.remove(id)),
            r == Ok::<Option<Bid>, Error>(old(self).auctions()@[id].detail.current_leader),
            final(self).auctions()@ == old(self).auctions()@.remove(id),
            final(self).auctions().next_id() == old(self).auctions().next_id(),
            final(self).events() == old(self).events().push(
                Event::AuctionFinalized(id, old(self).auctions()@[id].detail.current_leader),
            ),
            final(self).auction_expiry() == old(self).auction_expiry(),
            final(self).pools() == old(self).pools(),
            final(self).pool_expiry() == old(self).pool_expiry(),
            final(self).ledger() == old(self).ledger(),
            final(self).country_pools() == old(self).country_pools(),
    {
        proof {
            self.lemma_parts();
            assert(active_in(self.auctions@, id));
        }
        let winner = match self.auctions.get(id) {
            Err(e) => { return Err(e); },
            Ok(record) => {
                if !matches!(record.status, Status::Active) {
                    return Err(Error::NotActive);
                }
                record.detail.current_leader
            },
        };
        handler.on_auction_ended(id, winner);
        let _ = self.auctions.finalize(id);
        let _ = self.auctions.remove(id);
        self.events.push(Event::AuctionFinalized(id, winner));
        proof {
            self.lemma_parts();
            assert(self.auctions@ =~= old(self).auctions@.remove(id));
            let rest = pending.remove(id);
            assert forall|x: u64|
                #![trigger active_in(self.auctions@, x)]
                #![trigger self.auction_expiry@.contains_key(x)]
                #![trigger rest.contains(x)]
                {
                    &&& active_in(self.auctions@, x) <==> (self.auction_expiry@.contains_key(x)
                        || rest.contains(x))
                    &&& self.auction_expiry@.contains_key(x) ==> !rest.contains(x)
                        && self.auction_expiry@[x] == self.auctions@[x].end_height
                } by {
                assert(active_in(old(self).auctions@, x) <==> (old(self).auction_expiry@.contains_key(x) || pending.contains(x)));
            }
        }
        Ok(winner)
    }

    /// Settles what is due at `height`. The buckets of `height` are drained.
    /// Each pool in them has its rewards given out at its rate, and each
    /// auction has its leader declared the winner, of which the handler is
    /// told and which is notified as `AuctionFinalized`; both leave the
    /// registry. Pools go first, then auctions, each in ascending order.
    ///
    /// A failure to settle one entity would be notified as `FinalizeFailed`
    /// and the tick would go on with the next; on a well-formed engine none
    /// occurs, so every entity that was due is settled. Returns them.
    pub fn tick<H: AuctionHandler>(&mut self, handler: &mut H, height: BlockNumber) -> (settled:
        Settled)
        requires
            old(self).wf(),
        ensures
            final(self).wf(),
            settled.pools@ == ascending(old(self).pool_expiry().bucket(height)),
            settled.auctions@ == ascending(old(self).auction_expiry().bucket(height)),
            final(self).pool_expiry()@ == old(self).pool_expiry()@.remove_keys(
                old(self).pool_expiry().bucket(height),
            ),
            final(self).auction_expiry()@ == old(self).auction_expiry()@.remove_keys(
                old(self).auction_expiry().bucket(height),
            ),
            final(self).pool_expiry().bucket(height) == Set::<u64>::empty(),
            final(self).auction_expiry().bucket(height) == Set::<u64>::empty(),
            final(self).pools()@ == old(self).pools()@.remove_keys(
                old(self).pool_expiry().bucket(height),
            ),
            final(self).auctions()@ == old(self).auctions()@.remove_keys(
                old(self).auction_expiry().bucket(height),
            ),
            forall|id: PoolId|
                old(self).pool_expiry().bucket(height).contains(id) ==> !(
                #[trigger] final(self).pools()@.contains_key(id)),
            forall|id: AuctionId|
                old(self).auction_expiry().bucket(height).contains(id) ==> !(
                #[trigger] final(self).auctions()@.contains_key(id)),
            final(self).pools().next_id() == old(self).pools().next_id(),
            final(self).auctions().next_id() == old(self).auctions().next_id(),
            settled_effect(
                old(self).ledger(),
                final(self).ledger(),
                old(self).pools()@,
                old(self).pool_expiry().bucket(height),
            ),
            final(self).events() == old(self).events() + auction_events(
                old(self).auctions()@,
                settled.auctions@,
            ),
            final(self).country_pools() == old(self).country_pools(),
    {
        proof {
            self.lemma_parts();
        }
        let pool_ids = self.pool_expiry.drain(height);
        let ghost pools_due = old(self).pool_expiry().bucket(height);
        proof {
            self.lemma_parts();
            lemma_all_places(pool_ids@, pools_due);
            assert forall|x: u64|
                #![trigger active_in(self.pools@, x)]
                #![trigger self.pool_expiry@.contains_key(x)]
                #![trigger pools_due.contains(x)]
                {
                    &&& active_in(self.pools@, x) <==> (self.pool_expiry@.contains_key(x)
                        || pools_due.contains(x))
                    &&& self.pool_expiry@.contains_key(x) ==> !pools_due.contains(x)
                        && self.pool_expiry@[x] == self.pools@[x].end_height
                } by {
                assert(active_in(old(self).pools@, x) <==> old(self).pool_expiry@.contains_key(
                    x,
                ));
            }
            assert(self.ledger()@ =~= ledger_settled(
                old(self).ledger()@,
                old(self).pools()@,
                Set::empty(),
            ));
            assert(self.pools()@ =~= old(self).pools()@.remove_keys(Set::empty()));
        }
        let mut i: usize = 0;
        while i < pool_ids.len()
            invariant
                i <= pool_ids@.len(),
                strictly_increasing(pool_ids@),
                forall|x: u64| pool_ids@.contains(x) <==> pools_due.contains(x),
                pools_due == old(self).pool_expiry().bucket(height),
                old(self).wf(),
                self.parts_wf(),
                self.pools_linked(from_place(pool_ids@, i as int)),
                linked(self.auctions()@, self.auction_expiry()@, Set::empty()),
                self.pools()@ == old(self).pools()@.remove_keys(before_place(pool_ids@, i as int)),
                self.pools().next_id() == old(self).pools().next_id(),
                self.ledger()@ == ledger_settled(
                    old(self).ledger()@,
                    old(self).pools()@,
                    before_place(pool_ids@, i as int),
                ),
                self.ledger().locks_settled() == old(self).ledger().locks_settled(),
                self.pool_expiry()@ == old(self).pool_expiry()@.remove_keys(pools_due),
                self.auctions() == old(self).auctions(),
                self.auction_expiry() == old(self).auction_expiry(),
                self.country_pools() == old(self).country_pools(),
                self.events() == old(self).events(),
            decreases pool_ids@.len() - i,
        {
            let id: PoolId = pool_ids[i];
            let ghost before = *self;
            proof {
                lemma_places(pool_ids@, i as int);
            }
            match self.finalize_pool(id, Ghost(from_place(pool_ids@, i as int))) {
                Ok(_) => {},
                Err(e) => {
                    self.events.push(Event::FinalizeFailed(id, e));
                },
            }
            proof {
                let done = before_place(pool_ids@, i as int);
                let done1 = before_place(pool_ids@, i + 1);
                assert(self.pools()@ =~= old(self).pools()@.remove_keys(done1));
                assert(before.ledger().book(id) == if old(self).ledger()@.contains_key(id) {
                    old(self).ledger()@[id]
                } else {
                    BookView::empty()
                });
                assert(before.pools()@[id] == old(self).pools()@[id]);
                assert(self.ledger()@ =~= ledger_settled(
                    old(self).ledger()@,
                    old(self).pools()@,
                    done1,
                ));
            }
            i = i + 1;
        }
        let auction_ids = self.auction_expiry.drain(height);
        let ghost auctions_due = old(self).auction_expiry().bucket(height);
        proof {
            self.lemma_parts();
            old(self).lemma_parts();
            lemma_all_places(pool_ids@, pools_due);
            lemma_all_places(auction_ids@, auctions_due);
            assert forall|x: u64|
                #![trigger active_in(self.auctions@, x)]
                #![trigger self.auction_expiry@.contains_key(x)]
                #![trigger auctions_due.contains(x)]
                {
                    &&& active_in(self.auctions@, x) <==> (self.auction_expiry@.contains_key(x)
                        || auctions_due.contains(x))
                    &&& self.auction_expiry@.contains_key(x) ==> !auctions_due.contains(x)
                        && self.auction_expiry@[x] == self.auctions@[x].end_height
                } by {
                assert(active_in(old(self).auctions@, x) <==> old(self).auction_expiry@.contains_key(x));
            }
            assert(self.auctions()@ =~= old(self).auctions()@.remove_keys(Set::empty()));
            assert(self.events() =~= old(self).events() + auction_events(
                old(self).auctions()@,
                auction_ids@.take(0),
            ));
        }
        let mut j: usize = 0;
        while j < auction_ids.len()
            invariant
                j <= auction_ids@.len(),
                strictly_increasing(auction_ids@),
                forall|x: u64| auction_ids@.contains(x) <==> auctions_due.contains(x),
                auctions_due == old(self).auction_expiry().bucket(height),
                old(self).wf(),
                self.parts_wf(),
                self.pools_linked(Set::empty()),
                linked(
                    self.auctions()@,
                    self.auction_expiry()@,
                    from_place(auction_ids@, j as int),
                ),
                self.auctions()@ == old(self).auctions()@.remove_keys(
                    before_place(auction_ids@, j as int),
                ),
                self.auctions().next_id() == old(self).auctions().next_id(),
                self.auction_expiry()@ == old(self).auction_expiry()@.remove_keys(auctions_due),
                self.events() == old(self).events() + auction_events(
                    old(self).auctions()@,
                    auction_ids@.take(j as int),
                ),
                self.pools()@ == old(self).pools()@.remove_keys(pools_due),
                self.pools().next_id() == old(self).pools().next_id(),
                self.ledger()@ == ledger_settled(
                    old(self).ledger()@,
                    old(self).pools()@,
                    pools_due,
                ),
                self.ledger().locks_settled() == old(self).ledger().locks_settled(),
                self.pool_expiry()@ == old(self).pool_expiry()@.remove_keys(pools_due),
                self.country_pools() == old(self).country_pools(),
            decreases auction_ids@.len() - j,
        {
            let id: AuctionId = auction_ids[j];
            let ghost before = *self;
            proof {
                lemma_places(auction_ids@, j as int);
            }
            match self.finalize_auction(handler, id, Ghost(from_place(auction_ids@, j as int))) {
                Ok(_) => {},
                Err(e) => {
                    self.events.push(Event::FinalizeFailed(id, e));
                },
            }
            proof {
                let done1 = before_place(auction_ids@, j + 1);
                assert(self.auctions()@ =~= old(self).auctions()@.remove_keys(done1));
                assert(before.auctions()@[id] == old(self).auctions()@[id]);
                assert(auction_ids@.take(j + 1) =~= auction_ids@.take(j as int).push(id));
                assert(self.events() =~= old(self).events() + auction_events(
                    old(self).auctions()@,
                    auction_ids@.take(j + 1),
                ));
            }
            j = j + 1;
        }
        proof {
            lemma_all_places(auction_ids@, auctions_due);
            assert(auction_ids@.take(auction_ids@.len() as int) =~= auction_ids@);
            old(self).lemma_parts();
            lemma_settled_effect(old(self).ledger(), self.ledger(), old(self).pools()@, pools_due);
        }
        Settled { pools: pool_ids, auctions: auction_ids }
    }
}

} // verus!
