//! Pools and stakes: creating a pool, staking in it, taking a stake back and
//! claiming a reward.

use vstd::prelude::*;
use crate::currency::CurrencyTransfer;
use crate::engine::{Engine, Pool};
use crate::registry::Record;
use crate::types::{
    ensure_signed, signer, AccountId, Balance, BlockNumber, CountryId, Error, Event, Origin,
    PoolId, Reward, Status,
};

verus! {

impl Engine {
    /// The failure of `create_pool`, if it fails.
    pub open spec fn create_pool_error(
        &self,
        origin: Origin,
        start: BlockNumber,
        end: BlockNumber,
        now: BlockNumber,
    ) -> Option<Error> {
        if signer(origin) is None {
            Some(Error::Unauthorized)
        } else {
            self.pools().create_error(now, start, end)
        }
    }

    /// The failure of `stake`, if it fails before the currency is asked.
    pub open spec fn stake_error(&self, origin: Origin, pool: PoolId, amount: Balance) -> Option<
        Error,
    > {
        if signer(origin) is None {
            Some(Error::Unauthorized)
        } else if self.pools().active_error(pool) is Some {
            self.pools().active_error(pool)
        } else {
            self.ledger().stake_error(pool, amount)
        }
    }

    /// The failure of `unstake`, if it fails before the currency is asked.
    pub open spec fn unstake_error(&self, origin: Origin, pool: PoolId, amount: Balance)
        -> Option<Error> {
        match signer(origin) {
            None => Some(Error::Unauthorized),
            Some(who) => self.ledger().unstake_error(pool, who, amount),
        }
    }

    /// The failure of `claim`, if it fails.
    pub open spec fn claim_error(&self, origin: Origin, pool: PoolId) -> Option<Error> {
        match signer(origin) {
            None => Some(Error::Unauthorized),
            Some(who) => if self.ledger().accrued(pool, who) == 0 {
                Some(Error::NothingToClaim)
            } else {
                None
            },
        }
    }

    /// Creates a pool for the signer of `origin`: registers it as active
    /// under a fresh identifier with the window `start..end`, schedules it at
    /// `end`, lists it under `country`, and notifies `PoolCreated`. Returns
    /// the identifier. An origin that is not signed, a window without
    /// `now < start < end` and the exhaustion of identifiers are refused, and
    /// a refusal changes nothing.
    pub fn create_pool(
        &mut self,
        origin: Origin,
        country: CountryId,
        name: Vec<u8>,
        start: BlockNumber,
        end: BlockNumber,
        reward_percentage: u32,
        now: BlockNumber,
    ) -> (r: Result<PoolId, Error>)
        requires
            old(self).wf(),
        ensures
            final(self).wf(),
            match old(self).create_pool_error(origin, start, end, now) {
                Some(e) => r == Err::<PoolId, Error>(e) && *final(self) == *old(self),
                None => {
                    let id = old(self).pools().next_id();
                    &&& r == Ok::<PoolId, Error>(id)
                    &&& final(self).pools().next_id() == id + 1
                    &&& final(self).pools()@ == old(self).pools()@.insert(
                        id,
                        (Record {
                            id,
                            start_height: start,
                            end_height: end,
                            status: Status::Active,
                            detail: (Pool { name, reward_percentage }),
                        }),
                    )
                    &&& final(self).pool_expiry()@ == old(self).pool_expiry()@.insert(id, end)
                    &&& final(self).country_pools() == old(self).country_pools().insert(
                        country,
                        old(self).pools_of(country).push(id),
                    )
                    &&& final(self).events() == old(self).events().push(
                        Event::PoolCreated(signer(origin)->Some_0, id),
                    )
                    &&& final(self).auctions() == old(self).auctions()
                    &&& final(self).auction_expiry() == old(self).auction_expiry()
                    &&& final(self).ledger() == old(self).ledger()
                },
            },
    {
        let who = match ensure_signed(origin) {
            Ok(who) => who,
            Err(e) => { return Err(e); },
        };
        proof {
            self.lemma_parts();
            self.pools.lemma_wf();
        }
        match self.pools.create(now, start, end, Pool { name, reward_percentage }) {
            Err(e) => Err(e),
            Ok(id) => {
                proof {
                    assert(!crate::registry::active_in(old(self).pools@, id));
                    assert(!old(self).pool_expiry@.contains_key(id));
                }
                let _ = self.pool_expiry.insert(end, id);
                let mut list = match self.country_pools.remove(country) {
                    Some(list) => list,
                    None => Vec::new(),
                };
                list.push(id);
                self.country_pools.insert(country, list);
                self.events.push(Event::PoolCreated(who, id));
                proof {
                    self.lemma_parts();
                    old(self).lemma_parts();
                    assert(self.country_pools() =~= old(self).country_pools().insert(
                        country,
                        old(self).pools_of(country).push(id),
                    ));
                    assert forall|p: PoolId| #[trigger]
                        self.ledger()@.contains_key(p) implies p < self.pools().next_id() by {
                        assert(old(self).ledger()@.contains_key(p));
                    }
                    assert forall|p: PoolId| #[trigger]
                        self.pools().is_active(p) implies !self.ledger().book(p).settled by {
                        if p != id {
                            assert(old(self).pools().is_active(p));
                        } else {
                            assert(!old(self).ledger()@.contains_key(p));
                        }
                    }
                }
                Ok(id)
            },
        }
    }

    /// Stakes `amount` for the signer of `origin` in `pool`. The currency
    /// sets the funds aside first; only then the stake is recorded and
    /// `Staked` is notified. Refused before the currency is asked: an origin
    /// that is not signed, a pool that is unknown or not active, an amount of
    /// zero, and a total that would leave the range of a balance. Where the
    /// currency refuses, the failure is `InsufficientFunds`. Every refusal
    /// leaves the engine as it was.
    pub fn stake<C: CurrencyTransfer>(
        &mut self,
        currency: &mut C,
        origin: Origin,
        pool: PoolId,
        amount: Balance,
    ) -> (r: Result<(), Error>)
        requires
            old(self).wf(),
        ensures
            final(self).wf(),
            match old(self).stake_error(origin, pool, amount) {
                Some(e) => r == Err::<(), Error>(e) && *final(self) == *old(self) && *final(currency) == *old(currency),
                None => old(self).stake_outcome(final(self), signer(origin)->Some_0, pool, amount, r),
            },
    {
        let who = match ensure_signed(origin) {
            Ok(who) => who,
            Err(e) => { return Err(e); },
        };
        proof {
            self.lemma_parts();
        }
        match self.pools.get(pool) {
            Err(e) => { return Err(e); },
            Ok(record) => {
                if !matches!(record.status, Status::Active) {
                    return Err(Error::NotActive);
                }
            },
        }
        match self.ledger.check_stake(pool, amount) {
            Err(e) => Err(e),
            Ok(()) => {
                let reserved = currency.reserve(who, amount);
                self.settle_stake(who, pool, amount, reserved.is_ok())
            },
        }
    }

    /// What a stake that passed the checks comes to: recorded and notified,
    /// or refused by the currency with the engine as it was.
    pub open spec fn stake_outcome(
        &self,
        after: &Engine,
        who: AccountId,
        pool: PoolId,
        amount: Balance,
        r: Result<(), Error>,
    ) -> bool {
        match r {
            Ok(_) => {
                &&& crate::ledger::stake_effect(self.ledger(), after.ledger(), pool, who, amount)
                &&& after.events() == self.events().push(Event::Staked(pool, who, amount))
                &&& after.pools() == self.pools()
                &&& after.auctions() == self.auctions()
                &&& after.pool_expiry() == self.pool_expiry()
                &&& after.auction_expiry() == self.auction_expiry()
                &&& after.country_pools() == self.country_pools()
            },
            Err(e) => e == Error::InsufficientFunds && *after == *self,
        }
    }

    /// Finishes a stake of `who` that passed the checks, once the currency
    /// has answered: records and notifies it where the funds were set aside,
    /// and reports `InsufficientFunds` where they were not.
    pub fn settle_stake(&mut self, who: AccountId, pool: PoolId, amount: Balance, reserved: bool) -> (r:
        Result<(), Error>)
        requires
            old(self).wf(),
            old(self).pools().is_active(pool),
            old(self).ledger().stake_error(pool, amount) is None,
        ensures
            final(self).wf(),
            old(self).stake_outcome(final(self), who, pool, amount, r),
            reserved <==> r.is_ok(),
    {
        proof {
            self.lemma_parts();
            self.pools.lemma_wf();
        }
        let r = self.ledger.settle_stake(pool, who, amount, reserved);
        if r.is_ok() {
            self.events.push(Event::Staked(pool, who, amount));
        }
        proof {
            self.lemma_parts();
            if r.is_ok() {
                assert forall|p: PoolId| #[trigger]
                    self.ledger()@.contains_key(p) implies p < self.pools().next_id() by {
                    if p != pool {
                        assert(old(self).ledger()@.contains_key(p));
                    }
                }
                assert forall|p: PoolId| #[trigger]
                    self.pools().is_active(p) implies !self.ledger().book(p).settled by {
                    assert(old(self).pools().is_active(p));
                    assert(!old(self).ledger().book(p).settled);
                }
            }
        }
        r
    }

    /// Gives `amount` of what the signer of `origin` has staked in `pool`
    /// back. The currency releases the funds first; only then the ledger is
    /// changed and `Unstaked` is notified. Refused before the currency is
    /// asked: an origin that is not signed, a settled pool where the engine
    /// locks settled pools, and an amount above what the signer has staked.
    /// Where the currency refuses, the failure is `InsufficientFunds`. Every
    /// refusal leaves the engine as it was.
    pub fn unstake<C: CurrencyTransfer>(
        &mut self,
        currency: &mut C,
        origin: Origin,
        pool: PoolId,
        amount: Balance,
    ) -> (r: Result<(), Error>)
        requires
            old(self).wf(),
        ensures
            final(self).wf(),
            match old(self).unstake_error(origin, pool, amount) {
                Some(e) => r == Err::<(), Error>(e) && *final(self) == *old(self) && *final(currency) == *old(currency),
                None => old(self).unstake_outcome(
                    final(self),
                    signer(origin)->Some_0,
                    pool,
                    amount,
                    r,
                ),
            },
    {
        let who = match ensure_signed(origin) {
            Ok(who) => who,
            Err(e) => { return Err(e); },
        };
        proof {
            self.lemma_parts();
        }
        match self.ledger.check_unstake(pool, who, amount) {
            Err(e) => Err(e),
            Ok(()) => {
                let released = currency.release(who, amount);
                self.settle_unstake(who, pool, amount, released.is_ok())
            },
        }
    }

    /// What an unstake that passed the checks comes to: recorded and
    /// notified, or refused by the currency with the engine as it was.
    pub open spec fn unstake_outcome(
        &self,
        after: &Engine,
        who: AccountId,
        pool: PoolId,
        amount: Balance,
        r: Result<(), Error>,
    ) -> bool {
        match r {
            Ok(_) => {
                &&& crate::ledger::unstake_effect(self.ledger(), after.ledger(), pool, who, amount)
                &&& after.events() == self.events().push(Event::Unstaked(pool, who, amount))
                &&& after.pools() == self.pools()
                &&& after.auctions() == self.auctions()
                &&& after.pool_expiry() == self.pool_expiry()
                &&& after.auction_expiry() == self.auction_expiry()
                &&& after.country_pools() == self.country_pools()
            },
            Err(e) => e == Error::InsufficientFunds && *after == *self,
        }
    }

    /// Finishes an unstake of `who` that passed the checks, once the
    /// currency has answered.
    pub fn settle_unstake(&mut self, who: AccountId, pool: PoolId, amount: Balance, released: bool) -> (r:
        Result<(), Error>)
        requires
            old(self).wf(),
            amount <= old(self).ledger().staked(pool, who),
        ensures
            final(self).wf(),
            old(self).unstake_outcome(final(self), who, pool, amount, r),
            released <==> r.is_ok(),
    {
        proof {
            self.lemma_parts();
        }
        let r = self.ledger.settle_unstake(pool, who, amount, released);
        if r.is_ok() {
            self.events.push(Event::Unstaked(pool, who, amount));
        }
        proof {
            self.lemma_parts();
            if r.is_ok() {
                assert forall|p: PoolId| #[trigger]
                    self.ledger()@.contains_key(p) implies p < self.pools().next_id() by {
                    if p != pool || amount == 0 {
                        assert(old(self).ledger()@.contains_key(p));
                    } else {
                        assert(old(self).ledger()@.contains_key(p));
                    }
                }
                assert forall|p: PoolId| #[trigger]
                    self.pools().is_active(p) implies !self.ledger().book(p).settled by {
                    assert(old(self).pools().is_active(p));
                    assert(!old(self).ledger().book(p).settled);
                }
            }
        }
        r
    }

    /// Pays the signer of `origin` what it has earned in `pool`: returns the
    /// amount, sets what it has accrued to zero, and notifies `Claimed`. An
    /// origin that is not signed and a signer that has earned nothing are
    /// refused, and a refusal changes nothing.
    pub fn claim(&mut self, origin: Origin, pool: PoolId) -> (r: Result<Reward, Error>)
        requires
            old(self).wf(),
        ensures
            final(self).wf(),
            match old(self).claim_error(origin, pool) {
                Some(e) => r == Err::<Reward, Error>(e) && *final(self) == *old(self),
                None => {
                    let who = signer(origin)->Some_0;
                    let paid = old(self).ledger().accrued(pool, who);
                    &&& r == Ok::<Reward, Error>(paid)
                    &&& crate::ledger::claim_effect(
                        old(self).ledger(),
                        final(self).ledger(),
                        pool,
                        who,
                    )
                    &&& final(self).events() == old(self).events().push(
                        Event::Claimed(pool, who, paid),
                    )
                    &&& final(self).pools() == old(self).pools()
                    &&& final(self).auctions() == old(self).auctions()
                    &&& final(self).pool_expiry() == old(self).pool_expiry()
                    &&& final(self).auction_expiry() == old(self).auction_expiry()
                    &&& final(self).country_pools() == old(self).country_pools()
                },
            },
    {
        let who = match ensure_signed(origin) {
            Ok(who) => who,
            Err(e) => { return Err(e); },
        };
        proof {
            self.lemma_parts();
        }
        match self.ledger.claim(pool, who) {
            Err(e) => Err(e),
            Ok(paid) => {
                self.events.push(Event::Claimed(pool, who, paid));
                proof {
                    self.lemma_parts();
                    assert forall|p: PoolId| #[trigger]
                        self.ledger()@.contains_key(p) implies p < self.pools().next_id() by {
                        assert(old(self).ledger()@.contains_key(p));
                    }
                    assert forall|p: PoolId| #[trigger]
                        self.pools().is_active(p) implies !self.ledger().book(p).settled by {
                        assert(old(self).pools().is_active(p));
                        assert(!old(self).ledger().book(p).settled);
                    }
                }
                Ok(paid)
            },
        }
    }
}

} // verus!
