//! The staking ledger: the accounts of every pool, with the rules by which
//! stakes are taken, given back, rewarded and paid out.

use vstd::prelude::*;
use crate::book::{Book, BookView};
use crate::currency::CurrencyTransfer;
use crate::id_map::IdMap;
use crate::stake::{
    has_account, lemma_credited, lemma_debited, lemma_paid_out, lemma_rewarded,
    lemma_sum_staked_update, position_of, reward_budget, reward_for, slot_of, sum_rewards,
    sum_staked,
};
use crate::types::{AccountId, Balance, Error, PoolId, Reward};

verus! {

/// The accounts of every pool. Its view maps a pool to its accounts; a pool
/// in which nobody ever staked and which was never settled has no entry.
#[derive(Debug, Clone, PartialEq, Eq)]
pub struct Ledger {
    lock_settled: bool,
    books: IdMap<Book>,
}

impl View for Ledger {
    type V = Map<PoolId, BookView>;

    closed spec fn view(&self) -> Map<PoolId, BookView> {
        self.books@.map_values(|b: Book| b@)
    }
}

impl Ledger {
    /// Whether stakes stay locked in a pool once it is settled.
    pub closed spec fn locks_settled(&self) -> bool {
        self.lock_settled
    }

    /// The invariant: the accounts of every pool are well formed, so the
    /// recorded total of a pool is the sum of what its accounts have staked.
    pub closed spec fn wf(&self) -> bool {
        &&& self.books.wf()
        &&& forall|pool: PoolId| #[trigger]
            self.books@.contains_key(pool) ==> self.books@[pool]@.wf()
    }

    /// The accounts of `pool`.
    pub open spec fn book(&self, pool: PoolId) -> BookView {
        if self@.contains_key(pool) {
            self@[pool]
        } else {
            BookView::empty()
        }
    }

    /// What `account` has staked in `pool`.
    pub open spec fn staked(&self, pool: PoolId, account: AccountId) -> Balance {
        position_of(self.book(pool).positions, account).staked_amount
    }

    /// What `account` has earned in `pool` and not yet claimed.
    pub open spec fn accrued(&self, pool: PoolId, account: AccountId) -> Reward {
        position_of(self.book(pool).positions, account).accrued_reward
    }

    /// In every pool, at all times, the recorded total is the sum of what the
    /// accounts have staked, and no account has staked more than the total.
    pub proof fn lemma_total_is_sum(&self, pool: PoolId)
        requires
            self.wf(),
        ensures
            self.book(pool).wf(),
            self.book(pool).total_staked == sum_staked(self.book(pool).positions),
            forall|account: AccountId| self.staked(pool, account) <= self.book(pool).total_staked,
    {
        if self@.contains_key(pool) {
            assert(self.books@.contains_key(pool));
        }
        let s = self.book(pool).positions;
        assert forall|account: AccountId| self.staked(pool, account) <= self.book(
            pool,
        ).total_staked by {
            if has_account(s, account) {
                lemma_sum_staked_update(s, slot_of(s, account), s[slot_of(s, account)]);
            }
        }
    }

    /// The failure of a stake, if it fails before the currency is asked.
    pub open spec fn stake_error(&self, pool: PoolId, amount: Balance) -> Option<Error> {
        if amount == 0 {
            Some(Error::ZeroAmount)
        } else if self.book(pool).settled {
            Some(Error::NotActive)
        } else if self.book(pool).total_staked + amount > Balance::MAX {
            Some(Error::Overflow)
        } else {
            None
        }
    }

    /// The failure of an unstake, if it fails before the currency is asked.
    pub open spec fn unstake_error(&self, pool: PoolId, account: AccountId, amount: Balance)
        -> Option<Error> {
        if self.locks_settled() && self.book(pool).settled {
            Some(Error::LockedUntilFinalize)
        } else if amount > self.staked(pool, account) {
            Some(Error::InsufficientStake)
        } else {
            None
        }
    }

    /// The ledger's view after `account` has staked `amount` in `pool`.
    pub open spec fn after_stake(&self, pool: PoolId, account: AccountId, amount: Balance) -> Map<
        PoolId,
        BookView,
    > {
        self@.insert(pool, self.book(pool).staked(account, amount))
    }

    /// The ledger's view after `account` has taken `amount` back from `pool`.
    /// Taking nothing back changes nothing.
    pub open spec fn after_unstake(&self, pool: PoolId, account: AccountId, amount: Balance)
        -> Map<PoolId, BookView> {
        if amount == 0 {
            self@
        } else {
            self@.insert(pool, self.book(pool).unstaked(account, amount))
        }
    }

    /// A ledger without accounts. With `lock_settled`, stakes cannot be taken
    /// back from a pool once it is settled.
    pub fn new(lock_settled: bool) -> (l: Self)
        ensures
            l.wf(),
            l@ == Map::<PoolId, BookView>::empty(),
            l.locks_settled() == lock_settled,
    {
        let l = Ledger { lock_settled, books: IdMap::new() };
        assert(l@ =~= Map::<PoolId, BookView>::empty());
        l
    }

    /// What `account` has staked in `pool`.
    pub fn staked_amount(&self, pool: PoolId, account: AccountId) -> (a: Balance)
        requires
            self.wf(),
        ensures
            a == self.staked(pool, account),
    {
        match self.books.get(pool) {
            Some(book) => book.position(account).staked_amount,
            None => 0,
        }
    }

    /// What `account` has earned in `pool` and not yet claimed.
    pub fn accrued_reward(&self, pool: PoolId, account: AccountId) -> (a: Reward)
        requires
            self.wf(),
        ensures
            a == self.accrued(pool, account),
    {
        match self.books.get(pool) {
            Some(book) => book.position(account).accrued_reward,
            None => 0,
        }
    }

    /// The recorded total staked in `pool`.
    pub fn total_staked(&self, pool: PoolId) -> (t: Balance)
        requires
            self.wf(),
        ensures
            t == self.book(pool).total_staked,
            t == sum_staked(self.book(pool).positions),
    {
        proof {
            self.lemma_total_is_sum(pool);
        }
        match self.books.get(pool) {
            Some(book) => book.total_staked(),
            None => 0,
        }
    }

    /// Whether the rewards of `pool` have been given out.
    pub fn is_settled(&self, pool: PoolId) -> (b: bool)
        requires
            self.wf(),
        ensures
            b == self.book(pool).settled,
    {
        match self.books.get(pool) {
            Some(book) => book.is_settled(),
            None => false,
        }
    }

    /// Whether a stake of `amount` in `pool` may be recorded.
    pub fn check_stake(&self, pool: PoolId, amount: Balance) -> (r: Result<(), Error>)
        requires
            self.wf(),
        ensures
            r == match self.stake_error(pool, amount) {
                Some(e) => Err::<(), Error>(e),
                None => Ok::<(), Error>(()),
            },
    {
        if amount == 0 {
            return Err(Error::ZeroAmount);
        }
        if self.is_settled(pool) {
            return Err(Error::NotActive);
        }
        if amount > Balance::MAX - self.total_staked(pool) {
            return Err(Error::Overflow);
        }
        Ok(())
    }

    /// Whether `account` may take `amount` back from `pool`.
    pub fn check_unstake(&self, pool: PoolId, account: AccountId, amount: Balance) -> (r: Result<
        (),
        Error,
    >)
        requires
            self.wf(),
        ensures
            r == match self.unstake_error(pool, account, amount) {
                Some(e) => Err::<(), Error>(e),
                None => Ok::<(), Error>(()),
            },
    {
        if self.lock_settled && self.is_settled(pool) {
            return Err(Error::LockedUntilFinalize);
        }
        if amount > self.staked_amount(pool, account) {
            return Err(Error::InsufficientStake);
        }
        Ok(())
    }

    fn take_book(&mut self, pool: PoolId) -> (book: Book)
        requires
            old(self).wf(),
        ensures
            book@ == old(self).book(pool),
            book@.wf(),
            final(self).books.wf(),
            final(self).books@ == old(self).books@.remove(pool),
            final(self).lock_settled == old(self).lock_settled,
    {
        match self.books.remove(pool) {
            Some(book) => book,
            None => Book::new(),
        }
    }

    fn put_book(&mut self, pool: PoolId, book: Book, Ghost(before): Ghost<Ledger>)
        requires
            before.wf(),
            old(self).books.wf(),
            old(self).books@ == before.books@.remove(pool),
            old(self).lock_settled == before.lock_settled,
            book@.wf(),
        ensures
            final(self).wf(),
            final(self)@ == before@.insert(pool, book@),
            final(self).locks_settled() == before.locks_settled(),
    {
        self.books.insert(pool, book);
        proof {
            assert forall|p: PoolId| #[trigger] self.books@.contains_key(p) implies self.books@[p]@.wf() by {
                if p != pool {
                    assert(before.books@.contains_key(p));
                }
            }
            assert(self@ =~= before@.insert(pool, book@));
        }
    }

    /// Records a stake for which the funds have been set aside.
    pub fn record_stake(&mut self, pool: PoolId, account: AccountId, amount: Balance)
        requires
            old(self).wf(),
            old(self).stake_error(pool, amount) is None,
        ensures
            final(self).wf(),
            final(self).locks_settled() == old(self).locks_settled(),
            stake_effect(*old(self), *final(self), pool, account, amount),
    {
        let ghost before = *self;
        let mut book = self.take_book(pool);
        book.credit(account, amount);
        self.put_book(pool, book, Ghost(before));
        proof {
            before.lemma_total_is_sum(pool);
            assert forall|a: AccountId| #[trigger]
                self.staked(pool, a) == before.staked(pool, a) + if a == account {
                    amount as int
                } else {
                    0
                } by {
                lemma_credited(before.book(pool).positions, account, amount, a);
            }
            assert forall|a: AccountId| #[trigger] self.accrued(pool, a) == before.accrued(pool, a) by {
                lemma_credited(before.book(pool).positions, account, amount, a);
            }
        }
    }

    /// Records that `account` has taken `amount` back, for which the funds
    /// have been released.
    pub fn record_unstake(&mut self, pool: PoolId, account: AccountId, amount: Balance)
        requires
            old(self).wf(),
            amount <= old(self).staked(pool, account),
        ensures
            final(self).wf(),
            final(self).locks_settled() == old(self).locks_settled(),
            unstake_effect(*old(self), *final(self), pool, account, amount),
    {
        if amount == 0 {
            return ;
        }
        let ghost before = *self;
        let mut book = self.take_book(pool);
        book.debit(account, amount);
        self.put_book(pool, book, Ghost(before));
        proof {
            before.lemma_total_is_sum(pool);
            assert forall|a: AccountId| #[trigger]
                self.staked(pool, a) == before.staked(pool, a) - if a == account {
                    amount as int
                } else {
                    0
                } by {
                lemma_debited(before.book(pool).positions, account, amount, a);
            }
            assert forall|a: AccountId| #[trigger] self.accrued(pool, a) == before.accrued(pool, a) by {
                lemma_debited(before.book(pool).positions, account, amount, a);
            }
        }
    }

    /// Stakes `amount` for `account` in `pool`: the currency sets the funds
    /// aside, and only then the stake is recorded. A stake of nothing, a
    /// stake in a settled pool and one that would take the pool's total past
    /// the range of a balance are refused before the currency is asked; where
    /// the currency refuses, nothing is recorded.
    pub fn stake<C: CurrencyTransfer>(
        &mut self,
        currency: &mut C,
        pool: PoolId,
        account: AccountId,
        amount: Balance,
    ) -> (r: Result<(), Error>)
        requires
            old(self).wf(),
        ensures
            final(self).wf(),
            final(self).locks_settled() == old(self).locks_settled(),
            match old(self).stake_error(pool, amount) {
                Some(e) => r == Err::<(), Error>(e) && *final(self) == *old(self) && *final(currency) == *old(currency),
                None => stake_outcome(*old(self), *final(self), pool, account, amount, r),
            },
    {
        match self.check_stake(pool, amount) {
            Err(e) => Err(e),
            Ok(()) => {
                let reserved = currency.reserve(account, amount);
                self.settle_stake(pool, account, amount, reserved.is_ok())
            },
        }
    }

    /// Finishes a stake that passed the checks, once the currency has
    /// answered: records it where the funds were set aside, and reports
    /// `InsufficientFunds` without recording anything where they were not.
    pub fn settle_stake(
        &mut self,
        pool: PoolId,
        account: AccountId,
        amount: Balance,
        reserved: bool,
    ) -> (r: Result<(), Error>)
        requires
            old(self).wf(),
            old(self).stake_error(pool, amount) is None,
        ensures
            final(self).wf(),
            final(self).locks_settled() == old(self).locks_settled(),
            stake_outcome(*old(self), *final(self), pool, account, amount, r),
            reserved <==> r.is_ok(),
    {
        if reserved {
            self.record_stake(pool, account, amount);
            Ok(())
        } else {
            Err(Error::InsufficientFunds)
        }
    }

    /// Gives `amount` of what `account` has staked in `pool` back: the
    /// currency releases the funds, and only then the ledger is changed.
    /// Asking for more than is staked is refused, and so is any unstake from
    /// a settled pool where the ledger locks settled pools; where the
    /// currency refuses, nothing is changed.
    pub fn unstake<C: CurrencyTransfer>(
        &mut self,
        currency: &mut C,
        pool: PoolId,
        account: AccountId,
        amount: Balance,
    ) -> (r: Result<(), Error>)
        requires
            old(self).wf(),
        ensures
            final(self).wf(),
            final(self).locks_settled() == old(self).locks_settled(),
            match old(self).unstake_error(pool, account, amount) {
                Some(e) => r == Err::<(), Error>(e) && *final(self) == *old(self) && *final(currency) == *old(currency),
                None => unstake_outcome(*old(self), *final(self), pool, account, amount, r),
            },
    {
        match self.check_unstake(pool, account, amount) {
            Err(e) => Err(e),
            Ok(()) => {
                let released = currency.release(account, amount);
                self.settle_unstake(pool, account, amount, released.is_ok())
            },
        }
    }

    /// Finishes an unstake that passed the checks, once the currency has
    /// answered.
    pub fn settle_unstake(
        &mut self,
        pool: PoolId,
        account: AccountId,
        amount: Balance,
        released: bool,
    ) -> (r: Result<(), Error>)
        requires
            old(self).wf(),
            amount <= old(self).staked(pool, account),
        ensures
            final(self).wf(),
            final(self).locks_settled() == old(self).locks_settled(),
            unstake_outcome(*old(self), *final(self), pool, account, amount, r),
            released <==> r.is_ok(),
    {
        if released {
            self.record_unstake(pool, account, amount);
            Ok(())
        } else {
            Err(Error::InsufficientFunds)
        }
    }

    /// Gives every account of `pool` its reward at `rate` percent, rounded
    /// down, and closes the pool's accounts. Returns the sum given out, which
    /// never exceeds the reward on the pool's total. A pool that is settled
    /// already is refused and stays as it is.
    pub fn accrue_reward(&mut self, pool: PoolId, rate: u32) -> (r: Result<Reward, Error>)
        requires
            old(self).wf(),
        ensures
            final(self).wf(),
            final(self).locks_settled() == old(self).locks_settled(),
            old(self).book(pool).settled ==> r == Err::<Reward, Error>(Error::NotActive) && *final(self) == *old(self),
            !old(self).book(pool).settled ==> {
                &&& r is Ok
                &&& r->Ok_0 == sum_rewards(old(self).book(pool).positions, rate)
                &&& r->Ok_0 <= reward_budget(old(self).book(pool).positions, rate)
                &&& reward_effect(*old(self), *final(self), pool, rate)
            },
    {
        if self.is_settled(pool) {
            return Err(Error::NotActive);
        }
        let ghost before = *self;
        let mut book = self.take_book(pool);
        let given = book.settle(rate);
        self.put_book(pool, book, Ghost(before));
        proof {
            before.lemma_total_is_sum(pool);
            assert forall|a: AccountId| #[trigger]
                self.accrued(pool, a) == reward_for(before.staked(pool, a), rate) by {
                lemma_rewarded(before.book(pool).positions, rate, a);
            }
            assert forall|a: AccountId| #[trigger]
                self.staked(pool, a) == before.staked(pool, a) by {
                lemma_rewarded(before.book(pool).positions, rate, a);
            }
        }
        Ok(given)
    }

    /// Pays `account` what it has earned in `pool`: returns the amount and
    /// sets what it has accrued to zero. An account that has earned nothing
    /// is refused, and the ledger stays as it is.
    pub fn claim(&mut self, pool: PoolId, account: AccountId) -> (r: Result<Reward, Error>)
        requires
            old(self).wf(),
        ensures
            final(self).wf(),
            final(self).locks_settled() == old(self).locks_settled(),
            old(self).accrued(pool, account) == 0 ==> r == Err::<Reward, Error>(
                Error::NothingToClaim,
            ) && *final(self) == *old(self),
            old(self).accrued(pool, account) > 0 ==> {
                &&& r == Ok::<Reward, Error>(old(self).accrued(pool, account))
                &&& claim_effect(*old(self), *final(self), pool, account)
            },
    {
        if self.accrued_reward(pool, account) == 0 {
            return Err(Error::NothingToClaim);
        }
        let ghost before = *self;
        let mut book = self.take_book(pool);
        let paid = book.pay_out(account);
        self.put_book(pool, book, Ghost(before));
        proof {
            before.lemma_total_is_sum(pool);
            assert forall|a: AccountId| #[trigger]
                self.accrued(pool, a) == (if a == account {
                    0
                } else {
                    before.accrued(pool, a)
                }) by {
                lemma_paid_out(before.book(pool).positions, account, a);
            }
            assert forall|a: AccountId| #[trigger]
                self.staked(pool, a) == before.staked(pool, a) by {
                lemma_paid_out(before.book(pool).positions, account, a);
            }
        }
        Ok(paid)
    }
}

/// What a recorded stake changes: the position of `account` in `pool` holds
/// `amount` more, and so does the pool's total; nothing else changes.
pub open spec fn stake_effect(
    before: Ledger,
    after: Ledger,
    pool: PoolId,
    account: AccountId,
    amount: Balance,
) -> bool {
    &&& after@ == before.after_stake(pool, account, amount)
    &&& after.locks_settled() == before.locks_settled()
    &&& after.book(pool).total_staked == before.book(pool).total_staked + amount
    &&& after.book(pool).settled == before.book(pool).settled
    &&& forall|a: AccountId| #[trigger]
        after.staked(pool, a) == before.staked(pool, a) + if a == account {
            amount as int
        } else {
            0
        }
    &&& forall|a: AccountId| #[trigger] after.accrued(pool, a) == before.accrued(pool, a)
    &&& forall|p: PoolId| p != pool ==> #[trigger] after.book(p) == before.book(p)
}

/// What a recorded unstake changes: the position of `account` in `pool`
/// holds `amount` less, and so does the pool's total; nothing else changes.
pub open spec fn unstake_effect(
    before: Ledger,
    after: Ledger,
    pool: PoolId,
    account: AccountId,
    amount: Balance,
) -> bool {
    &&& after@ == before.after_unstake(pool, account, amount)
    &&& after.locks_settled() == before.locks_settled()
    &&& after.book(pool).total_staked == before.book(pool).total_staked - amount
    &&& after.book(pool).settled == before.book(pool).settled
    &&& forall|a: AccountId| #[trigger]
        after.staked(pool, a) == before.staked(pool, a) - if a == account {
            amount as int
        } else {
            0
        }
    &&& forall|a: AccountId| #[trigger] after.accrued(pool, a) == before.accrued(pool, a)
    &&& forall|p: PoolId| p != pool ==> #[trigger] after.book(p) == before.book(p)
}

/// What giving out the rewards of `pool` at `rate` percent changes: the pool
/// is settled, and every account has accrued the reward on what it has
/// staked, rounded down; nothing else changes.
pub open spec fn reward_effect(before: Ledger, after: Ledger, pool: PoolId, rate: u32) -> bool {
    &&& after@ == before@.insert(pool, before.book(pool).settled_at(rate))
    &&& after.locks_settled() == before.locks_settled()
    &&& after.book(pool).total_staked == before.book(pool).total_staked
    &&& after.book(pool).settled
    &&& forall|a: AccountId| #[trigger]
        after.accrued(pool, a) == reward_for(before.staked(pool, a), rate)
    &&& forall|a: AccountId| #[trigger] after.staked(pool, a) == before.staked(pool, a)
    &&& forall|p: PoolId| p != pool ==> #[trigger] after.book(p) == before.book(p)
}

/// What a claim changes: `account` has accrued nothing in `pool` any more;
/// nothing else changes.
pub open spec fn claim_effect(before: Ledger, after: Ledger, pool: PoolId, account: AccountId)
    -> bool {
    &&& after@ == before@.insert(pool, before.book(pool).claimed(account))
    &&& after.locks_settled() == before.locks_settled()
    &&& after.book(pool).total_staked == before.book(pool).total_staked
    &&& after.book(pool).settled == before.book(pool).settled
    &&& forall|a: AccountId| #[trigger]
        after.accrued(pool, a) == if a == account {
            0
        } else {
            before.accrued(pool, a)
        }
    &&& forall|a: AccountId| #[trigger] after.staked(pool, a) == before.staked(pool, a)
    &&& forall|p: PoolId| p != pool ==> #[trigger] after.book(p) == before.book(p)
}

/// What a stake that passed the checks comes to: recorded, or refused by the
/// currency with the ledger as it was.
pub open spec fn stake_outcome(
    before: Ledger,
    after: Ledger,
    pool: PoolId,
    account: AccountId,
    amount: Balance,
    r: Result<(), Error>,
) -> bool {
    match r {
        Ok(_) => stake_effect(before, after, pool, account, amount),
        Err(e) => e == Error::InsufficientFunds && after == before,
    }
}

/// What an unstake that passed the checks comes to: recorded, or refused by
/// the currency with the ledger as it was.
pub open spec fn unstake_outcome(
    before: Ledger,
    after: Ledger,
    pool: PoolId,
    account: AccountId,
    amount: Balance,
    r: Result<(), Error>,
) -> bool {
    match r {
        Ok(_) => unstake_effect(before, after, pool, account, amount),
        Err(e) => e == Error::InsufficientFunds && after == before,
    }
}

} // verus!
