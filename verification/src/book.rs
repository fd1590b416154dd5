//! The accounts of one pool: who has staked what, and the pool's total.

use vstd::prelude::*;
use crate::stake::{
    credited, debited, distinct_accounts, has_account, lemma_rewarded_sums,
    lemma_rewards_within_budget, lemma_sum_staked_push, lemma_sum_staked_update, paid_out,
    position_of, reward_budget, rewarded, slot_of, sum_rewards, sum_staked, PoolLogicHandler,
    StakePosition,
};
use crate::types::{AccountId, Balance, Reward};

verus! {

/// The accounts of one pool as a mathematical value.
pub ghost struct BookView {
    /// Whether the rewards have been given out.
    pub settled: bool,
    /// The pool's recorded total of staked amounts.
    pub total_staked: Balance,
    /// One position for each account that ever staked.
    pub positions: Seq<StakePosition>,
}

impl BookView {
    /// The accounts of a pool in which nobody has staked.
    pub open spec fn empty() -> BookView {
        BookView { settled: false, total_staked: 0, positions: Seq::empty() }
    }

    /// The invariant: one position for an account, the recorded total is the
    /// sum of the staked amounts, and no reward stands before settlement.
    pub open spec fn wf(self) -> bool {
        &&& distinct_accounts(self.positions)
        &&& self.total_staked == sum_staked(self.positions)
        &&& !self.settled ==> forall|i: int|
            0 <= i < self.positions.len() ==> (#[trigger] self.positions[i]).accrued_reward == 0
    }

    /// After `account` has staked `amount` more.
    pub open spec fn staked(self, account: AccountId, amount: Balance) -> BookView {
        BookView {
            total_staked: (self.total_staked + amount) as Balance,
            positions: credited(self.positions, account, amount),
            ..self
        }
    }

    /// After `account` has taken `amount` back.
    pub open spec fn unstaked(self, account: AccountId, amount: Balance) -> BookView {
        BookView {
            total_staked: (self.total_staked - amount) as Balance,
            positions: debited(self.positions, account, amount),
            ..self
        }
    }

    /// After the rewards at `rate` percent have been given out.
    pub open spec fn settled_at(self, rate: u32) -> BookView {
        BookView { settled: true, positions: rewarded(self.positions, rate), ..self }
    }

    /// After `account` has been paid its reward.
    pub open spec fn claimed(self, account: AccountId) -> BookView {
        BookView { positions: paid_out(self.positions, account), ..self }
    }
}

/// The accounts of one pool.
#[derive(Debug, Clone, PartialEq, Eq)]
pub struct Book {
    settled: bool,
    total_staked: Balance,
    positions: Vec<StakePosition>,
}

impl View for Book {
    type V = BookView;

    closed spec fn view(&self) -> BookView {
        BookView {
            settled: self.settled,
            total_staked: self.total_staked,
            positions: self.positions@,
        }
    }
}

/// Where accounts are distinct, the position found under an account is the
/// only one with that account.
pub proof fn lemma_slot_unique(s: Seq<StakePosition>, i: int)
    requires
        distinct_accounts(s),
        0 <= i < s.len(),
    ensures
        has_account(s, s[i].account),
        slot_of(s, s[i].account) == i,
        position_of(s, s[i].account) == s[i],
{
    assert(s[i].account == s[i].account);
    let j = slot_of(s, s[i].account);
    assert(0 <= j < s.len() && s[j].account == s[i].account);
}

impl Book {
    /// The accounts of a pool in which nobody has staked.
    pub fn new() -> (b: Self)
        ensures
            b@ == BookView::empty(),
            b@.wf(),
    {
        let b = Book { settled: false, total_staked: 0, positions: Vec::new() };
        assert(b@.positions =~= Seq::empty());
        b
    }

    /// Whether the rewards have been given out.
    pub fn is_settled(&self) -> (b: bool)
        ensures
            b == self@.settled,
    {
        self.settled
    }

    /// The recorded total of staked amounts.
    pub fn total_staked(&self) -> (t: Balance)
        ensures
            t == self@.total_staked,
    {
        self.total_staked
    }

    /// The positions, in the order in which the accounts first staked.
    pub fn positions(&self) -> (v: &Vec<StakePosition>)
        ensures
            v@ == self@.positions,
    {
        &self.positions
    }

    /// The place of the position of `account`, if it has one.
    fn find(&self, account: AccountId) -> (r: Option<usize>)
        requires
            self@.wf(),
        ensures
            match r {
                Some(i) => has_account(self@.positions, account) && i == slot_of(
                    self@.positions,
                    account,
                ) && i < self@.positions.len(),
                None => !has_account(self@.positions, account),
            },
    {
        let mut i: usize = 0;
        while i < self.positions.len()
            invariant
                self@.wf(),
                i <= self.positions@.len(),
                forall|j: int| 0 <= j < i ==> (#[trigger] self.positions@[j]).account != account,
            decreases self.positions@.len() - i,
        {
            if self.positions[i].account == account {
                proof {
                    lemma_slot_unique(self@.positions, i as int);
                }
                return Some(i);
            }
            i = i + 1;
        }
        None
    }

    /// The position of `account`; where it has none, one that holds nothing.
    pub fn position(&self, account: AccountId) -> (p: StakePosition)
        requires
            self@.wf(),
        ensures
            p == position_of(self@.positions, account),
    {
        match self.find(account) {
            Some(i) => self.positions[i],
            None => StakePosition { account, staked_amount: 0, accrued_reward: 0 },
        }
    }

    /// Adds `amount` to what `account` has staked and to the total.
    pub fn credit(&mut self, account: AccountId, amount: Balance)
        requires
            old(self)@.wf(),
            old(self)@.total_staked + amount <= Balance::MAX,
        ensures
            final(self)@ == old(self)@.staked(account, amount),
            final(self)@.wf(),
    {
        match self.find(account) {
            Some(i) => {
                let p = self.positions[i];
                proof {
                    lemma_sum_staked_update(
                        self.positions@,
                        i as int,
                        StakePosition {
                            staked_amount: (p.staked_amount + amount) as Balance,
                            ..p
                        },
                    );
                }
                self.positions[i] = StakePosition {
                    account: p.account,
                    staked_amount: p.staked_amount + amount,
                    accrued_reward: p.accrued_reward,
                };
            },
            None => {
                proof {
                    lemma_sum_staked_push(
                        self.positions@,
                        StakePosition { account, staked_amount: amount, accrued_reward: 0 },
                    );
                }
                self.positions.push(
                    StakePosition { account, staked_amount: amount, accrued_reward: 0 },
                );
            },
        }
        self.total_staked = self.total_staked + amount;
        proof {
            assert(self@.positions =~= credited(old(self)@.positions, account, amount));
        }
    }

    /// Takes `amount` from what `account` has staked and from the total.
    pub fn debit(&mut self, account: AccountId, amount: Balance)
        requires
            old(self)@.wf(),
            has_account(old(self)@.positions, account),
            amount <= position_of(old(self)@.positions, account).staked_amount,
        ensures
            final(self)@ == old(self)@.unstaked(account, amount),
            final(self)@.wf(),
    {
        match self.find(account) {
            Some(i) => {
                let p = self.positions[i];
                proof {
                    lemma_sum_staked_update(
                        self.positions@,
                        i as int,
                        StakePosition {
                            staked_amount: (p.staked_amount - amount) as Balance,
                            ..p
                        },
                    );
                }
                self.positions[i] = StakePosition {
                    account: p.account,
                    staked_amount: p.staked_amount - amount,
                    accrued_reward: p.accrued_reward,
                };
                self.total_staked = self.total_staked - amount;
            },
            None => {},
        }
        proof {
            assert(self@.positions =~= debited(old(self)@.positions, account, amount));
        }
    }

    /// Gives every position its reward at `rate` percent, closes the book,
    /// and returns the sum of what was given out, which never exceeds the
    /// reward on the total staked.
    pub fn settle(&mut self, rate: u32) -> (given: Reward)
        requires
            old(self)@.wf(),
            !old(self)@.settled,
        ensures
            final(self)@ == old(self)@.settled_at(rate),
            final(self)@.wf(),
            given == sum_rewards(old(self)@.positions, rate),
            given <= reward_budget(old(self)@.positions, rate),
    {
        let mut given: Reward = 0;
        let mut i: usize = 0;
        let n: usize = self.positions.len();
        while i < n
            invariant
                old(self)@.wf(),
                n == old(self).positions@.len(),
                self.positions@.len() == n,
                i <= n,
                self.total_staked == old(self).total_staked,
                self.settled == old(self).settled,
                given == sum_rewards(old(self).positions@.take(i as int), rate),
                forall|j: int|
                    0 <= j < i ==> #[trigger] self.positions@[j] == rewarded(
                        old(self).positions@,
                        rate,
                    )[j],
                forall|j: int| i <= j < n ==> #[trigger] self.positions@[j] == old(self).positions@[j],
            decreases n - i,
        {
            let p = self.positions[i];
            let reward: Reward = PoolLogicHandler::reward(p.staked_amount, rate);
            proof {
                let whole = old(self).positions@;
                assert(whole.take(i + 1).drop_last() =~= whole.take(i as int));
                assert(whole.take(i + 1).last() == whole[i as int]);
                lemma_rewards_within_budget(whole.take(i + 1), rate);
                lemma_prefix_staked(whole, i + 1);
                assert(reward_budget(whole.take(i + 1), rate) < 0x1_0000_0000_0000_0000_0000_0000)
                    by (nonlinear_arith)
                    requires
                        reward_budget(whole.take(i + 1), rate) == (sum_staked(whole.take(i + 1))
                            * (rate as nat)) / 100,
                        sum_staked(whole.take(i + 1)) <= 0xffff_ffff_ffff_ffff,
                        rate <= 0xffff_ffff,
                ;
            }
            given = given + reward;
            self.positions[i] = StakePosition {
                account: p.account,
                staked_amount: p.staked_amount,
                accrued_reward: reward,
            };
            i = i + 1;
        }
        self.settled = true;
        proof {
            let whole = old(self).positions@;
            assert(whole.take(n as int) =~= whole);
            assert(self@.positions =~= rewarded(whole, rate));
            lemma_rewarded_sums(whole, rate);
            lemma_rewards_within_budget(whole, rate);
        }
        given
    }

    /// Pays `account` its reward: returns what it has accrued and sets that
    /// to zero.
    pub fn pay_out(&mut self, account: AccountId) -> (paid: Reward)
        requires
            old(self)@.wf(),
        ensures
            paid == position_of(old(self)@.positions, account).accrued_reward,
            final(self)@ == old(self)@.claimed(account),
            final(self)@.wf(),
    {
        match self.find(account) {
            Some(i) => {
                let p = self.positions[i];
                proof {
                    lemma_sum_staked_update(
                        self.positions@,
                        i as int,
                        StakePosition { accrued_reward: 0, ..p },
                    );
                }
                self.positions[i] = StakePosition {
                    account: p.account,
                    staked_amount: p.staked_amount,
                    accrued_reward: 0,
                };
                proof {
                    assert(self@.positions =~= paid_out(old(self)@.positions, account));
                }
                p.accrued_reward
            },
            None => {
                proof {
                    assert(self@.positions =~= paid_out(old(self)@.positions, account));
                }
                0
            },
        }
    }
}

/// The staked amounts of a prefix sum to no more than those of the whole.
pub proof fn lemma_prefix_staked(s: Seq<StakePosition>, n: int)
    requires
        0 <= n <= s.len(),
    ensures
        sum_staked(s.take(n)) <= sum_staked(s),
    decreases s.len() - n,
{
    if n == s.len() {
        assert(s.take(n) =~= s);
    } else {
        lemma_prefix_staked(s, n + 1);
        assert(s.take(n + 1).drop_last() =~= s.take(n));
    }
}

} // verus!
