use staking_auction::book::Book;
use staking_auction::currency::{CurrencyTransfer, InsufficientFunds};
use staking_auction::ledger::Ledger;
use staking_auction::stake::{PoolLogicHandler, StakePosition};
use staking_auction::types::{AccountId, Balance, Error, ALICE, BOB};
use std::collections::HashMap;

const CAROL: AccountId = 3;

/// A currency for tests: free and reserved funds by account.
#[derive(Debug, Clone, PartialEq, Default)]
struct Bank {
    free: HashMap<AccountId, Balance>,
    reserved: HashMap<AccountId, Balance>,
    calls: usize,
}

impl Bank {
    fn with(funds: &[(AccountId, Balance)]) -> Bank {
        let mut bank = Bank::default();
        for (who, amount) in funds {
            bank.free.insert(*who, *amount);
        }
        bank
    }

    fn free(&self, who: AccountId) -> Balance {
        *self.free.get(&who).unwrap_or(&0)
    }

    fn reserved(&self, who: AccountId) -> Balance {
        *self.reserved.get(&who).unwrap_or(&0)
    }
}

impl CurrencyTransfer for Bank {
    fn reserve(&mut self, who: AccountId, amount: Balance) -> Result<(), InsufficientFunds> {
        self.calls += 1;
        if self.free(who) < amount {
            return Err(InsufficientFunds);
        }
        let (free, reserved) = (self.free(who), self.reserved(who));
        self.free.insert(who, free - amount);
        self.reserved.insert(who, reserved + amount);
        Ok(())
    }

    fn release(&mut self, who: AccountId, amount: Balance) -> Result<(), InsufficientFunds> {
        self.calls += 1;
        if self.reserved(who) < amount {
            return Err(InsufficientFunds);
        }
        let (free, reserved) = (self.free(who), self.reserved(who));
        self.reserved.insert(who, reserved - amount);
        self.free.insert(who, free + amount);
        Ok(())
    }

    fn transfer(
        &mut self,
        from: AccountId,
        to: AccountId,
        amount: Balance,
    ) -> Result<(), InsufficientFunds> {
        self.calls += 1;
        if self.free(from) < amount {
            return Err(InsufficientFunds);
        }
        let left = self.free(from) - amount;
        self.free.insert(from, left);
        let got = self.free(to) + amount;
        self.free.insert(to, got);
        Ok(())
    }
}

fn rich() -> Bank {
    Bank::with(&[(ALICE, 100_000), (BOB, 100_000), (CAROL, 100_000)])
}

#[test]
fn stake_reserves_then_records() {
    let mut bank = rich();
    let mut ledger = Ledger::new(false);
    assert_eq!(ledger.stake(&mut bank, 0, ALICE, 100), Ok(()));
    assert_eq!(ledger.staked_amount(0, ALICE), 100);
    assert_eq!(ledger.total_staked(0), 100);
    assert_eq!(bank.reserved(ALICE), 100);
    assert_eq!(bank.free(ALICE), 99_900);
    assert_eq!(ledger.stake(&mut bank, 0, ALICE, 1), Ok(()));
    assert_eq!(ledger.staked_amount(0, ALICE), 101);
    assert_eq!(ledger.accrued_reward(0, ALICE), 0);
}

#[test]
fn stake_of_nothing_is_refused_before_the_currency_is_asked() {
    let mut bank = rich();
    let mut ledger = Ledger::new(false);
    assert_eq!(ledger.stake(&mut bank, 0, ALICE, 0), Err(Error::ZeroAmount));
    assert_eq!(ledger.check_stake(0, 0), Err(Error::ZeroAmount));
    assert_eq!(bank.calls, 0);
    assert_eq!(ledger, Ledger::new(false));
}

#[test]
fn stake_is_not_recorded_when_the_reservation_fails() {
    let mut bank = Bank::with(&[(ALICE, 99)]);
    let mut ledger = Ledger::new(false);
    assert_eq!(ledger.stake(&mut bank, 0, ALICE, 100), Err(Error::InsufficientFunds));
    assert_eq!(ledger, Ledger::new(false));
    assert_eq!(ledger.staked_amount(0, ALICE), 0);
    assert_eq!(ledger.total_staked(0), 0);
    assert_eq!(bank.free(ALICE), 99);
    assert_eq!(ledger.settle_stake(0, ALICE, 100, false), Err(Error::InsufficientFunds));
    assert_eq!(ledger, Ledger::new(false));
    assert_eq!(ledger.settle_stake(0, ALICE, 100, true), Ok(()));
    assert_eq!(ledger.staked_amount(0, ALICE), 100);
}

#[test]
fn stake_past_the_range_of_a_balance_overflows() {
    let mut bank = Bank::with(&[(ALICE, u64::MAX), (BOB, 10)]);
    let mut ledger = Ledger::new(false);
    assert_eq!(ledger.stake(&mut bank, 0, ALICE, u64::MAX - 1), Ok(()));
    let before = ledger.clone();
    assert_eq!(ledger.stake(&mut bank, 0, BOB, 2), Err(Error::Overflow));
    assert_eq!(ledger, before);
    assert_eq!(bank.reserved(BOB), 0);
    assert_eq!(ledger.stake(&mut bank, 0, BOB, 1), Ok(()));
    assert_eq!(ledger.total_staked(0), u64::MAX);
    // another pool has its own total
    assert_eq!(ledger.stake(&mut bank, 1, BOB, 2), Ok(()));
}

#[test]
fn the_total_of_a_pool_is_the_sum_of_its_stakes() {
    let mut bank = rich();
    let mut ledger = Ledger::new(false);
    let steps: [(u64, AccountId, Balance, bool); 9] = [
        (0, ALICE, 100, true),
        (0, BOB, 40, true),
        (1, ALICE, 7, true),
        (0, ALICE, 30, false),
        (0, CAROL, 5, true),
        (0, BOB, 40, false),
        (0, BOB, 1, false),
        (1, CAROL, 9, true),
        (0, ALICE, 71, false),
    ];
    for (pool, who, amount, staking) in steps {
        let _ = if staking {
            ledger.stake(&mut bank, pool, who, amount)
        } else {
            ledger.unstake(&mut bank, pool, who, amount)
        };
        for p in 0..2u64 {
            let sum: u64 = [ALICE, BOB, CAROL].iter().map(|a| ledger.staked_amount(p, *a)).sum();
            assert_eq!(ledger.total_staked(p), sum);
        }
    }
    assert_eq!(ledger.staked_amount(0, ALICE), 70);
    assert_eq!(ledger.staked_amount(0, BOB), 0);
    assert_eq!(ledger.staked_amount(0, CAROL), 5);
    assert_eq!(ledger.total_staked(0), 75);
    assert_eq!(ledger.total_staked(1), 16);
    assert_eq!(bank.reserved(ALICE), 77);
    assert_eq!(bank.reserved(BOB), 0);
}

#[test]
fn unstake_of_more_than_is_staked_fails_and_changes_nothing() {
    let mut bank = rich();
    let mut ledger = Ledger::new(false);
    ledger.stake(&mut bank, 1, ALICE, 100).unwrap();
    let before = ledger.clone();
    let bank_before = bank.clone();
    assert_eq!(ledger.unstake(&mut bank, 1, ALICE, 150), Err(Error::InsufficientStake));
    assert_eq!(ledger, before);
    assert_eq!(bank, bank_before);
    assert_eq!(ledger.staked_amount(1, ALICE), 100);
    assert_eq!(ledger.total_staked(1), 100);
    assert_eq!(ledger.unstake(&mut bank, 1, BOB, 1), Err(Error::InsufficientStake));
    assert_eq!(ledger.unstake(&mut bank, 2, ALICE, 1), Err(Error::InsufficientStake));
    assert_eq!(ledger.unstake(&mut bank, 1, ALICE, 100), Ok(()));
    assert_eq!(ledger.staked_amount(1, ALICE), 0);
    assert_eq!(bank.free(ALICE), 100_000);
}

#[test]
fn unstake_is_not_recorded_when_the_release_fails() {
    let mut bank = rich();
    let mut ledger = Ledger::new(false);
    ledger.stake(&mut bank, 1, ALICE, 100).unwrap();
    let mut empty = Bank::default();
    let before = ledger.clone();
    assert_eq!(ledger.unstake(&mut empty, 1, ALICE, 60), Err(Error::InsufficientFunds));
    assert_eq!(ledger, before);
    assert_eq!(ledger.settle_unstake(1, ALICE, 60, false), Err(Error::InsufficientFunds));
    assert_eq!(ledger, before);
    assert_eq!(ledger.settle_unstake(1, ALICE, 60, true), Ok(()));
    assert_eq!(ledger.staked_amount(1, ALICE), 40);
}

#[test]
fn unstake_of_nothing_changes_nothing() {
    let mut bank = rich();
    let mut ledger = Ledger::new(false);
    assert_eq!(ledger.unstake(&mut bank, 1, ALICE, 0), Ok(()));
    assert_eq!(ledger, Ledger::new(false));
}

#[test]
fn rewards_are_rounded_down_and_stay_within_the_budget() {
    let mut bank = rich();
    let mut ledger = Ledger::new(false);
    ledger.stake(&mut bank, 0, ALICE, 33).unwrap();
    ledger.stake(&mut bank, 0, BOB, 33).unwrap();
    ledger.stake(&mut bank, 0, CAROL, 34).unwrap();
    assert_eq!(ledger.accrue_reward(0, 10), Ok(9));
    assert_eq!(ledger.accrued_reward(0, ALICE), 3);
    assert_eq!(ledger.accrued_reward(0, BOB), 3);
    assert_eq!(ledger.accrued_reward(0, CAROL), 3);
    // the budget is floor(100 * 10%) = 10; what stays behind is at most stakers - 1
    let budget: u128 = 100 * 10 / 100;
    assert!(9 <= budget);
    assert!(budget - 9 <= 3 - 1);
    assert!(ledger.is_settled(0));
    assert_eq!(ledger.total_staked(0), 100);
}

#[test]
fn rewards_of_a_single_staker_use_the_whole_budget() {
    let mut bank = rich();
    let mut ledger = Ledger::new(false);
    ledger.stake(&mut bank, 0, ALICE, 99).unwrap();
    assert_eq!(ledger.accrue_reward(0, 10), Ok(9));
    assert_eq!(ledger.accrued_reward(0, ALICE), 9);
}

#[test]
fn rewards_of_a_pool_without_stakes_are_nothing() {
    let mut ledger = Ledger::new(false);
    assert_eq!(ledger.accrue_reward(4, 10), Ok(0));
    assert!(ledger.is_settled(4));
    assert_eq!(ledger.accrue_reward(4, 10), Err(Error::NotActive));
}

#[test]
fn rewards_are_given_out_once() {
    let mut bank = rich();
    let mut ledger = Ledger::new(false);
    ledger.stake(&mut bank, 0, ALICE, 100).unwrap();
    assert_eq!(ledger.accrue_reward(0, 10), Ok(10));
    let before = ledger.clone();
    assert_eq!(ledger.accrue_reward(0, 10), Err(Error::NotActive));
    assert_eq!(ledger, before);
    assert_eq!(ledger.accrued_reward(0, ALICE), 10);
    // a settled pool takes no more stakes
    assert_eq!(ledger.stake(&mut bank, 0, BOB, 5), Err(Error::NotActive));
    assert_eq!(ledger.check_stake(0, 5), Err(Error::NotActive));
    assert_eq!(ledger, before);
}

#[test]
fn a_rate_above_one_hundred_percent_does_not_overflow() {
    let mut bank = Bank::with(&[(ALICE, u64::MAX)]);
    let mut ledger = Ledger::new(false);
    ledger.stake(&mut bank, 0, ALICE, u64::MAX).unwrap();
    let expected: u128 = (u64::MAX as u128) * (u32::MAX as u128) / 100;
    assert_eq!(ledger.accrue_reward(0, u32::MAX), Ok(expected));
    assert_eq!(ledger.accrued_reward(0, ALICE), expected);
    assert_eq!(ledger.claim(0, ALICE), Ok(expected));
}

#[test]
fn the_reward_rule_rounds_down() {
    assert_eq!(PoolLogicHandler::reward(100, 10), 10);
    assert_eq!(PoolLogicHandler::reward(109, 10), 10);
    assert_eq!(PoolLogicHandler::reward(110, 10), 11);
    assert_eq!(PoolLogicHandler::reward(9, 10), 0);
    assert_eq!(PoolLogicHandler::reward(0, 10), 0);
    assert_eq!(PoolLogicHandler::reward(100, 0), 0);
    assert_eq!(PoolLogicHandler::reward(33, 50), 16);
    assert_eq!(PoolLogicHandler::reward(7, 250), 17);
    assert_eq!(
        PoolLogicHandler::reward(u64::MAX, u32::MAX),
        (u64::MAX as u128) * (u32::MAX as u128) / 100
    );
}

#[test]
fn claim_pays_the_reward_once() {
    let mut bank = rich();
    let mut ledger = Ledger::new(false);
    ledger.stake(&mut bank, 0, ALICE, 100).unwrap();
    assert_eq!(ledger.claim(0, ALICE), Err(Error::NothingToClaim));
    ledger.accrue_reward(0, 10).unwrap();
    assert_eq!(ledger.claim(0, ALICE), Ok(10));
    assert_eq!(ledger.accrued_reward(0, ALICE), 0);
    assert_eq!(ledger.staked_amount(0, ALICE), 100);
    let before = ledger.clone();
    assert_eq!(ledger.claim(0, ALICE), Err(Error::NothingToClaim));
    assert_eq!(ledger.claim(0, BOB), Err(Error::NothingToClaim));
    assert_eq!(ledger.claim(9, ALICE), Err(Error::NothingToClaim));
    assert_eq!(ledger, before);
}

#[test]
fn stakes_of_a_settled_pool_are_locked_where_the_ledger_locks() {
    let mut bank = rich();
    let mut locking = Ledger::new(true);
    locking.stake(&mut bank, 0, ALICE, 100).unwrap();
    assert_eq!(locking.unstake(&mut bank, 0, ALICE, 10), Ok(()));
    locking.accrue_reward(0, 10).unwrap();
    let before = locking.clone();
    assert_eq!(locking.unstake(&mut bank, 0, ALICE, 10), Err(Error::LockedUntilFinalize));
    assert_eq!(locking.unstake(&mut bank, 0, ALICE, 1000), Err(Error::LockedUntilFinalize));
    assert_eq!(locking.check_unstake(0, ALICE, 0), Err(Error::LockedUntilFinalize));
    assert_eq!(locking, before);

    let mut open = Ledger::new(false);
    open.stake(&mut bank, 0, ALICE, 100).unwrap();
    open.accrue_reward(0, 10).unwrap();
    assert_eq!(open.unstake(&mut bank, 0, ALICE, 10), Ok(()));
    assert_eq!(open.staked_amount(0, ALICE), 90);
    assert_eq!(open.accrued_reward(0, ALICE), 10);
}

#[test]
fn a_book_keeps_one_position_for_an_account() {
    let mut book = Book::new();
    book.credit(ALICE, 5);
    book.credit(BOB, 6);
    book.credit(ALICE, 7);
    assert_eq!(
        book.positions(),
        &vec![
            StakePosition { account: ALICE, staked_amount: 12, accrued_reward: 0 },
            StakePosition { account: BOB, staked_amount: 6, accrued_reward: 0 },
        ]
    );
    assert_eq!(book.total_staked(), 18);
    book.debit(ALICE, 2);
    assert_eq!(book.position(ALICE).staked_amount, 10);
    assert_eq!(book.position(CAROL), StakePosition { account: CAROL, staked_amount: 0, accrued_reward: 0 });
    assert_eq!(book.settle(50), 8);
    assert!(book.is_settled());
    assert_eq!(book.pay_out(ALICE), 5);
    assert_eq!(book.pay_out(ALICE), 0);
    assert_eq!(book.pay_out(BOB), 3);
    assert_eq!(book.total_staked(), 16);
}
