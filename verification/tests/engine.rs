use staking_auction::bid::{AuctionHandler, BidProtocol, Decision, Handler};
use staking_auction::currency::{CurrencyTransfer, InsufficientFunds};
use staking_auction::engine::{last_event, Auction, Engine, ExtBuilder, Pool};
use staking_auction::registry::Record;
use staking_auction::types::{
    AccountId, AuctionId, Balance, Bid, BlockNumber, Error, ErrorKind, Event, Origin,
    RejectReason, Status, ALICE, BOB,
};
use std::collections::HashMap;

/// A currency for tests: free and reserved funds by account.
#[derive(Debug, Clone, PartialEq, Default)]
struct Bank {
    free: HashMap<AccountId, Balance>,
    reserved: HashMap<AccountId, Balance>,
    calls: usize,
}

impl Bank {
    fn with(funds: &[(AccountId, Balance)]) -> Bank {
        let mut bank = Bank::default();
        for (who, amount) in funds {
            bank.free.insert(*who, *amount);
        }
        bank
    }

    fn free(&self, who: AccountId) -> Balance {
        *self.free.get(&who).unwrap_or(&0)
    }

    fn reserved(&self, who: AccountId) -> Balance {
        *self.reserved.get(&who).unwrap_or(&0)
    }
}

impl CurrencyTransfer for Bank {
    fn reserve(&mut self, who: AccountId, amount: Balance) -> Result<(), InsufficientFunds> {
        self.calls += 1;
        if self.free(who) < amount {
            return Err(InsufficientFunds);
        }
        let (free, reserved) = (self.free(who), self.reserved(who));
        self.free.insert(who, free - amount);
        self.reserved.insert(who, reserved + amount);
        Ok(())
    }

    fn release(&mut self, who: AccountId, amount: Balance) -> Result<(), InsufficientFunds> {
        self.calls += 1;
        if self.reserved(who) < amount {
            return Err(InsufficientFunds);
        }
        let (free, reserved) = (self.free(who), self.reserved(who));
        self.reserved.insert(who, reserved - amount);
        self.free.insert(who, free + amount);
        Ok(())
    }

    fn transfer(
        &mut self,
        from: AccountId,
        to: AccountId,
        amount: Balance,
    ) -> Result<(), InsufficientFunds> {
        self.calls += 1;
        if self.free(from) < amount {
            return Err(InsufficientFunds);
        }
        let left = self.free(from) - amount;
        self.free.insert(from, left);
        let got = self.free(to) + amount;
        self.free.insert(to, got);
        Ok(())
    }
}

fn rich() -> Bank {
    Bank::with(&[(ALICE, 100_000), (BOB, 100_000)])
}

/// A handler that answers as it is told, and keeps what it was told of.
struct Scripted {
    answer: Decision,
    ended: Vec<(AuctionId, Option<Bid>)>,
}

impl Scripted {
    fn answering(answer: Decision) -> Scripted {
        Scripted { answer, ended: Vec::new() }
    }
}

impl AuctionHandler for Scripted {
    fn on_new_bid(
        &self,
        _now: BlockNumber,
        _id: AuctionId,
        _new_bid: Bid,
        _last_bid: Option<Bid>,
    ) -> Decision {
        self.answer
    }

    fn on_auction_ended(&mut self, id: AuctionId, winner: Option<Bid>) {
        self.ended.push((id, winner));
    }
}

fn pool_record(id: u64, start: u64, end: u64, name: &[u8], rate: u32) -> Record<Pool> {
    Record {
        id,
        start_height: start,
        end_height: end,
        status: Status::Active,
        detail: Pool { name: name.to_vec(), reward_percentage: rate },
    }
}

#[test]
fn create_new_staking_pool_work() {
    let mut engine = ExtBuilder::default().build();
    assert_eq!(engine.create_pool(Origin::signed(BOB), 0, vec![1], 2, 3, 10, 1), Ok(0));
    assert_eq!(engine.pool(0), Ok(&pool_record(0, 2, 3, &[1], 10)));
    assert_eq!(engine.country_staking_pools(0), vec![0]);
    assert_eq!(engine.pools_ended(3), vec![0]);
    assert_eq!(last_event(&engine), Event::PoolCreated(BOB, 0));
}

#[test]
fn a_fresh_engine_is_empty() {
    let engine = ExtBuilder::default().build();
    assert_eq!(engine, Engine::new(false));
    assert_eq!(engine.pool(0), Err(Error::NotFound));
    assert_eq!(engine.auction(0), Err(Error::NotFound));
    assert_eq!(engine.pools_ended(1), Vec::<u64>::new());
    assert_eq!(engine.country_staking_pools(0), Vec::<u64>::new());
    assert_eq!(engine.event_count(), 0);
    assert_eq!(ExtBuilder::default().lock_settled(true).build(), Engine::new(true));
}

#[test]
fn create_pool_refuses_what_it_must_and_changes_nothing() {
    let mut engine = ExtBuilder::default().build();
    let fresh = engine.clone();
    assert_eq!(engine.create_pool(Origin::Root, 0, vec![1], 2, 3, 10, 1), Err(Error::Unauthorized));
    assert_eq!(
        engine.create_pool(Origin::Anonymous, 0, vec![1], 2, 3, 10, 1),
        Err(Error::Unauthorized)
    );
    assert_eq!(Error::Unauthorized.kind(), ErrorKind::Unauthorized);
    // a window that opens at or before the current height
    assert_eq!(
        engine.create_pool(Origin::signed(BOB), 0, vec![1], 0, 1, 10, 1),
        Err(Error::InvalidWindow)
    );
    assert_eq!(
        engine.create_pool(Origin::signed(BOB), 0, vec![1], 0, 10, 10, 0),
        Err(Error::InvalidWindow)
    );
    assert_eq!(
        engine.create_pool(Origin::signed(BOB), 0, vec![1], 5, 5, 10, 1),
        Err(Error::InvalidWindow)
    );
    assert_eq!(engine, fresh);
}

#[test]
fn pools_are_listed_by_country_and_by_end() {
    let mut engine = ExtBuilder::default().build();
    assert_eq!(engine.create_pool(Origin::signed(ALICE), 7, b"a".to_vec(), 2, 9, 10, 1), Ok(0));
    assert_eq!(engine.create_pool(Origin::signed(BOB), 8, b"b".to_vec(), 2, 9, 20, 1), Ok(1));
    assert_eq!(engine.create_pool(Origin::signed(BOB), 7, b"c".to_vec(), 3, 5, 30, 1), Ok(2));
    assert_eq!(engine.country_staking_pools(7), vec![0, 2]);
    assert_eq!(engine.country_staking_pools(8), vec![1]);
    assert_eq!(engine.pools_ended(9), vec![0, 1]);
    assert_eq!(engine.pools_ended(5), vec![2]);
    assert_eq!(
        engine.take_events(),
        vec![Event::PoolCreated(ALICE, 0), Event::PoolCreated(BOB, 1), Event::PoolCreated(BOB, 2)]
    );
    assert_eq!(engine.event_count(), 0);
    assert_eq!(engine.pool(2), Ok(&pool_record(2, 3, 5, b"c", 30)));
}

#[test]
fn scenario_pool_stake_tick_claim() {
    let mut bank = rich();
    let mut handler = Handler;
    let mut engine = ExtBuilder::default().build();
    let south = engine.create_pool(Origin::signed(BOB), 0, b"south".to_vec(), 1, 10, 10, 0).unwrap();
    assert_eq!(engine.stake(&mut bank, Origin::signed(ALICE), south, 100), Ok(()));
    assert_eq!(last_event(&engine), Event::Staked(south, ALICE, 100));
    assert_eq!(bank.reserved(ALICE), 100);

    let settled = engine.tick(&mut handler, 10);
    assert_eq!(settled.pools, vec![south]);
    assert_eq!(settled.auctions, Vec::<u64>::new());
    assert_eq!(engine.accrued_reward(south, ALICE), 10);

    assert_eq!(engine.claim(Origin::signed(ALICE), south), Ok(10));
    assert_eq!(last_event(&engine), Event::Claimed(south, ALICE, 10));
    assert_eq!(engine.accrued_reward(south, ALICE), 0);
    let before = engine.clone();
    assert_eq!(engine.claim(Origin::signed(ALICE), south), Err(Error::NothingToClaim));
    assert_eq!(engine, before);
}

#[test]
fn scenario_auction_bids_and_extensions() {
    let mut bank = rich();
    let handler = BidProtocol;
    let mut engine = ExtBuilder::default().build();
    let a = engine.create_auction(Origin::signed(BOB), 1, 100, 5, 0).unwrap();
    assert_eq!(engine.auctions_ended(100), vec![a]);

    // alice bids 50 at height 97: taken, the end becomes 102
    assert_eq!(engine.place_bid(&handler, &mut bank, Origin::signed(ALICE), a, 50, 97), Ok(()));
    let record = engine.auction(a).unwrap();
    assert_eq!(record.end_height, 102);
    assert_eq!(record.detail.current_leader, Some(Bid { bidder: ALICE, amount: 50 }));
    assert_eq!(engine.auctions_ended(100), Vec::<u64>::new());
    assert_eq!(engine.auctions_ended(102), vec![a]);
    assert_eq!(last_event(&engine), Event::BidAccepted(a, ALICE, 50));
    assert_eq!(bank.reserved(ALICE), 50);

    // bob bids 40 at height 98: turned down, the leader stays
    let mut before = engine.clone();
    let bank_before = bank.clone();
    assert_eq!(
        engine.place_bid(&handler, &mut bank, Origin::signed(BOB), a, 40, 98),
        Err(Error::BidRejected(RejectReason::TooLow))
    );
    assert_eq!(last_event(&engine), Event::BidRejected(a, BOB, RejectReason::TooLow));
    assert_eq!(engine.auction(a), before.auction(a));
    assert_eq!(bank, bank_before);
    let mut after = engine.clone();
    let _ = after.take_events();
    let _ = before.take_events();
    assert_eq!(after, before);

    // bob bids 60 at height 99: taken, alice gets her 50 back, the end becomes 104
    assert_eq!(engine.place_bid(&handler, &mut bank, Origin::signed(BOB), a, 60, 99), Ok(()));
    let record = engine.auction(a).unwrap();
    assert_eq!(record.end_height, 104);
    assert_eq!(record.detail.current_leader, Some(Bid { bidder: BOB, amount: 60 }));
    assert_eq!(record.detail.closing_window, 5);
    assert_eq!(bank.reserved(ALICE), 0);
    assert_eq!(bank.free(ALICE), 100_000);
    assert_eq!(bank.reserved(BOB), 60);
    assert_eq!(engine.auctions_ended(102), Vec::<u64>::new());
    assert_eq!(engine.auctions_ended(104), vec![a]);
}

#[test]
fn scenario_ids_exhausted() {
    // a registry that has handed out every identifier but the last
    let mut pools: staking_auction::registry::Registry<Pool> =
        staking_auction::registry::Registry::starting_at(u64::MAX);
    let before = pools.clone();
    let r = pools.create(0, 1, 10, Pool { name: b"p".to_vec(), reward_percentage: 10 });
    assert_eq!(r, Err(Error::Exhausted));
    assert_eq!(r.unwrap_err().kind(), ErrorKind::ResourceExhausted);
    assert_eq!(pools, before);
}

#[test]
fn scenario_unstake_more_than_staked() {
    let mut bank = rich();
    let mut engine = ExtBuilder::default().build();
    let south = engine.create_pool(Origin::signed(BOB), 0, b"south".to_vec(), 1, 10, 10, 0).unwrap();
    engine.stake(&mut bank, Origin::signed(ALICE), south, 100).unwrap();
    let before = engine.clone();
    let bank_before = bank.clone();
    assert_eq!(
        engine.unstake(&mut bank, Origin::signed(ALICE), south, 150),
        Err(Error::InsufficientStake)
    );
    assert_eq!(engine, before);
    assert_eq!(bank, bank_before);
    assert_eq!(engine.staked_amount(south, ALICE), 100);
    assert_eq!(engine.total_staked(south), 100);
    assert_eq!(engine.unstake(&mut bank, Origin::signed(ALICE), south, 100), Ok(()));
    assert_eq!(last_event(&engine), Event::Unstaked(south, ALICE, 100));
    assert_eq!(engine.staked_amount(south, ALICE), 0);
    assert_eq!(bank.reserved(ALICE), 0);
}

#[test]
fn stake_refuses_what_it_must_and_changes_nothing() {
    let mut bank = rich();
    let mut engine = ExtBuilder::default().build();
    let south = engine.create_pool(Origin::signed(BOB), 0, b"south".to_vec(), 1, 10, 10, 0).unwrap();
    let before = engine.clone();
    assert_eq!(engine.stake(&mut bank, Origin::Root, south, 100), Err(Error::Unauthorized));
    assert_eq!(engine.stake(&mut bank, Origin::signed(ALICE), south + 1, 100), Err(Error::NotFound));
    assert_eq!(engine.stake(&mut bank, Origin::signed(ALICE), south, 0), Err(Error::ZeroAmount));
    assert_eq!(bank.calls, 0);
    assert_eq!(
        engine.stake(&mut bank, Origin::signed(ALICE), south, 100_001),
        Err(Error::InsufficientFunds)
    );
    assert_eq!(engine, before);
    assert_eq!(engine.unstake(&mut bank, Origin::Anonymous, south, 0), Err(Error::Unauthorized));
    assert_eq!(engine.claim(Origin::Root, south), Err(Error::Unauthorized));
    assert_eq!(engine, before);
}

#[test]
fn a_settled_pool_takes_no_stakes() {
    let mut bank = rich();
    let mut handler = Handler;
    let mut engine = ExtBuilder::default().build();
    let south = engine.create_pool(Origin::signed(BOB), 0, b"south".to_vec(), 1, 10, 10, 0).unwrap();
    engine.stake(&mut bank, Origin::signed(ALICE), south, 100).unwrap();
    engine.tick(&mut handler, 10);
    assert_eq!(engine.stake(&mut bank, Origin::signed(ALICE), south, 1), Err(Error::NotFound));
    // stakes can be taken back where the engine does not lock settled pools
    assert_eq!(engine.unstake(&mut bank, Origin::signed(ALICE), south, 100), Ok(()));
    assert_eq!(engine.accrued_reward(south, ALICE), 10);
}

#[test]
fn a_locking_engine_keeps_the_stakes_of_settled_pools() {
    let mut bank = rich();
    let mut handler = Handler;
    let mut engine = ExtBuilder::default().lock_settled(true).build();
    let south = engine.create_pool(Origin::signed(BOB), 0, b"south".to_vec(), 1, 10, 10, 0).unwrap();
    engine.stake(&mut bank, Origin::signed(ALICE), south, 100).unwrap();
    assert_eq!(engine.unstake(&mut bank, Origin::signed(ALICE), south, 1), Ok(()));
    engine.tick(&mut handler, 10);
    let before = engine.clone();
    assert_eq!(
        engine.unstake(&mut bank, Origin::signed(ALICE), south, 1),
        Err(Error::LockedUntilFinalize)
    );
    assert_eq!(engine, before);
    assert_eq!(engine.claim(Origin::signed(ALICE), south), Ok(9));
}

#[test]
fn tick_empties_the_bucket_and_retires_what_was_due() {
    let mut bank = rich();
    let mut handler = Scripted::answering(Decision { accept: true, new_end: None });
    let mut engine = ExtBuilder::default().build();
    let north = engine.create_pool(Origin::signed(BOB), 0, b"north".to_vec(), 1, 10, 10, 0).unwrap();
    let south = engine.create_pool(Origin::signed(BOB), 0, b"south".to_vec(), 1, 11, 50, 0).unwrap();
    let west = engine.create_pool(Origin::signed(BOB), 0, b"west".to_vec(), 1, 10, 25, 0).unwrap();
    let a0 = engine.create_auction(Origin::signed(BOB), 1, 10, 2, 0).unwrap();
    let a1 = engine.create_auction(Origin::signed(BOB), 1, 10, 2, 0).unwrap();
    let a2 = engine.create_auction(Origin::signed(BOB), 1, 12, 2, 0).unwrap();
    engine.stake(&mut bank, Origin::signed(ALICE), north, 55).unwrap();
    engine.stake(&mut bank, Origin::signed(BOB), west, 10).unwrap();
    engine.stake(&mut bank, Origin::signed(ALICE), south, 3).unwrap();
    engine.place_bid(&handler, &mut bank, Origin::signed(ALICE), a1, 70, 5).unwrap();
    let _ = engine.take_events();

    let settled = engine.tick(&mut handler, 10);
    assert_eq!(settled.pools, vec![north, west]);
    assert_eq!(settled.auctions, vec![a0, a1]);
    assert_eq!(engine.pools_ended(10), Vec::<u64>::new());
    assert_eq!(engine.auctions_ended(10), Vec::<u64>::new());
    assert_eq!(engine.pool(north), Err(Error::NotFound));
    assert_eq!(engine.pool(west), Err(Error::NotFound));
    assert_eq!(engine.auction(a0), Err(Error::NotFound));
    assert_eq!(engine.auction(a1), Err(Error::NotFound));
    assert_eq!(engine.pool(south).unwrap().status, Status::Active);
    assert_eq!(engine.auction(a2).unwrap().status, Status::Active);
    assert_eq!(engine.pools_ended(11), vec![south]);
    assert_eq!(engine.auctions_ended(12), vec![a2]);
    assert_eq!(engine.accrued_reward(north, ALICE), 5);
    assert_eq!(engine.accrued_reward(west, BOB), 2);
    assert_eq!(engine.accrued_reward(south, ALICE), 0);
    let winner = Some(Bid { bidder: ALICE, amount: 70 });
    assert_eq!(handler.ended, vec![(a0, None), (a1, winner)]);
    assert_eq!(
        engine.take_events(),
        vec![Event::AuctionFinalized(a0, None), Event::AuctionFinalized(a1, winner)]
    );

    // a second tick of the same height finds nothing
    let before = engine.clone();
    let again = engine.tick(&mut handler, 10);
    assert_eq!(again.pools, Vec::<u64>::new());
    assert_eq!(again.auctions, Vec::<u64>::new());
    assert_eq!(engine, before);
    assert_eq!(handler.ended.len(), 2);
}

#[test]
fn every_active_entity_stands_in_exactly_one_bucket() {
    let mut bank = rich();
    let handler = BidProtocol;
    let mut engine = ExtBuilder::default().build();
    let mut auctions: Vec<u64> = Vec::new();
    for k in 0..6u64 {
        auctions.push(engine.create_auction(Origin::signed(BOB), 1, 20 + k % 3, 4, 0).unwrap());
    }
    engine.place_bid(&handler, &mut bank, Origin::signed(ALICE), auctions[1], 10, 19).unwrap();
    engine.place_bid(&handler, &mut bank, Origin::signed(BOB), auctions[1], 11, 22).unwrap();
    engine.place_bid(&handler, &mut bank, Origin::signed(ALICE), auctions[5], 10, 21).unwrap();
    for id in auctions {
        let end = engine.auction(id).unwrap().end_height;
        let mut found = 0;
        for h in 0..40u64 {
            if engine.auctions_ended(h).contains(&id) {
                assert_eq!(h, end);
                found += 1;
            }
        }
        assert_eq!(found, 1);
    }
    assert_eq!(engine.auction(1).unwrap().end_height, 26);
    assert_eq!(engine.auction(5).unwrap().end_height, 25);
}

#[test]
fn the_stub_handler_declines_the_bids_of_bob() {
    let mut bank = rich();
    let handler = Handler;
    let mut engine = ExtBuilder::default().build();
    let a = engine.create_auction(Origin::signed(BOB), 1, 100, 5, 0).unwrap();
    assert_eq!(
        engine.place_bid(&handler, &mut bank, Origin::signed(BOB), a, 40, 50),
        Err(Error::BidRejected(RejectReason::Declined))
    );
    assert_eq!(last_event(&engine), Event::BidRejected(a, BOB, RejectReason::Declined));
    assert_eq!(engine.auction(a).unwrap().detail, Auction { closing_window: 5, current_leader: None });
    assert_eq!(bank.calls, 0);
    assert_eq!(engine.place_bid(&handler, &mut bank, Origin::signed(ALICE), a, 40, 50), Ok(()));
    assert_eq!(engine.auction(a).unwrap().end_height, 100);
}

#[test]
fn place_bid_refuses_what_it_must() {
    let mut bank = rich();
    let handler = BidProtocol;
    let mut engine = ExtBuilder::default().build();
    let a = engine.create_auction(Origin::signed(BOB), 1, 100, 5, 0).unwrap();
    let before = engine.clone();
    assert_eq!(
        engine.place_bid(&handler, &mut bank, Origin::Root, a, 40, 50),
        Err(Error::Unauthorized)
    );
    assert_eq!(
        engine.place_bid(&handler, &mut bank, Origin::signed(ALICE), a + 1, 40, 50),
        Err(Error::NotFound)
    );
    assert_eq!(
        engine.place_bid(&handler, &mut bank, Origin::signed(ALICE), a, 100_001, 50),
        Err(Error::InsufficientFunds)
    );
    assert_eq!(engine, before);
    assert_eq!(
        engine.place_bid(&handler, &mut bank, Origin::signed(ALICE), a, 40, 100),
        Err(Error::BidRejected(RejectReason::Closed))
    );
    assert_eq!(last_event(&engine), Event::BidRejected(a, ALICE, RejectReason::Closed));
    // the one call of the currency was the reservation that failed
    assert_eq!(bank.calls, 1);
    assert_eq!(bank.free, rich().free);
    assert_eq!(bank.reserved, rich().reserved);
}

#[test]
fn a_handler_cannot_move_the_end_backwards() {
    let mut bank = rich();
    let mut engine = ExtBuilder::default().build();
    let a = engine.create_auction(Origin::signed(BOB), 1, 100, 5, 0).unwrap();
    let earlier = Scripted::answering(Decision { accept: true, new_end: Some(99) });
    let before = engine.clone();
    assert_eq!(
        engine.place_bid(&earlier, &mut bank, Origin::signed(ALICE), a, 40, 50),
        Err(Error::MonotonicityViolation)
    );
    assert_eq!(engine, before);
    assert_eq!(bank.calls, 0);
    let later = Scripted::answering(Decision { accept: true, new_end: Some(300) });
    assert_eq!(engine.place_bid(&later, &mut bank, Origin::signed(ALICE), a, 40, 50), Ok(()));
    assert_eq!(engine.auction(a).unwrap().end_height, 300);
    assert_eq!(engine.auctions_ended(300), vec![a]);
    assert_eq!(engine.auctions_ended(100), Vec::<u64>::new());
}

#[test]
fn a_bid_is_not_taken_when_the_previous_leader_cannot_be_released() {
    let mut bank = rich();
    let handler = BidProtocol;
    let mut engine = ExtBuilder::default().build();
    let a = engine.create_auction(Origin::signed(BOB), 1, 100, 5, 0).unwrap();
    engine.place_bid(&handler, &mut bank, Origin::signed(ALICE), a, 40, 50).unwrap();
    // another currency, which holds nothing in reserve for alice
    let mut other = Bank::with(&[(BOB, 1_000)]);
    let before = engine.clone();
    assert_eq!(
        engine.place_bid(&handler, &mut other, Origin::signed(BOB), a, 60, 51),
        Err(Error::InsufficientFunds)
    );
    assert_eq!(engine, before);
    assert_eq!(other.reserved(BOB), 0);
    assert_eq!(other.free(BOB), 1_000);
    assert_eq!(engine.settle_bid(BOB, a, 60, 100, false), Err(Error::InsufficientFunds));
    assert_eq!(engine, before);
}

#[test]
fn the_previous_leader_stays_reserved_when_the_bidder_cannot_pay() {
    let mut bank = Bank::with(&[(ALICE, 100), (BOB, 59)]);
    let handler = BidProtocol;
    let mut engine = ExtBuilder::default().build();
    let a = engine.create_auction(Origin::signed(BOB), 1, 100, 5, 0).unwrap();
    engine.place_bid(&handler, &mut bank, Origin::signed(ALICE), a, 40, 50).unwrap();
    let before = engine.clone();
    assert_eq!(
        engine.place_bid(&handler, &mut bank, Origin::signed(BOB), a, 60, 51),
        Err(Error::InsufficientFunds)
    );
    assert_eq!(engine, before);
    assert_eq!(bank.reserved(ALICE), 40);
    assert_eq!(bank.free(ALICE), 60);
    assert_eq!(bank.reserved(BOB), 0);
    assert_eq!(bank.free(BOB), 59);
    // a leader may outbid itself with the funds that are released
    assert_eq!(engine.place_bid(&handler, &mut bank, Origin::signed(ALICE), a, 100, 52), Ok(()));
    assert_eq!(bank.reserved(ALICE), 100);
    assert_eq!(bank.free(ALICE), 0);
}

#[test]
fn judge_and_settle_a_bid_by_hand() {
    let mut engine = ExtBuilder::default().build();
    let a = engine.create_auction(Origin::signed(BOB), 1, 100, 5, 0).unwrap();
    let yes = Decision { accept: true, new_end: None };
    let no = Decision { accept: false, new_end: None };
    assert_eq!(engine.judge_bid(ALICE, a, 50, 97, yes), Ok(102));
    assert_eq!(engine.event_count(), 0);
    assert_eq!(
        engine.judge_bid(ALICE, a, 50, 97, no),
        Err(Error::BidRejected(RejectReason::Declined))
    );
    assert_eq!(engine.event_count(), 1);
    assert_eq!(engine.settle_bid(ALICE, a, 50, 102, true), Ok(()));
    assert_eq!(engine.auction(a).unwrap().end_height, 102);
    assert_eq!(last_event(&engine), Event::BidAccepted(a, ALICE, 50));
}
