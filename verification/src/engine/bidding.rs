//! Auctions and bids: creating an auction, and placing a bid on it.

use vstd::prelude::*;
use crate::bid::{accepts, reject_reason, resolve, verdict, AuctionHandler, BidProtocol, Decision};
use crate::currency::CurrencyTransfer;
use crate::engine::{Auction, Engine};
use crate::registry::Record;
use crate::types::{
    ensure_signed, signer, AccountId, AuctionId, Balance, Bid, BlockNumber, Error, Event, Origin,
    Status,
};

verus! {

impl Engine {
    /// The failure of `create_auction`, if it fails.
    pub open spec fn create_auction_error(
        &self,
        origin: Origin,
        start: BlockNumber,
        end: BlockNumber,
        now: BlockNumber,
    ) -> Option<Error> {
        if signer(origin) is None {
            Some(Error::Unauthorized)
        } else {
            self.auctions().create_error(now, start, end)
        }
    }

    /// Creates an auction for the signer of `origin`: registers it as active
    /// under a fresh identifier with the window `start..end` and without a
    /// leader, and schedules it at `end`. Returns the identifier. An origin
    /// that is not signed, a window without `now < start < end` and the
    /// exhaustion of identifiers are refused, and a refusal changes nothing.
    pub fn create_auction(
        &mut self,
        origin: Origin,
        start: BlockNumber,
        end: BlockNumber,
        closing_window: BlockNumber,
        now: BlockNumber,
    ) -> (r: Result<AuctionId, Error>)
        requires
            old(self).wf(),
        ensures
            final(self).wf(),
            match old(self).create_auction_error(origin, start, end, now) {
                Some(e) => r == Err::<AuctionId, Error>(e) && *final(self) == *old(self),
                None => {
                    let id = old(self).auctions().next_id();
                    &&& r == Ok::<AuctionId, Error>(id)
                    &&& final(self).auctions().next_id() == id + 1
                    &&& final(self).auctions()@ == old(self).auctions()@.insert(
                        id,
                        (Record {
                            id,
                            start_height: start,
                            end_height: end,
                            status: Status::Active,
                            detail: (Auction { closing_window, current_leader: None }),
                        }),
                    )
                    &&& final(self).auction_expiry()@ == old(self).auction_expiry()@.insert(
                        id,
                        end,
                    )
                    &&& final(self).events() == old(self).events()
                    &&& final(self).pools() == old(self).pools()
                    &&& final(self).pool_expiry() == old(self).pool_expiry()
                    &&& final(self).ledger() == old(self).ledger()
                    &&& final(self).country_pools() == old(self).country_pools()
                },
            },
    {
        match ensure_signed(origin) {
            Ok(_) => {},
            Err(e) => { return Err(e); },
        }
        proof {
            self.lemma_parts();
            self.auctions.lemma_wf();
        }
        match self.auctions.create(now, start, end, Auction { closing_window, current_leader: None }) {
            Err(e) => Err(e),
            Ok(id) => {
                proof {
                    assert(!crate::registry::active_in(old(self).auctions@, id));
                    assert(!old(self).auction_expiry@.contains_key(id));
                }
                let _ = self.auction_expiry.insert(end, id);
                proof {
                    self.lemma_parts();
                    old(self).lemma_parts();
                }
                Ok(id)
            },
        }
    }

    /// The bid of `who` over `amount`.
    pub open spec fn bid_of(who: AccountId, amount: Balance) -> Bid {
        Bid { bidder: who, amount }
    }

    /// The failure of a bid, if it fails before the handler is asked: the
    /// origin is not signed, the auction is unknown or not active, or the
    /// protocol turns the bid down.
    pub open spec fn bid_refusal(
        &self,
        origin: Origin,
        id: AuctionId,
        amount: Balance,
        now: BlockNumber,
    ) -> Option<Error> {
        match signer(origin) {
            None => Some(Error::Unauthorized),
            Some(who) => if self.auctions().active_error(id) is Some {
                self.auctions().active_error(id)
            } else {
                let record = self.auctions()@[id];
                if !accepts(
                    now,
                    record.detail.current_leader,
                    Self::bid_of(who, amount),
                    record.end_height,
                ) {
                    Some(
                        Error::BidRejected(
                            reject_reason(
                                now,
                                record.detail.current_leader,
                                Self::bid_of(who, amount),
                                record.end_height,
                            ),
                        ),
                    )
                } else {
                    None
                }
            },
        }
    }

    /// The engine after a bid was turned down for `reason`: as before, with
    /// one more notification.
    pub open spec fn bid_rejected(
        &self,
        after: &Engine,
        who: AccountId,
        id: AuctionId,
        reason: crate::types::RejectReason,
    ) -> bool {
        &&& after.same_core(self)
        &&& after.events() == self.events().push(Event::BidRejected(id, who, reason))
    }

    /// The engine after the bid of `who` over `amount` was taken and the end
    /// of the auction set to `new_end`.
    pub open spec fn bid_accepted(
        &self,
        after: &Engine,
        who: AccountId,
        id: AuctionId,
        amount: Balance,
        new_end: BlockNumber,
    ) -> bool {
        let record = self.auctions()@[id];
        &&& after.auctions()@ == self.auctions()@.insert(
            id,
            (Record {
                end_height: new_end,
                detail: (Auction {
                    current_leader: Some(Self::bid_of(who, amount)),
                    ..record.detail
                }),
                ..record
            }),
        )
        &&& after.auctions().next_id() == self.auctions().next_id()
        &&& after.auction_expiry()@ == self.auction_expiry()@.insert(id, new_end)
        &&& after.events() == self.events().push(Event::BidAccepted(id, who, amount))
        &&& after.pools() == self.pools()
        &&& after.pool_expiry() == self.pool_expiry()
        &&& after.ledger() == self.ledger()
        &&& after.country_pools() == self.country_pools()
    }

    /// What a bid on an active auction comes to, given the handler's answer
    /// `handler` and whether the currency moved the funds. A bid that is
    /// turned down leaves all but the notifications as they were; a proposal
    /// to move the end backwards and a refusal of the currency leave the
    /// engine as it was; a bid that is taken becomes the leading bid, and the
    /// auction moves to the bucket of its new end.
    pub open spec fn bid_outcome(
        &self,
        after: &Engine,
        who: AccountId,
        id: AuctionId,
        amount: Balance,
        now: BlockNumber,
        handler: Decision,
        funds: bool,
        r: Result<(), Error>,
    ) -> bool {
        let record = self.auctions()@[id];
        match verdict(
            now,
            record.detail.current_leader,
            Self::bid_of(who, amount),
            record.end_height,
            record.detail.closing_window,
            handler,
        ) {
            Err(reason) => r == Err::<(), Error>(Error::BidRejected(reason)) && self.bid_rejected(
                after,
                who,
                id,
                reason,
            ),
            Ok(new_end) => if new_end < record.end_height {
                r == Err::<(), Error>(Error::MonotonicityViolation) && *after == *self
            } else if !funds {
                r == Err::<(), Error>(Error::InsufficientFunds) && *after == *self
            } else {
                r == Ok::<(), Error>(()) && self.bid_accepted(after, who, id, amount, new_end)
            },
        }
    }

    /// Judges the bid of `who` over `amount` on the active auction `id`,
    /// given the handler's answer. Returns the end height that the auction
    /// gets if the bid goes through. A bid that is turned down is notified as
    /// `BidRejected`; a proposal to move the end backwards is refused.
    /// Nothing but the notifications changes.
    pub fn judge_bid(
        &mut self,
        who: AccountId,
        id: AuctionId,
        amount: Balance,
        now: BlockNumber,
        handler: Decision,
    ) -> (r: Result<BlockNumber, Error>)
        requires
            old(self).wf(),
            old(self).auctions().is_active(id),
        ensures
            final(self).wf(),
            ({
                let record = old(self).auctions()@[id];
                match verdict(
                    now,
                    record.detail.current_leader,
                    Self::bid_of(who, amount),
                    record.end_height,
                    record.detail.closing_window,
                    handler,
                ) {
                    Err(reason) => r == Err::<BlockNumber, Error>(Error::BidRejected(reason))
                        && old(self).bid_rejected(final(self), who, id, reason),
                    Ok(new_end) => *final(self) == *old(self) && r == if new_end
                        < record.end_height {
                        Err::<BlockNumber, Error>(Error::MonotonicityViolation)
                    } else {
                        Ok::<BlockNumber, Error>(new_end)
                    },
                }
            }),
    {
        proof {
            self.lemma_parts();
        }
        let (leader, end, window) = match self.auctions.get(id) {
            Ok(record) => (
                record.detail.current_leader,
                record.end_height,
                record.detail.closing_window,
            ),
            Err(_) => (None, 0, 0),
        };
        match resolve(now, leader, Bid { bidder: who, amount }, end, window, handler) {
            Err(reason) => {
                self.events.push(Event::BidRejected(id, who, reason));
                proof {
                    self.lemma_parts();
                }
                Err(Error::BidRejected(reason))
            },
            Ok(new_end) => {
                if new_end < end {
                    Err(Error::MonotonicityViolation)
                } else {
                    Ok(new_end)
                }
            },
        }
    }

    /// Finishes a bid that went through, once the currency has answered.
    /// Where the funds were moved, the bid becomes the leading bid, the
    /// auction ends at `new_end` and stands in the bucket of that height, and
    /// `BidAccepted` is notified. Where they were not, the failure is
    /// `InsufficientFunds` and the engine stays as it was.
    pub fn settle_bid(
        &mut self,
        who: AccountId,
        id: AuctionId,
        amount: Balance,
        new_end: BlockNumber,
        funds: bool,
    ) -> (r: Result<(), Error>)
        requires
            old(self).wf(),
            old(self).auctions().is_active(id),
            new_end >= old(self).auctions()@[id].end_height,
        ensures
            final(self).wf(),
            !funds ==> r == Err::<(), Error>(Error::InsufficientFunds) && *final(self) == *old(self),
            funds ==> r == Ok::<(), Error>(()) && old(self).bid_accepted(
                final(self),
                who,
                id,
                amount,
                new_end,
            ),
            final(self).auctions()@[id].end_height >= old(self).auctions()@[id].end_height,
    {
        if !funds {
            return Err(Error::InsufficientFunds);
        }
        proof {
            self.lemma_parts();
            assert(crate::registry::active_in(self.auctions@, id));
            assert(self.auction_expiry@.contains_key(id));
        }
        let (end, window) = match self.auctions.get(id) {
            Ok(record) => (record.end_height, record.detail.closing_window),
            Err(_) => (0, 0),
        };
        let leading = Auction {
            closing_window: window,
            current_leader: Some(Bid { bidder: who, amount }),
        };
        let _ = self.auctions.replace_detail(id, leading);
        let _ = self.auctions.update_end(id, new_end);
        let _ = self.auction_expiry.relocate(id, end, new_end);
        self.events.push(Event::BidAccepted(id, who, amount));
        proof {
            self.lemma_parts();
            old(self).lemma_parts();
            let record = old(self).auctions@[id];
            assert(self.auctions@ =~= old(self).auctions@.insert(
                id,
                (Record {
                    end_height: new_end,
                    detail: (Auction {
                        current_leader: Some(Self::bid_of(who, amount)),
                        ..record.detail
                    }),
                    ..record
                }),
            ));
            assert forall|a: u64|
                #![trigger crate::registry::active_in(self.auctions@, a)]
                #![trigger self.auction_expiry@.contains_key(a)]
                {
                    &&& crate::registry::active_in(self.auctions@, a)
                        <==> self.auction_expiry@.contains_key(a)
                    &&& self.auction_expiry@.contains_key(a) ==> self.auction_expiry@[a]
                        == self.auctions@[a].end_height
                } by {
                if a != id {
                    assert(crate::registry::active_in(old(self).auctions@, a)
                        <==> old(self).auction_expiry@.contains_key(a));
                }
            }
        }
        Ok(())
    }

    /// Places the bid of the signer of `origin` over `amount` on auction
    /// `id` at height `now`.
    ///
    /// Refused at once, with the currency and all but the notifications as
    /// they were: an origin that is not signed, an auction that is unknown or
    /// not active, and a bid that the protocol turns down, which is also
    /// notified as `BidRejected`. Otherwise the handler is asked, and its
    /// answer decides as `bid_outcome` says. Where the bid goes through, the
    /// currency releases the funds of the previous leader and sets those of
    /// the bidder aside before anything is changed; where it refuses either,
    /// the failure is `InsufficientFunds`, the previous leader's funds are
    /// set aside as before, and the engine stays as it was.
    pub fn place_bid<H: AuctionHandler, C: CurrencyTransfer>(
        &mut self,
        handler: &H,
        currency: &mut C,
        origin: Origin,
        id: AuctionId,
        amount: Balance,
        now: BlockNumber,
    ) -> (r: Result<(), Error>)
        requires
            old(self).wf(),
        ensures
            final(self).wf(),
            match old(self).bid_refusal(origin, id, amount, now) {
                Some(e) => {
                    &&& r == Err::<(), Error>(e)
                    &&& *final(currency) == *old(currency)
                    &&& match e {
                        Error::BidRejected(reason) => old(self).bid_rejected(
                            final(self),
                            signer(origin)->Some_0,
                            id,
                            reason,
                        ),
                        _ => *final(self) == *old(self),
                    }
                },
                None => exists|answer: Decision, funds: bool|
                    old(self).bid_outcome(
                        final(self),
                        signer(origin)->Some_0,
                        id,
                        amount,
                        now,
                        answer,
                        funds,
                        r,
                    ),
            },
            old(self).auctions()@.contains_key(id) ==> final(self).auctions()@.contains_key(id)
                && final(self).auctions()@[id].end_height >= old(self).auctions()@[id].end_height,
    {
        let who = match ensure_signed(origin) {
            Ok(who) => who,
            Err(e) => { return Err(e); },
        };
        proof {
            self.lemma_parts();
        }
        let (leader, end) = match self.auctions.get(id) {
            Err(e) => { return Err(e); },
            Ok(record) => {
                if !matches!(record.status, Status::Active) {
                    return Err(Error::NotActive);
                }
                (record.detail.current_leader, record.end_height)
            },
        };
        let bid = Bid { bidder: who, amount };
        let admitted = BidProtocol::admits(now, leader, bid, end);
        let answer = if admitted {
            handler.on_new_bid(now, id, bid, leader)
        } else {
            Decision { accept: false, new_end: None }
        };
        match self.judge_bid(who, id, amount, now, answer) {
            Err(e) => {
                proof {
                    if admitted {
                        assert(old(self).bid_outcome(
                            self,
                            who,
                            id,
                            amount,
                            now,
                            answer,
                            false,
                            Err::<(), Error>(e),
                        ));
                    }
                }
                Err(e)
            },
            Ok(new_end) => {
                let released = match leader {
                    None => true,
                    Some(previous) => currency.release(previous.bidder, previous.amount).is_ok(),
                };
                let funds = if !released {
                    false
                } else if currency.reserve(who, amount).is_ok() {
                    true
                } else {
                    // the bid does not go through: the previous leader's funds are set aside again
                    match leader {
                        None => {},
                        Some(previous) => {
                            let _ = currency.reserve(previous.bidder, previous.amount);
                        },
                    }
                    false
                };
                let r = self.settle_bid(who, id, amount, new_end, funds);
                proof {
                    assert(old(self).bid_outcome(self, who, id, amount, now, answer, funds, r));
                }
                r
            },
        }
    }
}

} // verus!
