//! The bid protocol: which bids an auction takes, and when a bid moves the
//! auction's end.

use vstd::prelude::*;
use crate::types::{AuctionId, Bid, BlockNumber, RejectReason, ALICE};

verus! {

/// The answer to a bid.
#[derive(Debug, Clone, Copy, PartialEq, Eq, Structural)]
pub struct Decision {
    /// Whether the bid is taken.
    pub accept: bool,
    /// The new end height of the auction, where the bid moves it.
    pub new_end: Option<BlockNumber>,
}

/// Whether the protocol takes a bid: the auction has not reached its end, and
/// the bid exceeds the leading bid where there is one.
pub open spec fn accepts(
    now: BlockNumber,
    last_bid: Option<Bid>,
    proposed_bid: Bid,
    end_height: BlockNumber,
) -> bool {
    now < end_height && match last_bid {
        Some(last) => proposed_bid.amount > last.amount,
        None => true,
    }
}

/// The end height that a bid taken at `now` asks for: `closing_window` past
/// `now`, and the greatest height where that would leave the range.
pub open spec fn extended_end(now: BlockNumber, closing_window: BlockNumber) -> BlockNumber {
    if now + closing_window > BlockNumber::MAX {
        BlockNumber::MAX
    } else {
        (now + closing_window) as BlockNumber
    }
}

/// The protocol's answer to a bid. A bid that is taken within the closing
/// window of the end moves the end to `closing_window` past `now`.
pub open spec fn decision(
    now: BlockNumber,
    last_bid: Option<Bid>,
    proposed_bid: Bid,
    end_height: BlockNumber,
    closing_window: BlockNumber,
) -> Decision {
    if accepts(now, last_bid, proposed_bid, end_height) {
        Decision {
            accept: true,
            new_end: if end_height - now <= closing_window {
                Some(extended_end(now, closing_window))
            } else {
                None
            },
        }
    } else {
        Decision { accept: false, new_end: None }
    }
}

/// Why the protocol turns a bid down, where it does.
pub open spec fn reject_reason(
    now: BlockNumber,
    last_bid: Option<Bid>,
    proposed_bid: Bid,
    end_height: BlockNumber,
) -> RejectReason {
    if now >= end_height {
        RejectReason::Closed
    } else {
        RejectReason::TooLow
    }
}

/// An extension never moves the end backwards: where the protocol proposes a
/// new end, it is not before the current one.
pub proof fn lemma_extension_not_earlier(
    now: BlockNumber,
    last_bid: Option<Bid>,
    proposed_bid: Bid,
    end_height: BlockNumber,
    closing_window: BlockNumber,
)
    ensures
        match decision(now, last_bid, proposed_bid, end_height, closing_window).new_end {
            Some(e) => e >= end_height && e > now,
            None => true,
        },
{
}

/// The protocol by which bids are judged.
#[derive(Debug, Clone, Copy, PartialEq, Eq, Structural)]
pub struct BidProtocol;

impl BidProtocol {
    /// Judges the bid `proposed_bid` made at `now` on an auction that ends at
    /// `end_height` and whose leading bid is `last_bid`.
    pub fn evaluate(
        now: BlockNumber,
        last_bid: Option<Bid>,
        proposed_bid: Bid,
        end_height: BlockNumber,
        closing_window: BlockNumber,
    ) -> (d: Decision)
        ensures
            d == decision(now, last_bid, proposed_bid, end_height, closing_window),
    {
        if Self::admits(now, last_bid, proposed_bid, end_height) {
            if end_height - now <= closing_window {
                Decision { accept: true, new_end: Some(now.saturating_add(closing_window)) }
            } else {
                Decision { accept: true, new_end: None }
            }
        } else {
            Decision { accept: false, new_end: None }
        }
    }

    /// Whether the protocol takes the bid at all.
    pub fn admits(
        now: BlockNumber,
        last_bid: Option<Bid>,
        proposed_bid: Bid,
        end_height: BlockNumber,
    ) -> (b: bool)
        ensures
            b == accepts(now, last_bid, proposed_bid, end_height),
    {
        let higher = match last_bid {
            Some(last) => proposed_bid.amount > last.amount,
            None => true,
        };
        now < end_height && higher
    }

    /// Why a bid that the protocol does not take is turned down.
    pub fn reason(
        now: BlockNumber,
        last_bid: Option<Bid>,
        proposed_bid: Bid,
        end_height: BlockNumber,
    ) -> (r: RejectReason)
        ensures
            r == reject_reason(now, last_bid, proposed_bid, end_height),
    {
        if now >= end_height {
            RejectReason::Closed
        } else {
            RejectReason::TooLow
        }
    }
}

/// The policy that an auction consults on every bid which the protocol takes,
/// and that it tells of every auction that ends. The engine promises nothing
/// of an implementation: what it does with a bid is stated for every answer
/// that a handler can give.
pub trait AuctionHandler {
    /// Whether the bid `new_bid` on auction `id` is taken, and whether it
    /// moves the end of the auction.
    fn on_new_bid(
        &self,
        now: BlockNumber,
        id: AuctionId,
        new_bid: Bid,
        last_bid: Option<Bid>,
    ) -> Decision;

    /// Auction `id` has ended with `winner`.
    fn on_auction_ended(&mut self, id: AuctionId, winner: Option<Bid>);
}

impl AuctionHandler for BidProtocol {
    /// Nothing beyond the protocol: every bid is taken, the end is left alone.
    fn on_new_bid(
        &self,
        now: BlockNumber,
        id: AuctionId,
        new_bid: Bid,
        last_bid: Option<Bid>,
    ) -> (d: Decision)
        ensures
            d == (Decision { accept: true, new_end: None }),
    {
        Decision { accept: true, new_end: None }
    }

    fn on_auction_ended(&mut self, id: AuctionId, winner: Option<Bid>) {
    }
}

/// A handler that takes the bids of `ALICE` and no others, and never moves
/// the end of an auction.
#[derive(Debug, Clone, Copy, PartialEq, Eq, Structural)]
pub struct Handler;

impl AuctionHandler for Handler {
    fn on_new_bid(
        &self,
        now: BlockNumber,
        id: AuctionId,
        new_bid: Bid,
        last_bid: Option<Bid>,
    ) -> (d: Decision)
        ensures
            d == (Decision { accept: new_bid.bidder == ALICE, new_end: None }),
    {
        if new_bid.bidder == ALICE {
            Decision { accept: true, new_end: None }
        } else {
            Decision { accept: false, new_end: None }
        }
    }

    fn on_auction_ended(&mut self, id: AuctionId, winner: Option<Bid>) {
    }
}

/// What a bid comes to once the protocol and the handler have answered: the
/// end height of the auction after the bid, or why the bid is turned down.
/// The handler's proposal for the end goes before the protocol's.
pub open spec fn verdict(
    now: BlockNumber,
    last_bid: Option<Bid>,
    proposed_bid: Bid,
    end_height: BlockNumber,
    closing_window: BlockNumber,
    handler: Decision,
) -> Result<BlockNumber, RejectReason> {
    let protocol = decision(now, last_bid, proposed_bid, end_height, closing_window);
    if !protocol.accept {
        Err(reject_reason(now, last_bid, proposed_bid, end_height))
    } else if !handler.accept {
        Err(RejectReason::Declined)
    } else {
        Ok(
            match handler.new_end {
                Some(e) => e,
                None => match protocol.new_end {
                    Some(e) => e,
                    None => end_height,
                },
            },
        )
    }
}

/// Puts the answers of the protocol and of the handler together.
pub fn resolve(
    now: BlockNumber,
    last_bid: Option<Bid>,
    proposed_bid: Bid,
    end_height: BlockNumber,
    closing_window: BlockNumber,
    handler: Decision,
) -> (r: Result<BlockNumber, RejectReason>)
    ensures
        r == verdict(now, last_bid, proposed_bid, end_height, closing_window, handler),
{
    let protocol = BidProtocol::evaluate(now, last_bid, proposed_bid, end_height, closing_window);
    if !protocol.accept {
        Err(BidProtocol::reason(now, last_bid, proposed_bid, end_height))
    } else if !handler.accept {
        Err(RejectReason::Declined)
    } else {
        match handler.new_end {
            Some(e) => Ok(e),
            None => match protocol.new_end {
                Some(e) => Ok(e),
                None => Ok(end_height),
            },
        }
    }
}

} // verus!
