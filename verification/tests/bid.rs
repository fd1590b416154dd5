use staking_auction::bid::{resolve, AuctionHandler, BidProtocol, Decision, Handler};
use staking_auction::types::{Bid, RejectReason, ALICE, BOB};

fn bid(bidder: u128, amount: u64) -> Bid {
    Bid { bidder, amount }
}

#[test]
fn a_first_bid_far_from_the_end_is_taken_without_extension() {
    let d = BidProtocol::evaluate(10, None, bid(ALICE, 0), 100, 5);
    assert_eq!(d, Decision { accept: true, new_end: None });
    let d = BidProtocol::evaluate(94, None, bid(ALICE, 1), 100, 5);
    assert_eq!(d, Decision { accept: true, new_end: None });
}

#[test]
fn a_bid_within_the_closing_window_extends_the_end() {
    let d = BidProtocol::evaluate(95, None, bid(ALICE, 1), 100, 5);
    assert_eq!(d, Decision { accept: true, new_end: Some(100) });
    let d = BidProtocol::evaluate(97, None, bid(ALICE, 50), 100, 5);
    assert_eq!(d, Decision { accept: true, new_end: Some(102) });
    let d = BidProtocol::evaluate(99, Some(bid(ALICE, 50)), bid(BOB, 60), 102, 5);
    assert_eq!(d, Decision { accept: true, new_end: Some(104) });
}

#[test]
fn a_bid_at_or_after_the_end_is_rejected() {
    let none = Decision { accept: false, new_end: None };
    assert_eq!(BidProtocol::evaluate(100, None, bid(ALICE, 50), 100, 5), none);
    assert_eq!(BidProtocol::evaluate(101, None, bid(ALICE, 50), 100, 5), none);
    assert_eq!(BidProtocol::reason(100, None, bid(ALICE, 50), 100), RejectReason::Closed);
    assert!(!BidProtocol::admits(100, None, bid(ALICE, 50), 100));
}

#[test]
fn a_bid_that_does_not_exceed_the_leader_is_rejected() {
    let none = Decision { accept: false, new_end: None };
    assert_eq!(BidProtocol::evaluate(98, Some(bid(ALICE, 50)), bid(BOB, 40), 102, 5), none);
    assert_eq!(BidProtocol::evaluate(98, Some(bid(ALICE, 50)), bid(BOB, 50), 102, 5), none);
    assert_eq!(
        BidProtocol::reason(98, Some(bid(ALICE, 50)), bid(BOB, 50), 102),
        RejectReason::TooLow
    );
    assert!(BidProtocol::admits(98, Some(bid(ALICE, 50)), bid(BOB, 51), 102));
}

#[test]
fn an_extension_stops_at_the_greatest_height() {
    let d = BidProtocol::evaluate(u64::MAX - 2, None, bid(ALICE, 1), u64::MAX, 5);
    assert_eq!(d, Decision { accept: true, new_end: Some(u64::MAX) });
    let d = BidProtocol::evaluate(7, None, bid(ALICE, 1), 8, u64::MAX);
    assert_eq!(d, Decision { accept: true, new_end: Some(u64::MAX) });
}

#[test]
fn the_stub_handler_takes_the_bids_of_alice_only() {
    let h = Handler;
    assert_eq!(
        h.on_new_bid(1, 0, bid(ALICE, 5), None),
        Decision { accept: true, new_end: None }
    );
    assert_eq!(
        h.on_new_bid(1, 0, bid(BOB, 5), None),
        Decision { accept: false, new_end: None }
    );
    assert_eq!(
        h.on_new_bid(1, 0, bid(BOB, 500), Some(bid(ALICE, 5))),
        Decision { accept: false, new_end: None }
    );
    let mut h = Handler;
    h.on_auction_ended(0, Some(bid(ALICE, 5)));
    h.on_auction_ended(0, None);
}

#[test]
fn the_protocol_as_a_handler_takes_every_bid() {
    let h = BidProtocol;
    assert_eq!(
        h.on_new_bid(1, 0, bid(BOB, 5), Some(bid(ALICE, 50))),
        Decision { accept: true, new_end: None }
    );
}

#[test]
fn resolve_puts_protocol_and_handler_together() {
    let yes = Decision { accept: true, new_end: None };
    let no = Decision { accept: false, new_end: None };
    let later = Decision { accept: true, new_end: Some(500) };
    let earlier = Decision { accept: true, new_end: Some(3) };
    // the protocol's refusal goes first
    assert_eq!(resolve(100, None, bid(ALICE, 5), 100, 5, yes), Err(RejectReason::Closed));
    assert_eq!(
        resolve(10, Some(bid(BOB, 5)), bid(ALICE, 5), 100, 5, yes),
        Err(RejectReason::TooLow)
    );
    // then the handler's
    assert_eq!(resolve(10, None, bid(ALICE, 5), 100, 5, no), Err(RejectReason::Declined));
    // the end stays, is extended by the protocol, or is set by the handler
    assert_eq!(resolve(10, None, bid(ALICE, 5), 100, 5, yes), Ok(100));
    assert_eq!(resolve(97, None, bid(ALICE, 5), 100, 5, yes), Ok(102));
    assert_eq!(resolve(97, None, bid(ALICE, 5), 100, 5, later), Ok(500));
    assert_eq!(resolve(10, None, bid(ALICE, 5), 100, 5, earlier), Ok(3));
}
