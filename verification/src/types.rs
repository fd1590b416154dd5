//! The plain values that every component shares: identifiers, heights,
//! amounts, lifecycle states, errors, origins and notifications.

use vstd::prelude::*;

verus! {

/// An account, as the origin resolver names it.
pub type AccountId = u128;

/// An amount of currency in its smallest unit.
pub type Balance = u64;

/// A reward in the smallest unit of currency. A rate above one hundred percent
/// can take a reward past the range of a `Balance`, so rewards are wider.
pub type Reward = u128;

/// A block height.
pub type BlockNumber = u64;

/// The identifier of a staking pool.
pub type PoolId = u64;

/// The identifier of an auction.
pub type AuctionId = u64;

/// The identifier of a country, under which pools are grouped.
pub type CountryId = u64;

/// A well-known account for examples and tests.
pub const ALICE: AccountId = 1;

/// A second well-known account for examples and tests.
pub const BOB: AccountId = 2;

/// The lifecycle state of a pool or an auction.
#[derive(Debug, Clone, Copy, PartialEq, Eq, Structural)]
pub enum Status {
    /// Created and not yet settled.
    Active,
    /// Settled by the scheduler; terminal.
    Finalized,
}

/// Why a bid was turned down.
#[derive(Debug, Clone, Copy, PartialEq, Eq, Structural)]
pub enum RejectReason {
    /// The auction's end height has been reached.
    Closed,
    /// The bid does not exceed the leading bid.
    TooLow,
    /// The auction handler declined the bid.
    Declined,
}

/// The failures that operations report.
#[derive(Debug, Clone, Copy, PartialEq, Eq, Structural)]
pub enum Error {
    /// The window does not satisfy `now < start < end`.
    InvalidWindow,
    /// An amount of zero was given where a positive one is needed.
    ZeroAmount,
    /// An amount would leave the range of a balance.
    Overflow,
    /// No record under this identifier.
    NotFound,
    /// The entity is not active.
    NotActive,
    /// The entity is not finalized.
    NotFinalized,
    /// The pool is settled and its stakes are locked.
    LockedUntilFinalize,
    /// The account has no reward to claim.
    NothingToClaim,
    /// More was asked back than the account has staked.
    InsufficientStake,
    /// The currency collaborator could not move the funds.
    InsufficientFunds,
    /// The new end height lies before the current one.
    MonotonicityViolation,
    /// The bid was turned down.
    BidRejected(RejectReason),
    /// The identifier counter has reached its maximum.
    Exhausted,
    /// The origin is not a signed account.
    Unauthorized,
    /// The expiry index does not hold what it must.
    CorruptIndex,
}

/// The classes into which the failures fall.
#[derive(Debug, Clone, Copy, PartialEq, Eq, Structural)]
pub enum ErrorKind {
    /// A malformed request.
    ValidationError,
    /// An unknown identifier.
    NotFoundError,
    /// An operation that the current lifecycle state does not allow.
    StateError,
    /// A request that loses against the current state.
    ConflictError,
    /// An exhausted identifier space.
    ResourceExhausted,
    /// A failed origin check.
    Unauthorized,
    /// A breach of an internal invariant.
    CorruptIndex,
}

impl Error {
    /// The class of this failure, as a specification.
    pub open spec fn spec_kind(self) -> ErrorKind {
        match self {
            Error::InvalidWindow | Error::ZeroAmount | Error::Overflow => ErrorKind::ValidationError,
            Error::NotFound => ErrorKind::NotFoundError,
            Error::NotActive
            | Error::NotFinalized
            | Error::LockedUntilFinalize
            | Error::NothingToClaim
            | Error::InsufficientStake
            | Error::InsufficientFunds => ErrorKind::StateError,
            Error::MonotonicityViolation | Error::BidRejected(_) => ErrorKind::ConflictError,
            Error::Exhausted => ErrorKind::ResourceExhausted,
            Error::Unauthorized => ErrorKind::Unauthorized,
            Error::CorruptIndex => ErrorKind::CorruptIndex,
        }
    }

    /// The class of this failure.
    #[verifier::when_used_as_spec(spec_kind)]
    pub fn kind(self) -> (k: ErrorKind)
        ensures
            k == self.spec_kind(),
    {
        match self {
            Error::InvalidWindow | Error::ZeroAmount | Error::Overflow => ErrorKind::ValidationError,
            Error::NotFound => ErrorKind::NotFoundError,
            Error::NotActive
            | Error::NotFinalized
            | Error::LockedUntilFinalize
            | Error::NothingToClaim
            | Error::InsufficientStake
            | Error::InsufficientFunds => ErrorKind::StateError,
            Error::MonotonicityViolation | Error::BidRejected(_) => ErrorKind::ConflictError,
            Error::Exhausted => ErrorKind::ResourceExhausted,
            Error::Unauthorized => ErrorKind::Unauthorized,
            Error::CorruptIndex => ErrorKind::CorruptIndex,
        }
    }
}

/// Who makes a call, as the origin resolver found it.
#[derive(Debug, Clone, Copy, PartialEq, Eq, Structural)]
pub enum Origin {
    /// The system itself.
    Root,
    /// An authenticated account.
    Signed(AccountId),
    /// Nobody.
    Anonymous,
}

impl Origin {
    /// The origin of a call signed by `who`.
    pub fn signed(who: AccountId) -> (o: Origin)
        ensures
            o == Origin::Signed(who),
    {
        Origin::Signed(who)
    }
}

/// The account behind a signed origin, as a specification.
pub open spec fn signer(origin: Origin) -> Option<AccountId> {
    match origin {
        Origin::Signed(who) => Some(who),
        _ => None,
    }
}

/// The account behind a signed origin; any other origin is unauthorized.
pub fn ensure_signed(origin: Origin) -> (r: Result<AccountId, Error>)
    ensures
        r == match signer(origin) {
            Some(who) => Ok::<AccountId, Error>(who),
            None => Err::<AccountId, Error>(Error::Unauthorized),
        },
{
    match origin {
        Origin::Signed(who) => Ok(who),
        _ => Err(Error::Unauthorized),
    }
}

/// A bid: who offers, and how much.
#[derive(Debug, Clone, Copy, PartialEq, Eq, Structural)]
pub struct Bid {
    /// The bidder.
    pub bidder: AccountId,
    /// The amount offered.
    pub amount: Balance,
}

/// What the engine tells the event sink.
#[derive(Debug, Clone, Copy, PartialEq, Eq, Structural)]
pub enum Event {
    /// An account created a pool.
    PoolCreated(AccountId, PoolId),
    /// A bid became the leading bid of an auction.
    BidAccepted(AuctionId, AccountId, Balance),
    /// A bid was turned down.
    BidRejected(AuctionId, AccountId, RejectReason),
    /// An auction was settled, with its winner if it had one.
    AuctionFinalized(AuctionId, Option<Bid>),
    /// An account staked an amount in a pool.
    Staked(PoolId, AccountId, Balance),
    /// An account took an amount back out of a pool.
    Unstaked(PoolId, AccountId, Balance),
    /// An account was paid its reward from a pool.
    Claimed(PoolId, AccountId, Reward),
    /// Settling an entity failed.
    FinalizeFailed(u64, Error),
}

} // verus!
