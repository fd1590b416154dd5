//! The currency collaborator, as the engine sees it.

use vstd::prelude::*;
use crate::types::{AccountId, Balance};

verus! {

/// The one failure of the currency collaborator: the account cannot cover
/// the amount.
#[derive(Debug, Clone, Copy, PartialEq, Eq, Structural)]
pub struct InsufficientFunds;

/// The primitives by which funds are held and moved. The engine promises
/// nothing of an implementation and asks nothing of it: it counts a movement
/// as done only when the call returns `Ok`, and each of its operations says
/// what it does for either answer.
pub trait CurrencyTransfer {
    /// Sets `amount` of the funds of `who` aside.
    fn reserve(&mut self, who: AccountId, amount: Balance) -> Result<(), InsufficientFunds>;

    /// Gives `amount` of the funds set aside for `who` back to `who`.
    fn release(&mut self, who: AccountId, amount: Balance) -> Result<(), InsufficientFunds>;

    /// Moves `amount` from `from` to `to`.
    fn transfer(&mut self, from: AccountId, to: AccountId, amount: Balance) -> Result<
        (),
        InsufficientFunds,
    >;
}

} // verus!
