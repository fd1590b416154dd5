//! The source of fresh identifiers.

use vstd::prelude::*;
use crate::types::Error;

verus! {

/// A counter that hands out each `u64` below the maximum once, in ascending
/// order. The maximum itself is never handed out: a counter that stands there
/// is exhausted, so no identifier can come back after a wraparound.
#[derive(Debug, Clone, Copy, PartialEq, Eq, Structural)]
pub struct IdAllocator {
    counter: u64,
}

impl IdAllocator {
    /// The identifier that the next successful call of `next` returns.
    pub closed spec fn peek(&self) -> u64 {
        self.counter
    }

    /// An allocator that starts at zero.
    pub fn new() -> (a: Self)
        ensures
            a.peek() == 0,
    {
        IdAllocator { counter: 0 }
    }

    /// An allocator that starts at `first`.
    pub fn starting_at(first: u64) -> (a: Self)
        ensures
            a.peek() == first,
    {
        IdAllocator { counter: first }
    }

    /// The identifier that would be handed out next.
    pub fn upcoming(&self) -> (id: u64)
        ensures
            id == self.peek(),
    {
        self.counter
    }

    /// Hands out the current counter and steps it. At the maximum it fails and
    /// leaves the counter where it is.
    pub fn next(&mut self) -> (r: Result<u64, Error>)
        ensures
            old(self).peek() == u64::MAX ==> r == Err::<u64, Error>(Error::Exhausted)
                && *final(self) == *old(self),
            old(self).peek() < u64::MAX ==> r == Ok::<u64, Error>(old(self).peek())
                && final(self).peek() == old(self).peek() + 1,
    {
        if self.counter == u64::MAX {
            Err(Error::Exhausted)
        } else {
            let id: u64 = self.counter;
            self.counter = id + 1;
            Ok(id)
        }
    }
}

} // verus!
