//! The identifier allocator: a durable counter that holds the next identifier to
//! give out.

use crate::error::{counter_stuck, Error};
use crate::stable::{cell_get, cell_set, cell_value, IdCell};
use ic_stable_structures::cell::ValueError;
use vstd::prelude::*;

verus! {

/// Gives out identifiers in ascending order, each once.
pub struct IdAllocator {
    cell: IdCell,
}

/// What an allocation returns, given what the cell answered to the new counter
/// value: the value it held before, or the error of a counter that is stuck.
pub fn issued(outcome: Result<u64, ValueError>) -> (id: Result<u64, Error>)
    ensures
        outcome is Ok ==> id == Ok::<u64, Error>(outcome.unwrap()),
        outcome is Err ==> id is Err && id.unwrap_err()@ == counter_stuck(),
{
    match outcome {
        Ok(previous) => Ok(previous),
        Err(_) => Err(Error::counter_stuck()),
    }
}

impl IdAllocator {
    /// The identifier that the next allocation gives out.
    pub closed spec fn next(&self) -> u64 {
        cell_value(self.cell)
    }

    /// An allocator that counts in `cell`.
    pub fn new(cell: IdCell) -> (allocator: IdAllocator)
        ensures
            allocator.next() == cell_value(cell),
    {
        IdAllocator { cell }
    }

    /// The identifier that the next allocation gives out.
    pub fn peek(&self) -> (next: u64)
        ensures
            next == self.next(),
    {
        cell_get(&self.cell)
    }

    /// Gives out the next identifier and advances the counter by one. Where the
    /// counter stands at the largest number, or the cell does not take the new
    /// value, the counter stays as it is and the error says that it is stuck.
    pub fn next_id(&mut self) -> (id: Result<u64, Error>)
        ensures
            match id {
                Ok(n) => n == old(self).next() && n < u64::MAX && final(self).next() == n + 1,
                Err(e) => e@ == counter_stuck() && final(self).next() == old(self).next(),
            },
            old(self).next() == u64::MAX ==> id is Err,
    {
        let current = cell_get(&self.cell);
        if current == u64::MAX {
            return Err(Error::counter_stuck());
        }
        issued(cell_set(&mut self.cell, current + 1))
    }
}

} // verus!
