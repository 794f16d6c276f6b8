//! A key counter kept in memory.
use vstd::prelude::*;
use crate::directory::sequencer::sequencer::{Sequencer, wrapping_add_u64};

verus! {

/// A key counter kept in memory; it starts at 1.
#[derive(Debug)]
pub struct MemorySequencer {
    counter: u64,
}

impl MemorySequencer {
    /// A counter at 1.
    pub fn new() -> (r: MemorySequencer)
        ensures
            r.counter() == 1,
    {
        MemorySequencer { counter: 1 }
    }
}

impl Clone for MemorySequencer {
    fn clone(&self) -> (r: MemorySequencer)
        ensures
            r.counter() == self.counter(),
    {
        MemorySequencer { counter: self.counter }
    }
}

impl Sequencer for MemorySequencer {
    closed spec fn counter(&self) -> u64 {
        self.counter
    }

    fn next_file_id(&mut self, count: u64) -> (r: (u64, u64)) {
        let ret = self.counter;
        self.counter = self.counter.wrapping_add(count);
        (ret, count)
    }

    fn set_max(&mut self, seen_value: u64) {
        if self.counter <= seen_value {
            self.counter = seen_value;
        }
    }

    fn peek(&self) -> (r: u64) {
        self.counter
    }
}

/// Law: two ranges of keys taken one after the other are adjacent and do not overlap, as
/// long as the counter does not wrap: the first is `[counter, counter + c1)` and the second
/// starts where the first ends.
pub proof fn law_key_ranges_adjacent(counter: u64, c1: u64, c2: u64)
    requires
        counter + c1 + c2 <= 0xffff_ffff_ffff_ffff,
    ensures
        wrapping_add_u64(counter, c1) == counter + c1,
        wrapping_add_u64(wrapping_add_u64(counter, c1), c2) == counter + c1 + c2,
{
}

} // verus!
