//! The source of file keys.
use vstd::prelude::*;

verus! {

/// `a + b` wrapping at 2^64.
pub open spec fn wrapping_add_u64(a: u64, b: u64) -> u64 {
    ((a + b) % 0x1_0000_0000_0000_0000) as u64
}

/// A source of file keys: a counter from which ranges of keys are taken.
pub trait Sequencer {
    /// The next key that would be handed out.
    spec fn counter(&self) -> u64;

    /// Takes `count` keys: returns the first of them and the count, and moves the counter
    /// past them (wrapping at 2^64).
    fn next_file_id(&mut self, count: u64) -> (r: (u64, u64))
        ensures
            r == (old(self).counter(), count),
            final(self).counter() == wrapping_add_u64(old(self).counter(), count),
    ;

    /// Makes sure keys handed out later are not below a key that was seen in use: the
    /// counter becomes `seen_value` when it is not above it.
    fn set_max(&mut self, seen_value: u64)
        ensures
            final(self).counter() == if old(self).counter() <= seen_value {
                seen_value
            } else {
                old(self).counter()
            },
    ;

    /// The next key that would be handed out.
    fn peek(&self) -> (r: u64)
        ensures
            r == self.counter(),
    ;
}

} // verus!
