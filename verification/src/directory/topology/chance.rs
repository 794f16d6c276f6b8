//! Random draws (through rand), which the directory uses to spread volumes and writes
//! over nodes.
use vstd::prelude::*;
use rand::Rng;

verus! {

/// `rand::random::<u32>()`: a u32 from the thread's generator. Nothing is claimed of
/// its value.
#[verifier::external_body]
pub(crate) fn random_u32() -> (r: u32) {
    rand::random::<u32>()
}

/// `rand::random::<i64>()`: an i64 from the thread's generator. Nothing is claimed of
/// its value.
#[verifier::external_body]
pub(crate) fn random_i64() -> (r: i64) {
    rand::random::<i64>()
}

/// `Rng::shuffle` on the thread's generator: it only swaps items, so the same items
/// stay, each as often as before; their order is left to chance.
#[verifier::external_body]
pub(crate) fn shuffle(v: &mut Vec<usize>)
    ensures
        final(v)@.len() == old(v)@.len(),
        final(v)@.to_multiset() == old(v)@.to_multiset(),
{
    rand::thread_rng().shuffle(v.as_mut_slice());
}

} // verus!
