//! Where a needle lies in its volume file.
use vstd::prelude::*;

verus! {

/// The location of a needle: its offset in units of 8 bytes (0 for a deleted needle) and
/// the size of its body.
#[derive(Copy, Clone, Debug, PartialEq, Eq, Structural)]
pub struct NeedleValue {
    pub offset: u32,
    pub size: u32,
}

} // verus!
