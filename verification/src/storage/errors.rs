//! Errors of the storage side.
use vstd::prelude::*;

verus! {

/// Why a storage operation failed.
#[derive(Debug)]
pub enum Error {
    /// The text is no replica placement (it must have three bytes).
    ParseReplicaPlacement(String),
    /// The text is no time to live.
    ParseTTL(String),
    /// A message.
    String(String),
    /// A number in the text could not be read.
    ParseIntError,
    /// Fewer bytes were there than a read needed.
    UnexpectedEof,
    /// Any other failure, with its message.
    Other(String),
}

} // verus!
