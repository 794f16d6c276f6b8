//! Errors of the directory server.
use vstd::prelude::*;

verus! {

/// Why a directory operation failed.
#[derive(Debug)]
pub enum Error {
    /// An option could not be read.
    GetOptionErr(String),
    /// No node has room for a new volume.
    NoFreeSpace(String),
    /// No volume can take a write.
    NoWritableVolume(String),
    /// Any other failure, with its message.
    Other(String),
    /// A message.
    String(String),
    /// A storage text (replication or ttl) could not be read.
    StorageError(crate::storage::Error),
    /// A number could not be read.
    ParseIntError,
}

} // verus!
