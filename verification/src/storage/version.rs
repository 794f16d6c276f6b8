//! Versions of the needle format.
use vstd::prelude::*;

verus! {

/// The version of a volume's needle format.
pub type Version = u8;

/// The first needle format.
pub const VERSION1: Version = 1;

/// The second needle format, which carries name, mime, last-modified and ttl.
pub const VERSION2: Version = 2;

/// The format that this library writes.
pub const CURRENT_VERSION: Version = VERSION2;

} // verus!
