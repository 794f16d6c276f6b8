//! The volume server side: needles, volumes and the store that holds them.
pub mod errors;
pub mod codec;
pub mod version;
pub mod ttl;
pub mod replica_placement;
pub mod needle;
pub mod needle_value;
pub mod needle_value_map;
pub mod needle_map;
pub mod volume_info;
pub mod file_id;
pub mod volume;
pub mod disk_location;
pub mod store;
pub mod api;
pub mod content;
pub mod form;

pub use self::errors::Error;
pub use self::replica_placement::ReplicaPlacement;
pub use self::ttl::{Unit, TTL};
pub use self::version::{Version, CURRENT_VERSION};

use vstd::prelude::*;

verus! {

/// The id of a volume.
pub type VolumeId = u32;

} // verus!
