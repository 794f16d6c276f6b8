//! The topology: data centers, racks, data nodes and the volumes on them.
//!
//! The directory server owns the whole tree: a topology holds its data centers, a
//! data center its racks and a rack its data nodes. A node is named elsewhere (in a
//! volume layout) by its place in that tree, a [`NodeLoc`]; nodes, racks and data
//! centers are never removed, so a place stays valid once made.
pub mod node;
pub mod rack;
pub mod data_center;
pub mod chance;
pub mod volume_grow;
pub mod volume_layout;
pub mod collection;
pub mod topology;

pub use self::node::{DataNode, NodeLoc};
pub use self::rack::Rack;
pub use self::data_center::DataCenter;
pub use self::volume_grow::VolumeGrowOption;
pub use self::volume_layout::VolumeLayout;
pub use self::collection::Collection;
pub use self::topology::Topology;
