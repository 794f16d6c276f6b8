//! The directory server: the topology of data centers, racks and nodes, the volume
//! layouts, and the file ids it hands out.
pub mod errors;
pub mod sequencer;
pub mod topology;
pub mod api;

pub use self::errors::Error;
