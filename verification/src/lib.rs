//! A small distributed blob store in the style of SeaweedFS: volume servers
//! keep needles (blobs) in append-only volume files, and a directory server
//! keeps the topology of data centers, racks and nodes and hands out file ids.
pub mod text;
pub mod storage;
pub mod pb;
pub mod directory;
pub mod util;
pub mod operation;
pub mod client;
