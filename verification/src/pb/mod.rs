//! Messages between the servers.
pub mod zergling;
