//! The answers of the directory server to assign and cluster status requests.
use vstd::prelude::*;

verus! {

/// The answer to an assign request: a file id, where to write it, how many files the
/// id covers, and an error message (empty on success).
#[allow(non_snake_case)]
#[derive(Debug)]
pub struct AssignResult {
    pub fid: String,
    pub url: String,
    pub publicUrl: String,
    pub count: i64,
    pub error: String,
}

/// The answer to a cluster status request.
#[allow(non_snake_case)]
#[derive(Debug)]
pub struct ClusterStatusResult {
    pub IsLeader: bool,
    pub Leader: String,
    pub Peers: Vec<String>,
}

} // verus!
