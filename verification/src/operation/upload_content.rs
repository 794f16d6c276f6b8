//! The answer of a volume server to an upload.
use vstd::prelude::*;

verus! {

/// The answer to an upload: the file's name, its size, and an error message (empty on
/// success).
#[derive(Debug)]
pub struct UploadResult {
    pub name: String,
    pub size: u32,
    pub error: String,
}

impl Default for UploadResult {
    fn default() -> (r: UploadResult)
        ensures
            r.name@.len() == 0,
            r.size == 0,
            r.error@.len() == 0,
    {
        UploadResult { name: String::new(), size: 0, error: String::new() }
    }
}

} // verus!
