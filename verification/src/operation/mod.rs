//! What the servers answer each other and their clients, and the lookup cache of a
//! volume server.
pub mod assign;
pub mod lookup;
pub mod upload_content;

pub use self::assign::{AssignResult, ClusterStatusResult};
pub use self::lookup::{Location, LookupResult, Looker, Error};
pub use self::upload_content::UploadResult;
