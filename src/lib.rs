//! Access control for a file-storage service: granting, revoking and listing
//! the files that owners share with other identities.

pub mod assoc;
pub mod identity;
pub mod laws;
pub mod model;
pub mod sharing;
pub mod state;
