//! Records held by the state and the records handed to callers.
use vstd::prelude::*;

use crate::identity::Identity;

verus! {

/// Where a file stands in its upload lifecycle.
#[derive(Debug, Clone, Copy, PartialEq, Eq, Structural)]
pub enum FileContent {
    Pending,
    PartiallyUploaded,
    Uploaded { uploaded_at: u64 },
}

/// Only a fully uploaded file can be shared.
pub open spec fn is_uploaded(c: FileContent) -> bool {
    c is Uploaded
}

/// Outcome of a grant or a revoke.
#[derive(Debug, Clone, Copy, PartialEq, Eq, Structural)]
pub enum FileSharingResponse {
    PendingError,
    PermissionError,
    Success,
}

/// A file as the file store keeps it.
#[derive(Debug, PartialEq, Eq)]
pub struct FileRecord {
    pub file_name: String,
    pub content: FileContent,
}

/// A registered user's profile.
#[derive(Debug, PartialEq, Eq)]
pub struct User {
    pub username: String,
    pub public_key: Vec<u8>,
}

/// A named group of files.
#[derive(Debug, PartialEq, Eq)]
pub struct GroupRecord {
    pub group_id: u64,
    pub name: String,
    pub files: Vec<u64>,
}

/// A user as shown in a listing: profile and identity.
#[derive(Debug, PartialEq, Eq)]
pub struct PublicUser {
    pub username: String,
    pub public_key: Vec<u8>,
    pub ic_principal: Identity,
}

/// Mathematical form of a `PublicUser`: name, key and identity.
pub type PublicUserView = (Seq<char>, Seq<u8>, Seq<u8>);

impl View for PublicUser {
    type V = PublicUserView;

    open spec fn view(&self) -> PublicUserView {
        (self.username@, self.public_key@, self.ic_principal@)
    }
}

/// A shared file as presented to the identity it is shared with.
#[derive(Debug, PartialEq, Eq)]
pub struct PublicFileMetadata {
    pub file_id: u64,
    pub file_name: String,
    pub group_name: String,
    pub group_alias: Option<String>,
    pub shared_with: Vec<PublicUser>,
    pub file_status: FileContent,
}

/// Mathematical form of a `PublicFileMetadata`.
pub struct MetadataView {
    pub file_id: u64,
    pub file_name: Seq<char>,
    pub group_name: Seq<char>,
    pub group_alias: Option<Seq<char>>,
    pub shared_with: Seq<PublicUserView>,
    pub file_status: FileContent,
}

pub open spec fn alias_view(a: Option<String>) -> Option<Seq<char>> {
    match a {
        Some(s) => Some(s@),
        None => None,
    }
}

impl View for PublicFileMetadata {
    type V = MetadataView;

    open spec fn view(&self) -> MetadataView {
        MetadataView {
            file_id: self.file_id,
            file_name: self.file_name@,
            group_name: self.group_name@,
            group_alias: alias_view(self.group_alias),
            shared_with: self.shared_with@.map_values(|u: PublicUser| u@),
            file_status: self.file_status,
        }
    }
}

} // verus!
