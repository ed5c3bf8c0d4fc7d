use vstd::prelude::*;

verus! {

/// A page of entries with the total number the server holds.
#[derive(Clone, Debug)]
pub struct Collection<T> {
    pub total_count: u64,
    pub entries: Vec<T>,
}

impl<T> Collection<T> {
    /// The first entry, or nothing for an empty page.
    pub fn into_first(self) -> (r: Option<T>)
        ensures
            r == (if self.entries@.len() > 0 {
                Some(self.entries@[0])
            } else {
                None
            }),
    {
        let mut entries = self.entries;
        if entries.len() == 0 {
            None
        } else {
            Some(entries.remove(0))
        }
    }
}

#[derive(PartialEq, Eq, Structural, Clone, Copy, Debug)]
pub enum ItemStatus {
    Active,
    Trashed,
    Deleted,
}

#[derive(Clone, Debug)]
pub struct File {
    pub etag: Option<String>,
    pub id: String,
    pub name: Option<String>,
    pub sequence_id: Option<String>,
    pub allowed_invitee_roles: Option<Vec<String>>,
    pub content_created_at: Option<String>,
    pub content_modified_at: Option<String>,
    pub created_at: Option<String>,
    pub created_by: Option<Box<User>>,
    pub description: Option<String>,
    pub file_version: Option<Box<FileVersion>>,
    pub has_collaborations: Option<bool>,
    pub is_externally_owned: Option<bool>,
    pub item_status: Option<Box<ItemStatus>>,
    pub modified_at: Option<String>,
    pub modified_by: Option<Box<User>>,
    pub owned_by: Option<Box<User>>,
    pub parent: Option<Box<Folder>>,
    pub path_collection: Option<Collection<Folder>>,
    pub purged_at: Option<String>,
    pub sha1: Option<String>,
    pub shared_link: Option<SharedLink>,
    pub size: Option<u64>,
    pub tags: Option<Vec<String>>,
    pub trashed_at: Option<String>,
}

#[derive(Clone, Debug)]
pub struct FileVersion {
    pub id: String,
    pub sha1: String,
}

#[derive(Clone, Debug)]
pub struct Folder {
    pub id: String,
    pub etag: Option<String>,
    pub name: Option<String>,
    pub sequence_id: Option<String>,
}

/// An entry of a folder listing, told apart by its `type`.
#[derive(Clone, Debug)]
pub enum Item {
    File(Box<File>),
    Folder(Box<Folder>),
}

#[derive(PartialEq, Eq, Structural, Clone, Copy, Debug)]
pub enum SharedLinkAccess {
    Open,
    Company,
    Collaborators,
}

#[derive(PartialEq, Eq, Structural, Clone, Copy, Debug)]
pub enum SharedLinkPermission {
    CanDownload,
    CanPreview,
}

#[derive(PartialEq, Eq, Structural, Clone, Copy, Debug)]
pub struct SharedLinkPermissions {
    pub can_download: bool,
    pub can_preview: bool,
}

#[derive(Clone, Debug)]
pub struct SharedLink {
    pub access: SharedLinkAccess,
    pub download_count: u64,
    pub effective_access: SharedLinkAccess,
    pub effective_permission: SharedLinkPermission,
    pub is_password_enabled: bool,
    pub permissions: SharedLinkPermissions,
    pub preview_count: u64,
    pub unshared_at: Option<String>,
    pub url: String,
    pub vanity_url: Option<String>,
}

#[derive(Clone, Debug)]
pub struct User {
    pub id: String,
    pub name: String,
    pub login: String,
}

} // verus!
