//! A file record.

use vstd::prelude::*;

verus! {

/// One file of a vault, as stored and as sent to clients.
///
/// `hash` is the fingerprint of `content`; `last_sync` is the time of the last
/// write in milliseconds since the epoch, and serves as the sync watermark.
#[derive(Debug)]
pub struct File {
    pub id: Option<i32>,
    pub vault_id: i32,
    pub path: String,
    pub content: String,
    pub hash: String,
    pub last_sync: i64,
}

/// The mathematical value of a [`File`].
pub struct FileView {
    pub id: Option<i32>,
    pub vault_id: i32,
    pub path: Seq<char>,
    pub content: Seq<char>,
    pub hash: Seq<char>,
    pub last_sync: i64,
}

impl View for File {
    type V = FileView;

    open spec fn view(&self) -> FileView {
        FileView {
            id: self.id,
            vault_id: self.vault_id,
            path: self.path@,
            content: self.content@,
            hash: self.hash@,
            last_sync: self.last_sync,
        }
    }
}

impl File {
    /// An independent copy with the same value.
    pub fn duplicate(&self) -> (f: File)
        ensures
            f@ == self@,
    {
        File {
            id: self.id,
            vault_id: self.vault_id,
            path: self.path.clone(),
            content: self.content.clone(),
            hash: self.hash.clone(),
            last_sync: self.last_sync,
        }
    }
}

} // verus!
