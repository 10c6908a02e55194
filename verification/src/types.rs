//! Core data model: file metadata and the per-file record of pending local
//! changes.
//!
//! A file name is carried as a byte string: the engine never interprets a
//! name beyond comparing it for equality and appending conflict suffixes.

use vstd::prelude::*;

verus! {

/// Whether a file is a document (has a body) or a folder (has children).
#[derive(Clone, Copy, PartialEq, Eq, Structural, Debug)]
pub enum FileType {
    Document,
    Folder,
}

/// One file's metadata, as held by the client replica and by the server.
///
/// `parent` is the id of the containing folder; the root folder is its own
/// parent. `metadata_version` is bumped by the server on any accepted
/// metadata mutation; `content_version` only when a document body is
/// replaced. `deleted` is a tombstone: files are never physically removed
/// from the server index.
#[derive(Debug)]
pub struct FileMetadata {
    pub id: u64,
    pub file_type: FileType,
    pub parent: u64,
    pub name: Vec<u8>,
    pub owner: Vec<u8>,
    pub metadata_version: u64,
    pub content_version: u64,
    pub deleted: bool,
    pub folder_access_key: Vec<u8>,
}

/// Mathematical image of [`FileMetadata`]: byte strings become sequences.
#[verifier::ext_equal]
pub struct FileMetadataView {
    pub id: u64,
    pub file_type: FileType,
    pub parent: u64,
    pub name: Seq<u8>,
    pub owner: Seq<u8>,
    pub metadata_version: u64,
    pub content_version: u64,
    pub deleted: bool,
    pub folder_access_key: Seq<u8>,
}

impl View for FileMetadata {
    type V = FileMetadataView;

    open spec fn view(&self) -> FileMetadataView {
        FileMetadataView {
            id: self.id,
            file_type: self.file_type,
            parent: self.parent,
            name: self.name@,
            owner: self.owner@,
            metadata_version: self.metadata_version,
            content_version: self.content_version,
            deleted: self.deleted,
            folder_access_key: self.folder_access_key@,
        }
    }
}

/// Copies a byte string, pinning the copy's contents.
pub fn dup_bytes(v: &Vec<u8>) -> (r: Vec<u8>)
    ensures
        r@ == v@,
{
    let mut r: Vec<u8> = Vec::new();
    let mut i: usize = 0;
    while i < v.len()
        invariant
            i <= v.len(),
            r@ == v@.subrange(0, i as int),
        decreases v.len() - i,
    {
        r.push(v[i]);
        i = i + 1;
        proof {
            assert(r@ =~= v@.subrange(0, i as int));
        }
    }
    proof {
        assert(r@ =~= v@);
    }
    r
}

impl FileMetadata {
    /// Copies the metadata record; the copy has the same view.
    pub fn dup(&self) -> (r: FileMetadata)
        ensures
            r@ == self@,
    {
        FileMetadata {
            id: self.id,
            file_type: self.file_type,
            parent: self.parent,
            name: dup_bytes(&self.name),
            owner: dup_bytes(&self.owner),
            metadata_version: self.metadata_version,
            content_version: self.content_version,
            deleted: self.deleted,
            folder_access_key: dup_bytes(&self.folder_access_key),
        }
    }
}

/// The pending local mutations for one file id, relative to the last sync.
///
/// Each field that carries an `old` value remembers the state the file had
/// at the last sync checkpoint, so that the three-way merge always has
/// access to the base viewpoint. Fields are cleared one by one as the
/// server accepts each sub-change; the record is dropped once every field
/// is clear.
#[derive(Debug)]
pub struct LocalChange {
    /// The file was created locally and the server has never seen it.
    pub new: bool,
    /// The file was renamed locally; holds the name it had at the last sync.
    pub renamed: Option<Vec<u8>>,
    /// The file was moved locally; holds the parent it had at the last sync.
    pub moved: Option<u64>,
    /// A document body was edited locally; holds the body it had at the
    /// last sync (the common ancestor for content merges).
    pub content_edited: Option<Vec<u8>>,
    /// The file was deleted locally.
    pub deleted: bool,
}

/// Mathematical image of [`LocalChange`].
#[verifier::ext_equal]
pub struct LocalChangeView {
    pub new: bool,
    pub renamed: Option<Seq<u8>>,
    pub moved: Option<u64>,
    pub content_edited: Option<Seq<u8>>,
    pub deleted: bool,
}

impl View for LocalChange {
    type V = LocalChangeView;

    open spec fn view(&self) -> LocalChangeView {
        LocalChangeView {
            new: self.new,
            renamed: match self.renamed {
                Some(ref n) => Some(n@),
                None => None,
            },
            moved: self.moved,
            content_edited: match self.content_edited {
                Some(ref c) => Some(c@),
                None => None,
            },
            deleted: self.deleted,
        }
    }
}

impl LocalChangeView {
    /// A record with every field clear represents no pending change and is
    /// removed from the change store.
    pub open spec fn is_clear(self) -> bool {
        &&& !self.new
        &&& self.renamed is None
        &&& self.moved is None
        &&& self.content_edited is None
        &&& !self.deleted
    }
}

impl LocalChange {
    /// A fresh record with no pending sub-change.
    pub fn none() -> (r: LocalChange)
        ensures
            r@.is_clear(),
    {
        LocalChange { new: false, renamed: None, moved: None, content_edited: None, deleted: false }
    }

    /// True when every sub-change has been confirmed and cleared.
    pub fn is_clear(&self) -> (r: bool)
        ensures
            r == self@.is_clear(),
    {
        !self.new && self.renamed.is_none() && self.moved.is_none()
            && self.content_edited.is_none() && !self.deleted
    }
}

impl LocalChange {
    /// Copies the change record; the copy has the same view.
    pub fn dup(&self) -> (r: LocalChange)
        ensures
            r@ == self@,
    {
        LocalChange {
            new: self.new,
            renamed: match &self.renamed {
                Some(n) => Some(dup_bytes(n)),
                None => None,
            },
            moved: self.moved,
            content_edited: match &self.content_edited {
                Some(c) => Some(dup_bytes(c)),
                None => None,
            },
            deleted: self.deleted,
        }
    }
}

} // verus!
