//! The server replica: a metadata index plus a content store, guarded by
//! optimistic-concurrency version checks.
//!
//! Every mutating call supplies the version the caller expects to
//! overwrite; the server rejects a mismatch with a typed error rather than
//! locking. Versions are issued from a single monotonic counter, so no two
//! accepted mutations ever share a version number.

use vstd::prelude::*;

use crate::errors::ApiError;
use crate::idmap::IdMap;
use crate::types::FileMetadata;
use crate::types::FileMetadataView;
use crate::types::FileType;
use crate::types::dup_bytes;

verus! {

pub struct ServerState {
    files: IdMap<FileMetadata>,
    docs: IdMap<Vec<u8>>,
    version_counter: u64,
}

/// Mathematical image of the server: the metadata index (with its key
/// order, which fixes the order `get_updates` reports in), the content
/// store, and the version counter.
#[verifier::ext_equal]
pub struct ServerStateView {
    pub files: Map<u64, FileMetadataView>,
    pub files_order: Seq<u64>,
    pub docs: Map<u64, Seq<u8>>,
    pub version_counter: u64,
}

impl ServerStateView {
    /// Validity of a server state: records are keyed by their own id,
    /// issued versions never exceed the counter, and the key order is a
    /// faithful enumeration of the index.
    pub open spec fn wf(self) -> bool {
        &&& forall|k: u64| #[trigger] self.files.contains_key(k) ==> self.files[k].id == k
        &&& forall|k: u64| #[trigger] self.files.contains_key(k)
            ==> self.files[k].metadata_version <= self.version_counter
        &&& self.files_order.no_duplicates()
        &&& forall|k: u64| #[trigger] self.files_order.contains(k) <==> self.files.contains_key(k)
    }
}

impl View for ServerState {
    type V = ServerStateView;

    closed spec fn view(&self) -> ServerStateView {
        ServerStateView {
            files: self.files@,
            files_order: self.files.keys_seq(),
            docs: self.docs@,
            version_counter: self.version_counter,
        }
    }
}

/// True when some other live sibling under `parent` already carries `name`.
pub open spec fn name_taken(
    files: Map<u64, FileMetadataView>,
    parent: u64,
    name: Seq<u8>,
    excluding: u64,
) -> bool {
    exists|k: u64|
        #![auto]
        files.contains_key(k) && k != excluding && !files[k].deleted && files[k].parent == parent
            && files[k].name == name
}

/// The metadata records issued strictly after `since`, in index order.
pub open spec fn updates_since(
    order: Seq<u64>,
    files: Map<u64, FileMetadataView>,
    since: u64,
) -> Seq<FileMetadataView>
    decreases order.len(),
{
    if order.len() == 0 {
        Seq::empty()
    } else {
        let rest = updates_since(order.drop_last(), files, since);
        let k = order.last();
        if files.contains_key(k) && files[k].metadata_version > since {
            rest + seq![files[k]]
        } else {
            rest
        }
    }
}

/// The largest metadata version among `upds`, or `lo` if none is larger.
pub open spec fn max_version(upds: Seq<FileMetadataView>, lo: u64) -> u64
    decreases upds.len(),
{
    if upds.len() == 0 {
        lo
    } else {
        let m = max_version(upds.drop_last(), lo);
        if upds.last().metadata_version > m {
            upds.last().metadata_version
        } else {
            m
        }
    }
}

impl ServerState {
    /// A fresh server holding only the root folder, which is its own
    /// parent, at version 1.
    pub fn new(root_id: u64, root_name: &Vec<u8>, owner: &Vec<u8>) -> (r: ServerState)
        ensures
            r@.wf(),
            r@.version_counter == 1,
            r@.files =~= Map::empty().insert(
                root_id,
                FileMetadataView {
                    id: root_id,
                    file_type: FileType::Folder,
                    parent: root_id,
                    name: root_name@,
                    owner: owner@,
                    metadata_version: 1,
                    content_version: 1,
                    deleted: false,
                    folder_access_key: Seq::empty(),
                },
            ),
            r@.docs =~= Map::<u64, Seq<u8>>::empty(),
    {
        let mut files: IdMap<FileMetadata> = IdMap::new();
        let root = FileMetadata {
            id: root_id,
            file_type: FileType::Folder,
            parent: root_id,
            name: dup_bytes(root_name),
            owner: dup_bytes(owner),
            metadata_version: 1,
            content_version: 1,
            deleted: false,
            folder_access_key: Vec::new(),
        };
        files.insert(root_id, root);
        let r = ServerState { files, docs: IdMap::new(), version_counter: 1 };
        proof {
            let order = r@.files_order;
            assert(order =~= Seq::<u64>::empty().push(root_id));
            assert(order.no_duplicates());
            assert forall|k: u64| #[trigger] order.contains(k) implies r@.files.contains_key(k) by {
                let j = choose|j: int| 0 <= j < order.len() && order[j] == k;
                assert(k == root_id);
            }
            assert forall|k: u64| r@.files.contains_key(k) implies #[trigger] order.contains(k) by {
                assert(k == root_id);
                assert(order[0] == root_id);
            }
        }
        r
    }

    /// All metadata changed since the given watermark, in index order.
    /// This is the pull half of a sync pass; it never mutates the server.
    pub fn get_updates(&self, since_metadata_version: u64) -> (r: Vec<FileMetadata>)
        requires
            self@.wf(),
        ensures
            r@.map_values(|m: FileMetadata| m@) == updates_since(
                self@.files_order,
                self@.files,
                since_metadata_version,
            ),
            forall|i: int|
                0 <= i < r@.len() ==> self@.files.contains_key(#[trigger] r@[i]@.id) && self@.files[r@[i]@.id]
                    == r@[i]@,
    {
        let keys = self.files.keys();
        let mut r: Vec<FileMetadata> = Vec::new();
        let n = keys.len();
        let mut i: usize = 0;
        while i < n
            invariant
                self@.wf(),
                n == keys@.len(),
                i <= n,
                keys@ == self@.files_order,
                forall|j: u64| keys@.contains(j) <==> self@.files.contains_key(j),
                r@.map_values(|m: FileMetadata| m@) == updates_since(
                    keys@.subrange(0, i as int),
                    self@.files,
                    since_metadata_version,
                ),
                forall|j: int|
                    0 <= j < r@.len() ==> self@.files.contains_key(#[trigger] r@[j]@.id)
                        && self@.files[r@[j]@.id] == r@[j]@,
            decreases n - i,
        {
            let k = keys[i];
            proof {
                assert(keys@.contains(k));
                assert(keys@.subrange(0, i + 1).drop_last() =~= keys@.subrange(0, i as int));
            }
            let m = self.files.get(k);
            match m {
                Some(meta) => {
                    if meta.metadata_version > since_metadata_version {
                        let c = meta.dup();
                        proof {
                            assert(c@.id == k);
                        }
                        r.push(c);
                        proof {
                            assert(r@.map_values(|m: FileMetadata| m@) =~= updates_since(
                                keys@.subrange(0, i + 1),
                                self@.files,
                                since_metadata_version,
                            ));
                        }
                    } else {
                        proof {
                            assert(r@.map_values(|m: FileMetadata| m@) =~= updates_since(
                                keys@.subrange(0, i + 1),
                                self@.files,
                                since_metadata_version,
                            ));
                        }
                    }
                },
                None => {
                    proof {
                        assert(false);
                    }
                },
            }
            i = i + 1;
        }
        proof {
            assert(keys@.subrange(0, n as int) =~= keys@);
        }
        r
    }

    /// The bytes of a document at an exact content version. Only the
    /// current version is retained; older versions are gone.
    pub fn get_document(&self, id: u64, content_version: u64) -> (r: Result<Vec<u8>, ApiError>)
        ensures
            match r {
                Ok(c) => self@.docs.contains_key(id) && c@ == self@.docs[id]
                    && self@.files.contains_key(id) && self@.files[id].content_version
                    == content_version,
                Err(e) => e == ApiError::NotFound && !(self@.docs.contains_key(id)
                    && self@.files.contains_key(id) && self@.files[id].content_version
                    == content_version),
            },
    {
        match self.docs.get(id) {
            Some(c) => {
                match self.files.get(id) {
                    Some(m) => {
                        if m.content_version == content_version {
                            Ok(dup_bytes(c))
                        } else {
                            Err(ApiError::NotFound)
                        }
                    },
                    None => Err(ApiError::NotFound),
                }
            },
            None => Err(ApiError::NotFound),
        }
    }

    /// Decides whether another live sibling already carries `name`.
    fn check_name_taken(&self, parent: u64, name: &Vec<u8>, excluding: u64) -> (r: bool)
        requires
            self@.wf(),
        ensures
            r == name_taken(self@.files, parent, name@, excluding),
    {
        let keys = self.files.keys();
        let n = keys.len();
        let mut i: usize = 0;
        while i < n
            invariant
                self@.wf(),
                n == keys@.len(),
                i <= n,
                keys@ == self@.files_order,
                keys@.no_duplicates(),
                forall|j: u64| keys@.contains(j) <==> self@.files.contains_key(j),
                forall|j: int|
                    #![trigger keys@[j]]
                    0 <= j < i ==> {
                        let f = self@.files[keys@[j]];
                        keys@[j] == excluding || f.deleted || f.parent != parent || f.name != name@
                    },
            decreases n - i,
        {
            let k = keys[i];
            proof {
                assert(keys@.contains(k));
            }
            if k != excluding {
                match self.files.get(k) {
                    Some(f) => {
                        if !f.deleted && f.parent == parent {
                            if f.name == *name {
                                proof {
                                    assert(f@.name =~= name@);
                                }
                                return true;
                            }
                        }
                        proof {
                            assert({
                                let g = self@.files[keys@[i as int]];
                                keys@[i as int] == excluding || g.deleted || g.parent != parent
                                    || g.name != name@
                            });
                        }
                    },
                    None => {
                        proof {
                            assert(false);
                        }
                    },
                }
            }
            i = i + 1;
        }
        proof {
            if name_taken(self@.files, parent, name@, excluding) {
                let k = choose|k: u64|
                    #![auto]
                    self@.files.contains_key(k) && k != excluding && !self@.files[k].deleted
                        && self@.files[k].parent == parent && self@.files[k].name == name@;
                assert(keys@.contains(k));
                let j = choose|j: int| 0 <= j < keys@.len() && keys@[j] == k;
                assert(false);
            }
        }
        false
    }

    /// Whether `parent` exists as a live folder.
    fn parent_ok(&self, parent: u64) -> (r: bool)
        ensures
            r == (self@.files.contains_key(parent) && self@.files[parent].file_type
                == FileType::Folder && !self@.files[parent].deleted),
    {
        match self.files.get(parent) {
            Some(p) => p.file_type == FileType::Folder && !p.deleted,
            None => false,
        }
    }
}


/// A record with its tombstone set at version `v`; everything else kept.
pub open spec fn tombed(m: FileMetadataView, v: u64) -> FileMetadataView {
    FileMetadataView { deleted: true, metadata_version: v, ..m }
}

/// Whether following parent links upward from `x` hits `anc` within `fuel`
/// steps. The root is its own parent, so a chain that reaches the root
/// without hitting `anc` never will.
pub open spec fn chain_reaches(
    files: Map<u64, FileMetadataView>,
    x: u64,
    anc: u64,
    fuel: nat,
) -> bool
    decreases fuel,
{
    if x == anc {
        true
    } else if fuel == 0 {
        false
    } else if files.contains_key(x) {
        chain_reaches(files, files[x].parent, anc, (fuel - 1) as nat)
    } else {
        false
    }
}

/// Membership of `x` in the subtree rooted at `root`: some upward parent
/// chain from `x` reaches `root`.
pub open spec fn in_subtree(files: Map<u64, FileMetadataView>, x: u64, root: u64) -> bool {
    exists|k: nat| chain_reaches(files, x, root, k)
}

/// The typed rejection `create` answers for this request, if any.
pub open spec fn create_check(
    s: ServerStateView,
    id: u64,
    parent: u64,
    name: Seq<u8>,
) -> Option<ApiError> {
    if s.files.contains_key(id) {
        Some(ApiError::IdTaken)
    } else if !(s.files.contains_key(parent) && s.files[parent].file_type == FileType::Folder
        && !s.files[parent].deleted) {
        Some(ApiError::ParentNotFound)
    } else if name_taken(s.files, parent, name, id) {
        Some(ApiError::PathTaken)
    } else if s.version_counter == u64::MAX {
        Some(ApiError::Internal)
    } else {
        None
    }
}

/// The typed rejection `rename` answers for this request, if any.
pub open spec fn rename_check(
    s: ServerStateView,
    id: u64,
    old_version: u64,
    new_name: Seq<u8>,
    t: FileType,
) -> Option<ApiError> {
    if !(s.files.contains_key(id) && s.files[id].file_type == t) {
        Some(ApiError::NotFound)
    } else if s.files[id].parent == id {
        Some(ApiError::IllegalRootChange)
    } else if s.files[id].deleted {
        Some(ApiError::Deleted)
    } else if s.files[id].metadata_version != old_version {
        Some(ApiError::EditConflict)
    } else if name_taken(s.files, s.files[id].parent, new_name, id) {
        Some(ApiError::PathTaken)
    } else if s.version_counter == u64::MAX {
        Some(ApiError::Internal)
    } else {
        None
    }
}

/// The typed rejection `move` answers for this request, if any. A folder
/// may not move into its own subtree; the subtree test follows parent
/// links for at most as many steps as there are files.
pub open spec fn move_check(
    s: ServerStateView,
    id: u64,
    old_version: u64,
    new_parent: u64,
    t: FileType,
) -> Option<ApiError> {
    if !(s.files.contains_key(id) && s.files[id].file_type == t) {
        Some(ApiError::NotFound)
    } else if s.files[id].parent == id {
        Some(ApiError::IllegalRootChange)
    } else if s.files[id].deleted {
        Some(ApiError::Deleted)
    } else if s.files[id].metadata_version != old_version {
        Some(ApiError::EditConflict)
    } else if !(s.files.contains_key(new_parent) && s.files[new_parent].file_type
        == FileType::Folder) {
        Some(ApiError::ParentNotFound)
    } else if s.files[new_parent].deleted {
        Some(ApiError::ParentDeleted)
    } else if t == FileType::Folder && chain_reaches(
        s.files,
        new_parent,
        id,
        s.files_order.len(),
    ) {
        Some(ApiError::CannotMoveIntoDescendant)
    } else if name_taken(s.files, new_parent, s.files[id].name, id) {
        Some(ApiError::PathTaken)
    } else if s.version_counter == u64::MAX {
        Some(ApiError::Internal)
    } else {
        None
    }
}

/// The typed rejection `change_document_content` answers, if any.
pub open spec fn change_content_check(s: ServerStateView, id: u64, old_version: u64) -> Option<
    ApiError,
> {
    if !(s.files.contains_key(id) && s.files[id].file_type == FileType::Document) {
        Some(ApiError::NotFound)
    } else if s.files[id].deleted {
        Some(ApiError::Deleted)
    } else if s.files[id].metadata_version != old_version {
        Some(ApiError::EditConflict)
    } else if s.version_counter == u64::MAX {
        Some(ApiError::Internal)
    } else {
        None
    }
}

/// The typed rejection `delete` answers, if any.
pub open spec fn delete_check(s: ServerStateView, id: u64, t: FileType) -> Option<ApiError> {
    if !(s.files.contains_key(id) && s.files[id].file_type == t) {
        Some(ApiError::NotFound)
    } else if s.files[id].parent == id {
        Some(ApiError::IllegalRootChange)
    } else if s.files[id].deleted {
        Some(ApiError::Deleted)
    } else if s.version_counter == u64::MAX {
        Some(ApiError::Internal)
    } else {
        None
    }
}

impl ServerState {
    /// Walks parent links upward from `start` for at most as many steps as
    /// there are files, reporting whether `target` is hit.
    fn reaches_up(&self, start: u64, target: u64) -> (r: bool)
        requires
            self@.wf(),
        ensures
            r == chain_reaches(self@.files, start, target, self@.files_order.len()),
    {
        let n = self.files.len();
        let mut cur = start;
        let mut rem = n;
        while rem > 0
            invariant
                self@.wf(),
                rem <= n,
                n == self@.files_order.len(),
                chain_reaches(self@.files, start, target, n as nat) == chain_reaches(
                    self@.files,
                    cur,
                    target,
                    rem as nat,
                ),
            decreases rem,
        {
            if cur == target {
                return true;
            }
            match self.files.get(cur) {
                None => {
                    return false;
                },
                Some(m) => {
                    cur = m.parent;
                },
            }
            rem = rem - 1;
        }
        cur == target
    }

    /// Creates a file. Shared logic of the document and folder endpoints:
    /// the id must be fresh, the parent a live folder, the name free among
    /// live siblings. On success the record is stored at the next version.
    fn create_impl(&mut self, metadata: &FileMetadata, t: FileType) -> (r: Result<u64, ApiError>)
        requires
            old(self)@.wf(),
        ensures
            final(self)@.wf(),
            match r {
                Ok(v) => {
                    &&& create_check(old(self)@, metadata@.id, metadata@.parent, metadata@.name)
                        is None
                    &&& v == old(self)@.version_counter + 1
                    &&& final(self)@.version_counter == v
                    &&& final(self)@.files == old(self)@.files.insert(
                        metadata@.id,
                        FileMetadataView {
                            id: metadata@.id,
                            file_type: t,
                            parent: metadata@.parent,
                            name: metadata@.name,
                            owner: metadata@.owner,
                            metadata_version: v,
                            content_version: v,
                            deleted: false,
                            folder_access_key: metadata@.folder_access_key,
                        },
                    )
                    &&& final(self)@.files_order == old(self)@.files_order.push(metadata@.id)
                    &&& final(self)@.docs == old(self)@.docs
                },
                Err(e) => create_check(old(self)@, metadata@.id, metadata@.parent, metadata@.name)
                    == Some(e) && final(self)@ == old(self)@,
            },
    {
        if self.files.contains_key(metadata.id) {
            return Err(ApiError::IdTaken);
        }
        if !self.parent_ok(metadata.parent) {
            return Err(ApiError::ParentNotFound);
        }
        if self.check_name_taken(metadata.parent, &metadata.name, metadata.id) {
            return Err(ApiError::PathTaken);
        }
        if self.version_counter == u64::MAX {
            return Err(ApiError::Internal);
        }
        let v = self.version_counter + 1;
        self.version_counter = v;
        let stored = FileMetadata {
            id: metadata.id,
            file_type: t,
            parent: metadata.parent,
            name: dup_bytes(&metadata.name),
            owner: dup_bytes(&metadata.owner),
            metadata_version: v,
            content_version: v,
            deleted: false,
            folder_access_key: dup_bytes(&metadata.folder_access_key),
        };
        self.files.insert(metadata.id, stored);
        proof {
            let o = self@.files_order;
            assert(o.drop_last() =~= old(self)@.files_order);
            assert forall|k: u64| #[trigger] o.contains(k) implies self@.files.contains_key(k) by {
                let j = choose|j: int| 0 <= j < o.len() && o[j] == k;
                if j < o.len() - 1 {
                    assert(old(self)@.files_order[j] == k);
                    assert(old(self)@.files_order.contains(k));
                }
            }
            assert forall|k: u64| self@.files.contains_key(k) implies #[trigger] o.contains(k) by {
                if k == metadata@.id {
                    assert(o[o.len() - 1] == k);
                } else {
                    assert(old(self)@.files_order.contains(k));
                    let j = choose|j: int|
                        0 <= j < old(self)@.files_order.len() && old(self)@.files_order[j] == k;
                    assert(o[j] == k);
                }
            }
            assert(o.no_duplicates()) by {
                assert(!old(self)@.files_order.contains(metadata@.id));
            }
        }
        Ok(v)
    }

    /// Creates a document and stores its body.
    ///
    /// Errors, in check order: `IdTaken`, `ParentNotFound` (absent, deleted
    /// or not a folder), `PathTaken` (a live sibling holds the name),
    /// `Internal` (version space exhausted).
    pub fn create_document(&mut self, metadata: &FileMetadata, content: &Vec<u8>) -> (r: Result<
        u64,
        ApiError,
    >)
        requires
            old(self)@.wf(),
        ensures
            final(self)@.wf(),
            match r {
                Ok(v) => {
                    &&& create_check(old(self)@, metadata@.id, metadata@.parent, metadata@.name)
                        is None
                    &&& v == old(self)@.version_counter + 1
                    &&& final(self)@.version_counter == v
                    &&& final(self)@.files == old(self)@.files.insert(
                        metadata@.id,
                        FileMetadataView {
                            id: metadata@.id,
                            file_type: FileType::Document,
                            parent: metadata@.parent,
                            name: metadata@.name,
                            owner: metadata@.owner,
                            metadata_version: v,
                            content_version: v,
                            deleted: false,
                            folder_access_key: metadata@.folder_access_key,
                        },
                    )
                    &&& final(self)@.files_order == old(self)@.files_order.push(metadata@.id)
                    &&& final(self)@.docs == old(self)@.docs.insert(metadata@.id, content@)
                },
                Err(e) => create_check(old(self)@, metadata@.id, metadata@.parent, metadata@.name)
                    == Some(e) && final(self)@ == old(self)@,
            },
    {
        let v = self.create_impl(metadata, FileType::Document)?;
        self.docs.insert(metadata.id, dup_bytes(content));
        Ok(v)
    }

    /// Creates a folder.
    ///
    /// Errors as for [`Self::create_document`].
    pub fn create_folder(&mut self, metadata: &FileMetadata) -> (r: Result<u64, ApiError>)
        requires
            old(self)@.wf(),
        ensures
            final(self)@.wf(),
            match r {
                Ok(v) => {
                    &&& create_check(old(self)@, metadata@.id, metadata@.parent, metadata@.name)
                        is None
                    &&& v == old(self)@.version_counter + 1
                    &&& final(self)@.version_counter == v
                    &&& final(self)@.files == old(self)@.files.insert(
                        metadata@.id,
                        FileMetadataView {
                            id: metadata@.id,
                            file_type: FileType::Folder,
                            parent: metadata@.parent,
                            name: metadata@.name,
                            owner: metadata@.owner,
                            metadata_version: v,
                            content_version: v,
                            deleted: false,
                            folder_access_key: metadata@.folder_access_key,
                        },
                    )
                    &&& final(self)@.files_order == old(self)@.files_order.push(metadata@.id)
                    &&& final(self)@.docs == old(self)@.docs
                },
                Err(e) => create_check(old(self)@, metadata@.id, metadata@.parent, metadata@.name)
                    == Some(e) && final(self)@ == old(self)@,
            },
    {
        self.create_impl(metadata, FileType::Folder)
    }
}


impl ServerState {
    /// Renames a file after the version check. Shared logic of the
    /// document and folder endpoints.
    fn rename_impl(&mut self, id: u64, old_metadata_version: u64, new_name: &Vec<u8>, t: FileType)
        -> (r: Result<u64, ApiError>)
        requires
            old(self)@.wf(),
        ensures
            final(self)@.wf(),
            match r {
                Ok(v) => {
                    &&& rename_check(old(self)@, id, old_metadata_version, new_name@, t) is None
                    &&& v == old(self)@.version_counter + 1
                    &&& final(self)@.version_counter == v
                    &&& final(self)@.files == old(self)@.files.insert(
                        id,
                        FileMetadataView {
                            name: new_name@,
                            metadata_version: v,
                            ..old(self)@.files[id]
                        },
                    )
                    &&& final(self)@.files_order == old(self)@.files_order
                    &&& final(self)@.docs == old(self)@.docs
                },
                Err(e) => rename_check(old(self)@, id, old_metadata_version, new_name@, t) == Some(
                    e,
                ) && final(self)@ == old(self)@,
            },
    {
        let cur = match self.files.get(id) {
            None => {
                return Err(ApiError::NotFound);
            },
            Some(m) => {
                if m.file_type != t {
                    return Err(ApiError::NotFound);
                }
                if m.parent == id {
                    return Err(ApiError::IllegalRootChange);
                }
                if m.deleted {
                    return Err(ApiError::Deleted);
                }
                if m.metadata_version != old_metadata_version {
                    return Err(ApiError::EditConflict);
                }
                m.dup()
            },
        };
        if self.check_name_taken(cur.parent, new_name, id) {
            return Err(ApiError::PathTaken);
        }
        if self.version_counter == u64::MAX {
            return Err(ApiError::Internal);
        }
        let v = self.version_counter + 1;
        self.version_counter = v;
        let stored = FileMetadata {
            name: dup_bytes(new_name),
            metadata_version: v,
            ..cur
        };
        self.files.insert(id, stored);
        proof {
            assert(old(self)@.files_order.contains(id));
        }
        Ok(v)
    }

    /// Renames a document.
    ///
    /// Errors, in check order: `NotFound` (absent or not a document),
    /// `IllegalRootChange`, `Deleted`, `EditConflict` (stale version),
    /// `PathTaken`, `Internal`.
    pub fn rename_document(&mut self, id: u64, old_metadata_version: u64, new_name: &Vec<u8>) -> (r:
        Result<u64, ApiError>)
        requires
            old(self)@.wf(),
        ensures
            final(self)@.wf(),
            match r {
                Ok(v) => {
                    &&& rename_check(
                        old(self)@,
                        id,
                        old_metadata_version,
                        new_name@,
                        FileType::Document,
                    ) is None
                    &&& v == old(self)@.version_counter + 1
                    &&& final(self)@.version_counter == v
                    &&& final(self)@.files == old(self)@.files.insert(
                        id,
                        FileMetadataView {
                            name: new_name@,
                            metadata_version: v,
                            ..old(self)@.files[id]
                        },
                    )
                    &&& final(self)@.files_order == old(self)@.files_order
                    &&& final(self)@.docs == old(self)@.docs
                },
                Err(e) => rename_check(
                    old(self)@,
                    id,
                    old_metadata_version,
                    new_name@,
                    FileType::Document,
                ) == Some(e) && final(self)@ == old(self)@,
            },
    {
        self.rename_impl(id, old_metadata_version, new_name, FileType::Document)
    }

    /// Renames a folder.
    ///
    /// Errors as for [`Self::rename_document`], with `NotFound` when the
    /// id is not a folder.
    pub fn rename_folder(&mut self, id: u64, old_metadata_version: u64, new_name: &Vec<u8>) -> (r:
        Result<u64, ApiError>)
        requires
            old(self)@.wf(),
        ensures
            final(self)@.wf(),
            match r {
                Ok(v) => {
                    &&& rename_check(
                        old(self)@,
                        id,
                        old_metadata_version,
                        new_name@,
                        FileType::Folder,
                    ) is None
                    &&& v == old(self)@.version_counter + 1
                    &&& final(self)@.version_counter == v
                    &&& final(self)@.files == old(self)@.files.insert(
                        id,
                        FileMetadataView {
                            name: new_name@,
                            metadata_version: v,
                            ..old(self)@.files[id]
                        },
                    )
                    &&& final(self)@.files_order == old(self)@.files_order
                    &&& final(self)@.docs == old(self)@.docs
                },
                Err(e) => rename_check(
                    old(self)@,
                    id,
                    old_metadata_version,
                    new_name@,
                    FileType::Folder,
                ) == Some(e) && final(self)@ == old(self)@,
            },
    {
        self.rename_impl(id, old_metadata_version, new_name, FileType::Folder)
    }

    /// Moves a file after the version check. Shared logic of the document
    /// and folder endpoints.
    fn move_impl(
        &mut self,
        id: u64,
        old_metadata_version: u64,
        new_parent: u64,
        new_folder_access: &Vec<u8>,
        t: FileType,
    ) -> (r: Result<u64, ApiError>)
        requires
            old(self)@.wf(),
        ensures
            final(self)@.wf(),
            match r {
                Ok(v) => {
                    &&& move_check(old(self)@, id, old_metadata_version, new_parent, t) is None
                    &&& v == old(self)@.version_counter + 1
                    &&& final(self)@.version_counter == v
                    &&& final(self)@.files == old(self)@.files.insert(
                        id,
                        FileMetadataView {
                            parent: new_parent,
                            folder_access_key: new_folder_access@,
                            metadata_version: v,
                            ..old(self)@.files[id]
                        },
                    )
                    &&& final(self)@.files_order == old(self)@.files_order
                    &&& final(self)@.docs == old(self)@.docs
                },
                Err(e) => move_check(old(self)@, id, old_metadata_version, new_parent, t) == Some(
                    e,
                ) && final(self)@ == old(self)@,
            },
    {
        let cur = match self.files.get(id) {
            None => {
                return Err(ApiError::NotFound);
            },
            Some(m) => {
                if m.file_type != t {
                    return Err(ApiError::NotFound);
                }
                if m.parent == id {
                    return Err(ApiError::IllegalRootChange);
                }
                if m.deleted {
                    return Err(ApiError::Deleted);
                }
                if m.metadata_version != old_metadata_version {
                    return Err(ApiError::EditConflict);
                }
                m.dup()
            },
        };
        match self.files.get(new_parent) {
            None => {
                return Err(ApiError::ParentNotFound);
            },
            Some(p) => {
                if p.file_type != FileType::Folder {
                    return Err(ApiError::ParentNotFound);
                }
                if p.deleted {
                    return Err(ApiError::ParentDeleted);
                }
            },
        }
        if t == FileType::Folder {
            if self.reaches_up(new_parent, id) {
                return Err(ApiError::CannotMoveIntoDescendant);
            }
        }
        if self.check_name_taken(new_parent, &cur.name, id) {
            return Err(ApiError::PathTaken);
        }
        if self.version_counter == u64::MAX {
            return Err(ApiError::Internal);
        }
        let v = self.version_counter + 1;
        self.version_counter = v;
        let stored = FileMetadata {
            parent: new_parent,
            folder_access_key: dup_bytes(new_folder_access),
            metadata_version: v,
            ..cur
        };
        self.files.insert(id, stored);
        proof {
            assert(old(self)@.files_order.contains(id));
        }
        Ok(v)
    }

    /// Moves a document to a new parent folder.
    ///
    /// Errors, in check order: `NotFound`, `IllegalRootChange`, `Deleted`,
    /// `EditConflict`, `ParentNotFound`, `ParentDeleted`, `PathTaken`,
    /// `Internal`.
    pub fn move_document(
        &mut self,
        id: u64,
        old_metadata_version: u64,
        new_parent: u64,
        new_folder_access: &Vec<u8>,
    ) -> (r: Result<u64, ApiError>)
        requires
            old(self)@.wf(),
        ensures
            final(self)@.wf(),
            match r {
                Ok(v) => {
                    &&& move_check(
                        old(self)@,
                        id,
                        old_metadata_version,
                        new_parent,
                        FileType::Document,
                    ) is None
                    &&& v == old(self)@.version_counter + 1
                    &&& final(self)@.version_counter == v
                    &&& final(self)@.files == old(self)@.files.insert(
                        id,
                        FileMetadataView {
                            parent: new_parent,
                            folder_access_key: new_folder_access@,
                            metadata_version: v,
                            ..old(self)@.files[id]
                        },
                    )
                    &&& final(self)@.files_order == old(self)@.files_order
                    &&& final(self)@.docs == old(self)@.docs
                },
                Err(e) => move_check(
                    old(self)@,
                    id,
                    old_metadata_version,
                    new_parent,
                    FileType::Document,
                ) == Some(e) && final(self)@ == old(self)@,
            },
    {
        self.move_impl(id, old_metadata_version, new_parent, new_folder_access, FileType::Document)
    }

    /// Moves a folder to a new parent folder.
    ///
    /// Errors as for [`Self::move_document`], plus
    /// `CannotMoveIntoDescendant` when the new parent lies in the folder's
    /// own subtree.
    pub fn move_folder(
        &mut self,
        id: u64,
        old_metadata_version: u64,
        new_parent: u64,
        new_folder_access: &Vec<u8>,
    ) -> (r: Result<u64, ApiError>)
        requires
            old(self)@.wf(),
        ensures
            final(self)@.wf(),
            match r {
                Ok(v) => {
                    &&& move_check(
                        old(self)@,
                        id,
                        old_metadata_version,
                        new_parent,
                        FileType::Folder,
                    ) is None
                    &&& v == old(self)@.version_counter + 1
                    &&& final(self)@.version_counter == v
                    &&& final(self)@.files == old(self)@.files.insert(
                        id,
                        FileMetadataView {
                            parent: new_parent,
                            folder_access_key: new_folder_access@,
                            metadata_version: v,
                            ..old(self)@.files[id]
                        },
                    )
                    &&& final(self)@.files_order == old(self)@.files_order
                    &&& final(self)@.docs == old(self)@.docs
                },
                Err(e) => move_check(
                    old(self)@,
                    id,
                    old_metadata_version,
                    new_parent,
                    FileType::Folder,
                ) == Some(e) && final(self)@ == old(self)@,
            },
    {
        self.move_impl(id, old_metadata_version, new_parent, new_folder_access, FileType::Folder)
    }

    /// Replaces a document body after the version check; metadata and
    /// content version both move to the new version.
    ///
    /// Errors, in check order: `NotFound` (absent or not a document),
    /// `Deleted`, `EditConflict`, `Internal`.
    pub fn change_document_content(
        &mut self,
        id: u64,
        old_metadata_version: u64,
        new_content: &Vec<u8>,
    ) -> (r: Result<u64, ApiError>)
        requires
            old(self)@.wf(),
        ensures
            final(self)@.wf(),
            match r {
                Ok(v) => {
                    &&& change_content_check(old(self)@, id, old_metadata_version) is None
                    &&& v == old(self)@.version_counter + 1
                    &&& final(self)@.version_counter == v
                    &&& final(self)@.files == old(self)@.files.insert(
                        id,
                        FileMetadataView {
                            metadata_version: v,
                            content_version: v,
                            ..old(self)@.files[id]
                        },
                    )
                    &&& final(self)@.files_order == old(self)@.files_order
                    &&& final(self)@.docs == old(self)@.docs.insert(id, new_content@)
                },
                Err(e) => change_content_check(old(self)@, id, old_metadata_version) == Some(e)
                    && final(self)@ == old(self)@,
            },
    {
        let cur = match self.files.get(id) {
            None => {
                return Err(ApiError::NotFound);
            },
            Some(m) => {
                if m.file_type != FileType::Document {
                    return Err(ApiError::NotFound);
                }
                if m.deleted {
                    return Err(ApiError::Deleted);
                }
                if m.metadata_version != old_metadata_version {
                    return Err(ApiError::EditConflict);
                }
                m.dup()
            },
        };
        if self.version_counter == u64::MAX {
            return Err(ApiError::Internal);
        }
        let v = self.version_counter + 1;
        self.version_counter = v;
        let stored = FileMetadata { metadata_version: v, content_version: v, ..cur };
        self.files.insert(id, stored);
        self.docs.insert(id, dup_bytes(new_content));
        proof {
            assert(old(self)@.files_order.contains(id));
        }
        Ok(v)
    }

    /// Tombstones a document and discards its body. Deletion takes no
    /// expected version: it wins over concurrent edits.
    ///
    /// Errors, in check order: `NotFound` (absent or not a document),
    /// `IllegalRootChange`, `Deleted`, `Internal`.
    pub fn delete_document(&mut self, id: u64) -> (r: Result<u64, ApiError>)
        requires
            old(self)@.wf(),
        ensures
            final(self)@.wf(),
            match r {
                Ok(v) => {
                    &&& delete_check(old(self)@, id, FileType::Document) is None
                    &&& v == old(self)@.version_counter + 1
                    &&& final(self)@.version_counter == v
                    &&& final(self)@.files == old(self)@.files.insert(
                        id,
                        tombed(old(self)@.files[id], v),
                    )
                    &&& final(self)@.files_order == old(self)@.files_order
                    &&& final(self)@.docs == old(self)@.docs.remove(id)
                },
                Err(e) => delete_check(old(self)@, id, FileType::Document) == Some(e)
                    && final(self)@ == old(self)@,
            },
    {
        let cur = match self.files.get(id) {
            None => {
                return Err(ApiError::NotFound);
            },
            Some(m) => {
                if m.file_type != FileType::Document {
                    return Err(ApiError::NotFound);
                }
                if m.parent == id {
                    return Err(ApiError::IllegalRootChange);
                }
                if m.deleted {
                    return Err(ApiError::Deleted);
                }
                m.dup()
            },
        };
        if self.version_counter == u64::MAX {
            return Err(ApiError::Internal);
        }
        let v = self.version_counter + 1;
        self.version_counter = v;
        let stored = FileMetadata { deleted: true, metadata_version: v, ..cur };
        self.files.insert(id, stored);
        self.docs.remove(id);
        proof {
            assert(old(self)@.files_order.contains(id));
        }
        Ok(v)
    }
}


/// Decides membership in a plain id vector.
fn vec_contains(v: &Vec<u64>, x: u64) -> (r: bool)
    ensures
        r == v@.contains(x),
{
    let n = v.len();
    let mut i: usize = 0;
    while i < n
        invariant
            n == v@.len(),
            i <= n,
            forall|j: int| 0 <= j < i ==> v@[j] != x,
        decreases n - i,
    {
        if v[i] == x {
            return true;
        }
        i = i + 1;
    }
    false
}

/// Any file whose parent chain reaches `root` is in every id set that
/// contains `root` and is closed under the child relation.
proof fn lemma_chain_visited(
    files: Map<u64, FileMetadataView>,
    vis: Seq<u64>,
    root: u64,
    x: u64,
    k: nat,
)
    requires
        vis.contains(root),
        forall|y: u64|
            #![trigger files[y].parent]
            files.contains_key(y) && vis.contains(files[y].parent) && y != files[y].parent
                ==> vis.contains(y),
        chain_reaches(files, x, root, k),
    ensures
        vis.contains(x),
    decreases k,
{
    if x != root {
        let p = files[x].parent;
        if p == x {
            lemma_chain_visited(files, vis, root, x, (k - 1) as nat);
        } else {
            lemma_chain_visited(files, vis, root, p, (k - 1) as nat);
        }
    }
}

impl ServerState {
    /// Tombstones a folder and every file in its subtree, discarding the
    /// bodies of tombstoned documents. The whole cascade is stamped with
    /// one new version. The subtree is traversed with an explicit
    /// worklist, never by recursion.
    ///
    /// Errors, in check order: `NotFound` (absent or not a folder),
    /// `IllegalRootChange` (the root folder), `Deleted`, `Internal`.
    pub fn delete_folder(&mut self, id: u64) -> (r: Result<u64, ApiError>)
        requires
            old(self)@.wf(),
        ensures
            final(self)@.wf(),
            match r {
                Ok(v) => {
                    &&& delete_check(old(self)@, id, FileType::Folder) is None
                    &&& v == old(self)@.version_counter + 1
                    &&& final(self)@.version_counter == v
                    &&& final(self)@.files_order == old(self)@.files_order
                    &&& forall|x: u64|
                        #[trigger] final(self)@.files.contains_key(x) <==> old(
                            self,
                        )@.files.contains_key(x)
                    &&& forall|x: u64|
                        #[trigger] old(self)@.files.contains_key(x) ==> final(self)@.files[x] == (
                        if in_subtree(old(self)@.files, x, id) {
                            tombed(old(self)@.files[x], v)
                        } else {
                            old(self)@.files[x]
                        })
                    &&& final(self)@.docs =~= old(self)@.docs.remove_keys(
                        Set::new(|x: u64| in_subtree(old(self)@.files, x, id)),
                    )
                },
                Err(e) => delete_check(old(self)@, id, FileType::Folder) == Some(e)
                    && final(self)@ == old(self)@,
            },
    {
        match self.files.get(id) {
            None => {
                return Err(ApiError::NotFound);
            },
            Some(m) => {
                if m.file_type != FileType::Folder {
                    return Err(ApiError::NotFound);
                }
                if m.parent == id {
                    return Err(ApiError::IllegalRootChange);
                }
                if m.deleted {
                    return Err(ApiError::Deleted);
                }
            },
        }
        if self.version_counter == u64::MAX {
            return Err(ApiError::Internal);
        }
        let v = self.version_counter + 1;
        self.version_counter = v;

        let ghost f0 = self@.files;
        let keys = self.files.keys();
        let n = keys.len();

        // Collect the subtree of `id` into `visited`: start from the
        // folder itself and repeatedly adopt the children of every
        // collected file.
        let mut visited: Vec<u64> = Vec::new();
        visited.push(id);
        let mut pending: Vec<u64> = Vec::new();
        pending.push(id);
        proof {
            assert(chain_reaches(f0, id, id, 0));
            assert(visited@ =~= seq![id]);
            assert(pending@ =~= seq![id]);
            assert(visited@.no_duplicates());
            assert(visited@[0] == id);
            assert(pending@[0] == id);
            assert forall|y: u64|
                f0.contains_key(y) && visited@.contains(f0[y].parent) && !pending@.contains(
                    #[trigger] f0[y].parent,
                ) && y != f0[y].parent implies visited@.contains(y) by {
                let j = choose|j: int| 0 <= j < visited@.len() && visited@[j] == f0[y].parent;
                assert(f0[y].parent == id);
                assert(pending@.contains(id));
            }
            assert(keys@.contains(id));
            let j0 = choose|j0: int| 0 <= j0 < keys@.len() && keys@[j0] == id;
            assert(n >= 1);
        }
        while pending.len() > 0
            invariant
                self@.wf(),
                self@.files == f0,
                n == keys@.len(),
                keys@ == self@.files_order,
                forall|j: u64| keys@.contains(j) <==> f0.contains_key(j),
                visited@.no_duplicates(),
                visited@.contains(id),
                forall|j: int|
                    0 <= j < visited@.len() ==> f0.contains_key(#[trigger] visited@[j])
                        && in_subtree(f0, visited@[j], id),
                forall|j: int|
                    0 <= j < pending@.len() ==> visited@.contains(#[trigger] pending@[j]),
                forall|y: u64|
                    #![trigger f0[y].parent]
                    f0.contains_key(y) && visited@.contains(f0[y].parent) && !pending@.contains(
                        f0[y].parent,
                    ) && y != f0[y].parent ==> visited@.contains(y),
                visited@.len() <= n,
            decreases n - visited@.len(), pending@.len(),
        {
            let ghost vis_start = visited@;
            let ghost pend_start = pending@;
            let p = match pending.pop() {
                Some(p) => p,
                None => {
                    proof {
                        assert(false);
                    }
                    return Err(ApiError::Internal);
                },
            };
            proof {
                assert(p == pend_start[pend_start.len() - 1]);
                assert(visited@.contains(p));
                assert(pending@ =~= pend_start.drop_last());
                assert forall|j: int| 0 <= j < pending@.len() implies visited@.contains(
                    #[trigger] pending@[j],
                ) by {
                    assert(pending@[j] == pend_start[j]);
                }
                assert forall|y: u64|
                    f0.contains_key(y) && visited@.contains(f0[y].parent) && !pending@.contains(
                        #[trigger] f0[y].parent,
                    ) && f0[y].parent != p && y != f0[y].parent implies visited@.contains(y) by {
                    assert(!pend_start.contains(f0[y].parent)) by {
                        if pend_start.contains(f0[y].parent) {
                            let j = choose|j: int|
                                0 <= j < pend_start.len() && pend_start[j] == f0[y].parent;
                            if j < pend_start.len() - 1 {
                                assert(pending@[j] == f0[y].parent);
                            } else {
                                assert(f0[y].parent == p);
                            }
                        }
                    }
                }
            }
            let mut i: usize = 0;
            while i < n
                invariant
                    self@.wf(),
                    self@.files == f0,
                    n == keys@.len(),
                    keys@ == self@.files_order,
                    forall|j: u64| keys@.contains(j) <==> f0.contains_key(j),
                    visited@.no_duplicates(),
                    visited@.contains(id),
                    visited@.contains(p),
                    i <= n,
                    forall|j: int|
                        0 <= j < visited@.len() ==> f0.contains_key(#[trigger] visited@[j])
                            && in_subtree(f0, visited@[j], id),
                    forall|j: int|
                        0 <= j < pending@.len() ==> visited@.contains(#[trigger] pending@[j]),
                    forall|y: u64|
                        #![trigger f0[y].parent]
                        f0.contains_key(y) && visited@.contains(f0[y].parent)
                            && !pending@.contains(f0[y].parent) && f0[y].parent != p && y
                            != f0[y].parent ==> visited@.contains(y),
                    forall|j: int|
                        #![trigger keys@[j]]
                        0 <= j < i ==> (f0.contains_key(keys@[j]) && f0[keys@[j]].parent == p
                            && keys@[j] != p ==> visited@.contains(keys@[j])),
                    visited@.len() <= n,
                    vis_start.len() <= visited@.len(),
                    visited@.len() > vis_start.len() || pending@.len() < pend_start.len(),
                decreases n - i,
            {
                let k = keys[i];
                proof {
                    assert(keys@.contains(k));
                }
                match self.files.get(k) {
                    None => {
                        proof {
                            assert(false);
                        }
                    },
                    Some(m) => {
                        if m.parent == p && k != p {
                            let ghost vold = visited@;
                            let ghost pold = pending@;
                            if !vec_contains(&visited, k) {
                                visited.push(k);
                                pending.push(k);
                                proof {
                                    assert(visited@.drop_last() =~= vold);
                                    assert(visited@[visited@.len() - 1] == k);
                                    assert(pending@.drop_last() =~= pold);
                                    assert(pending@[pending@.len() - 1] == k);
                                    assert forall|x: u64| vold.contains(x) implies visited@.contains(
                                        x,
                                    ) by {
                                        let j = choose|j: int| 0 <= j < vold.len() && vold[j] == x;
                                        assert(visited@[j] == x);
                                    }
                                    assert(visited@.no_duplicates()) by {
                                        assert forall|a: int, b: int|
                                            0 <= a < b < visited@.len() implies visited@[a]
                                            != visited@[b] by {
                                            if b < visited@.len() - 1 {
                                                assert(vold[a] == visited@[a]);
                                                assert(vold[b] == visited@[b]);
                                            } else {
                                                assert(visited@[a] == vold[a]);
                                                assert(!vold.contains(k));
                                                if visited@[a] == k {
                                                    assert(vold.contains(k));
                                                }
                                            }
                                        }
                                    }
                                    let kk = choose|kk: nat| chain_reaches(f0, p, id, kk);
                                    assert(chain_reaches(f0, k, id, kk + 1));
                                    assert(in_subtree(f0, k, id));
                                    assert forall|j: int|
                                        0 <= j < pending@.len() implies visited@.contains(
                                        #[trigger] pending@[j],
                                    ) by {
                                        if j < pending@.len() - 1 {
                                            assert(pending@[j] == pold[j]);
                                            assert(vold.contains(pold[j]));
                                        }
                                    }
                                    assert forall|y: u64|
                                        f0.contains_key(y) && visited@.contains(f0[y].parent)
                                            && !pending@.contains(#[trigger] f0[y].parent)
                                            && f0[y].parent != p && y != f0[y].parent implies visited@.contains(
                                        y,
                                    ) by {
                                        assert(!pold.contains(f0[y].parent)) by {
                                            if pold.contains(f0[y].parent) {
                                                let j = choose|j: int|
                                                    0 <= j < pold.len() && pold[j] == f0[y].parent;
                                                assert(pending@[j] == f0[y].parent);
                                            }
                                        }
                                        assert(vold.contains(f0[y].parent)) by {
                                            let j = choose|j: int|
                                                0 <= j < visited@.len() && visited@[j]
                                                    == f0[y].parent;
                                            if j == visited@.len() - 1 {
                                                assert(f0[y].parent == k);
                                                assert(pending@.contains(k));
                                            } else {
                                                assert(vold[j] == f0[y].parent);
                                            }
                                        }
                                        assert(vold.contains(y));
                                    }
                                    // visited stays within the file index, so it
                                    // cannot outgrow it
                                    visited@.unique_seq_to_set();
                                    keys@.unique_seq_to_set();
                                    assert(visited@.to_set().subset_of(keys@.to_set())) by {
                                        assert forall|x: u64| visited@.to_set().contains(x) implies keys@.to_set().contains(
                                            x,
                                        ) by {
                                            assert(visited@.contains(x));
                                            let j = choose|j: int|
                                                0 <= j < visited@.len() && visited@[j] == x;
                                            assert(f0.contains_key(x));
                                        }
                                    }
                                    vstd::set_lib::lemma_len_subset(
                                        visited@.to_set(),
                                        keys@.to_set(),
                                    );
                                }
                            }
                        }
                    },
                }
                i = i + 1;
            }
        }
        proof {
            assert forall|x: u64| f0.contains_key(x) && in_subtree(f0, x, id) implies visited@.contains(
                x,
            ) by {
                let k = choose|k: nat| chain_reaches(f0, x, id, k);
                lemma_chain_visited(f0, visited@, id, x, k);
            }
        }

        // Tombstone every collected file and discard its body.
        let ghost docs0 = self@.docs;
        let ghost order0 = self@.files_order;
        let total = visited.len();
        let mut i: usize = 0;
        while i < total
            invariant
                total == visited@.len(),
                i <= total,
                self@.version_counter == v,
                self@.files_order == order0,
                visited@.no_duplicates(),
                forall|j: int|
                    0 <= j < visited@.len() ==> f0.contains_key(#[trigger] visited@[j])
                        && in_subtree(f0, visited@[j], id),
                forall|x: u64| #[trigger] self@.files.contains_key(x) <==> f0.contains_key(x),
                forall|x: u64|
                    #[trigger] f0.contains_key(x) ==> self@.files[x] == (
                    if visited@.subrange(0, i as int).contains(x) {
                        tombed(f0[x], v)
                    } else {
                        f0[x]
                    }),
                self@.docs =~= docs0.remove_keys(visited@.subrange(0, i as int).to_set()),
                forall|j: u64| order0.contains(j) <==> f0.contains_key(j),
                order0.no_duplicates(),
                forall|x: u64| #[trigger] f0.contains_key(x) ==> f0[x].id == x,
                forall|x: u64| #[trigger] f0.contains_key(x) ==> f0[x].metadata_version < v,
            decreases total - i,
        {
            let x = visited[i];
            proof {
                assert(visited@[i as int] == x);
                assert(f0.contains_key(x));
                assert(!visited@.subrange(0, i as int).contains(x)) by {
                    if visited@.subrange(0, i as int).contains(x) {
                        let j = choose|j: int| 0 <= j < i && visited@.subrange(0, i as int)[j] == x;
                        assert(visited@[j] == visited@[i as int]);
                    }
                }
            }
            let cur = match self.files.get(x) {
                Some(c) => c.dup(),
                None => {
                    proof {
                        assert(false);
                    }
                    return Err(ApiError::Internal);
                },
            };
            let stored = FileMetadata { deleted: true, metadata_version: v, ..cur };
            self.files.insert(x, stored);
            self.docs.remove(x);
            i = i + 1;
            proof {
                assert(visited@.subrange(0, i as int) =~= visited@.subrange(0, i - 1).push(x));
                assert forall|y: u64| #[trigger] f0.contains_key(y) implies self@.files[y] == (
                    if visited@.subrange(0, i as int).contains(y) {
                        tombed(f0[y], v)
                    } else {
                        f0[y]
                    }) by {
                    if y == x {
                        assert(visited@.subrange(0, i as int).contains(x)) by {
                            assert(visited@.subrange(0, i as int)[i - 1] == x);
                        }
                        assert(stored@ == tombed(f0[x], v));
                    } else {
                        assert(visited@.subrange(0, i as int).contains(y)
                            == visited@.subrange(0, i - 1).contains(y)) by {
                            let s1 = visited@.subrange(0, i as int);
                            let s2 = visited@.subrange(0, i - 1);
                            if s1.contains(y) {
                                let j = choose|j: int| 0 <= j < s1.len() && s1[j] == y;
                                assert(j < i - 1);
                                assert(s2[j] == y);
                            }
                            if s2.contains(y) {
                                let j = choose|j: int| 0 <= j < s2.len() && s2[j] == y;
                                assert(s1[j] == y);
                            }
                        }
                    }
                }
                assert(self@.docs =~= docs0.remove_keys(visited@.subrange(0, i as int).to_set()));
            }
        }
        proof {
            assert(visited@.subrange(0, total as int) =~= visited@);
            let subtree = Set::new(|x: u64| in_subtree(f0, x, id));
            assert forall|x: u64| #[trigger] visited@.to_set().contains(x) implies subtree.contains(
                x,
            ) by {
                assert(visited@.contains(x));
                let j = choose|j: int| 0 <= j < visited@.len() && visited@[j] == x;
            }
            assert(self@.docs =~= docs0.remove_keys(subtree)) by {
                assert forall|x: u64| #[trigger] docs0.contains_key(x) implies (
                    visited@.to_set().contains(x) <==> subtree.contains(x)) by {
                    if subtree.contains(x) {
                        if f0.contains_key(x) {
                            assert(visited@.contains(x));
                        } else {
                            assert(chain_reaches(f0, x, id, choose|k: nat|
                                chain_reaches(f0, x, id, k)));
                            assert(x == id);
                            assert(false);
                        }
                    }
                }
            }
        }
        Ok(v)
    }
}

} // verus!
