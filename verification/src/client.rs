//! The client replica: the working copy of the file tree, the record of
//! pending local changes, and the sync checkpoint.
//!
//! The replica stores one metadata record and (for documents) one body per
//! id — the *local* viewpoint. The *base* viewpoint, the state as of the
//! last successful sync, is recoverable from the old values kept inside
//! each [`LocalChange`]; the *remote* viewpoint arrives as fetched server
//! updates and is never cached.

use vstd::prelude::*;

use crate::errors::ApiError;
use crate::idmap::IdMap;
use crate::types::FileMetadata;
use crate::types::FileMetadataView;
use crate::types::FileType;
use crate::types::LocalChange;
use crate::types::LocalChangeView;
use crate::types::dup_bytes;

verus! {

pub struct ClientState {
    files: IdMap<FileMetadata>,
    docs: IdMap<Vec<u8>>,
    changes: IdMap<LocalChange>,
    checkpoint: u64,
    next_id: u64,
}

/// Mathematical image of the client: metadata, document bodies, pending
/// changes (with the order their records were opened in, which fixes the
/// order local work units are emitted in), the checkpoint watermark, and
/// the next id the client will mint for a conflict copy.
#[verifier::ext_equal]
pub struct ClientStateView {
    pub files: Map<u64, FileMetadataView>,
    pub docs: Map<u64, Seq<u8>>,
    pub changes: Map<u64, LocalChangeView>,
    pub changes_order: Seq<u64>,
    pub checkpoint: u64,
    pub next_id: u64,
}

/// A change record with no pending sub-change.
pub open spec fn clear_change() -> LocalChangeView {
    LocalChangeView { new: false, renamed: None, moved: None, content_edited: None, deleted: false }
}

/// The change record of `id`, or a clear one if none is open.
pub open spec fn change_of(changes: Map<u64, LocalChangeView>, id: u64) -> LocalChangeView {
    if changes.contains_key(id) {
        changes[id]
    } else {
        clear_change()
    }
}

impl ClientStateView {
    /// Validity of a client state: records are keyed by their own id,
    /// every open change record belongs to a present file, and the change
    /// order is a faithful enumeration of the change store.
    pub open spec fn wf(self) -> bool {
        &&& forall|k: u64| #[trigger] self.files.contains_key(k) ==> self.files[k].id == k
        &&& forall|k: u64| #[trigger] self.changes.contains_key(k) ==> self.files.contains_key(k)
        &&& self.changes_order.no_duplicates()
        &&& forall|k: u64|
            #[trigger] self.changes_order.contains(k) <==> self.changes.contains_key(k)
    }
}

impl View for ClientState {
    type V = ClientStateView;

    closed spec fn view(&self) -> ClientStateView {
        ClientStateView {
            files: self.files@,
            docs: self.docs@,
            changes: self.changes@,
            changes_order: self.changes.keys_seq(),
            checkpoint: self.checkpoint,
            next_id: self.next_id,
        }
    }
}

impl ClientState {
    /// A fresh replica with no files, an initial checkpoint, and the id
    /// the client will mint first.
    pub fn new(checkpoint: u64, next_id: u64) -> (r: ClientState)
        ensures
            r@.wf(),
            r@.files =~= Map::<u64, FileMetadataView>::empty(),
            r@.docs =~= Map::<u64, Seq<u8>>::empty(),
            r@.changes =~= Map::<u64, LocalChangeView>::empty(),
            r@.changes_order == Seq::<u64>::empty(),
            r@.checkpoint == checkpoint,
            r@.next_id == next_id,
    {
        ClientState {
            files: IdMap::new(),
            docs: IdMap::new(),
            changes: IdMap::new(),
            checkpoint,
            next_id,
        }
    }

    /// The highest server metadata version this replica has fully
    /// incorporated.
    pub fn checkpoint(&self) -> (r: u64)
        ensures
            r == self@.checkpoint,
    {
        self.checkpoint
    }

    /// The local metadata record of `id`, if the replica holds one.
    pub fn get_metadata(&self, id: u64) -> (r: Option<&FileMetadata>)
        ensures
            match r {
                Some(m) => self@.files.contains_key(id) && m@ == self@.files[id],
                None => !self@.files.contains_key(id),
            },
    {
        self.files.get(id)
    }

    /// The local body of document `id`, if the replica holds one.
    pub fn get_document(&self, id: u64) -> (r: Option<&Vec<u8>>)
        ensures
            match r {
                Some(c) => self@.docs.contains_key(id) && c@ == self@.docs[id],
                None => !self@.docs.contains_key(id),
            },
    {
        self.docs.get(id)
    }

    /// The pending change record of `id`, if one is open.
    pub fn get_local_changes(&self, id: u64) -> (r: Option<&LocalChange>)
        ensures
            match r {
                Some(c) => self@.changes.contains_key(id) && c@ == self@.changes[id],
                None => !self@.changes.contains_key(id),
            },
    {
        self.changes.get(id)
    }

    /// The ids with open change records, in the order the records were
    /// opened.
    pub fn pending_change_ids(&self) -> (r: Vec<u64>)
        ensures
            r@ == self@.changes_order,
            r@.no_duplicates(),
            forall|k: u64| r@.contains(k) <==> self@.changes.contains_key(k),
    {
        self.changes.keys()
    }

    /// The ids of the files contained in folder `parent`, in the order
    /// their records were stored. The root is its own parent and is never
    /// its own child.
    pub fn list_children(&self, parent: u64) -> (r: Vec<u64>)
        ensures
            r@.no_duplicates(),
            forall|k: u64|
                #[trigger] r@.contains(k) <==> (self@.files.contains_key(k) && self@.files[k].parent
                    == parent && k != parent),
    {
        let ids = self.files.keys();
        let n = ids.len();
        let mut r: Vec<u64> = Vec::new();
        let mut i: usize = 0;
        while i < n
            invariant
                n == ids@.len(),
                i <= n,
                ids@.no_duplicates(),
                forall|k: u64| ids@.contains(k) <==> self@.files.contains_key(k),
                forall|k: u64|
                    #[trigger] r@.contains(k) ==> (self@.files.contains_key(k)
                        && self@.files[k].parent == parent && k != parent),
                forall|j: int|
                    #![trigger ids@[j]]
                    0 <= j < i ==> (self@.files.contains_key(ids@[j]) && self@.files[ids@[j]].parent
                        == parent && ids@[j] != parent ==> r@.contains(ids@[j])),
                r@.no_duplicates(),
                forall|k: u64|
                    #[trigger] r@.contains(k) ==> ids@.subrange(0, i as int).contains(k),
            decreases n - i,
        {
            let k = ids[i];
            proof {
                assert(ids@.contains(k));
            }
            if k != parent {
                match self.files.get(k) {
                    Some(m) => {
                        if m.parent == parent {
                            let ghost r0 = r@;
                            proof {
                                assert(!r0.contains(k)) by {
                                    if r0.contains(k) {
                                        let sub = ids@.subrange(0, i as int);
                                        assert(sub.contains(k));
                                        let j = choose|j: int| 0 <= j < sub.len() && sub[j] == k;
                                        assert(ids@[j] == ids@[i as int]);
                                    }
                                }
                            }
                            r.push(k);
                            proof {
                                assert(r@.drop_last() =~= r0);
                                assert(r@[r@.len() - 1] == k);
                                assert forall|x: u64| #[trigger] r@.contains(x) implies (
                                r0.contains(x) || x == k) by {
                                    let a = choose|a: int| 0 <= a < r@.len() && r@[a] == x;
                                    if a < r@.len() - 1 {
                                        assert(r0[a] == x);
                                    }
                                }
                                assert(r@.no_duplicates()) by {
                                    assert forall|a: int, b: int|
                                        0 <= a < b < r@.len() implies r@[a] != r@[b] by {
                                        if b < r@.len() - 1 {
                                            assert(r0[a] == r@[a] && r0[b] == r@[b]);
                                        } else {
                                            assert(r@[a] == r0[a]);
                                            assert(r0.contains(r0[a]));
                                            if r@[a] == k {
                                                assert(r0.contains(k));
                                            }
                                        }
                                    }
                                }
                                assert forall|x: u64| r0.contains(x) implies #[trigger] r@.contains(
                                x) by {
                                    let a = choose|a: int| 0 <= a < r0.len() && r0[a] == x;
                                    assert(r@[a] == x);
                                }
                            }
                        }
                    },
                    None => {
                        proof {
                            assert(false);
                        }
                    },
                }
            }
            i = i + 1;
            proof {
                let sub0 = ids@.subrange(0, i - 1);
                let sub1 = ids@.subrange(0, i as int);
                assert(sub1 =~= sub0.push(ids@[i - 1]));
                assert forall|x: u64| sub0.contains(x) implies #[trigger] sub1.contains(x) by {
                    let j = choose|j: int| 0 <= j < sub0.len() && sub0[j] == x;
                    assert(sub1[j] == x);
                }
                assert(sub1[i - 1] == ids@[i - 1]);
                assert(sub1.contains(ids@[i - 1]));
            }
        }
        proof {
            assert forall|k: u64|
                (self@.files.contains_key(k) && self@.files[k].parent == parent && k
                    != parent) implies #[trigger] r@.contains(k) by {
                assert(ids@.contains(k));
                let j = choose|j: int| 0 <= j < ids@.len() && ids@[j] == k;
            }
            assert forall|k: u64| #[trigger] r@.contains(k) implies (self@.files.contains_key(k)
                && self@.files[k].parent == parent && k != parent) by {
            }
        }
        r
    }

    /// The ids of all files the replica holds metadata for.
    pub fn metadata_ids(&self) -> (r: Vec<u64>)
        ensures
            r@.no_duplicates(),
            forall|k: u64| r@.contains(k) <==> self@.files.contains_key(k),
    {
        self.files.keys()
    }

    /// Stores a metadata record, keeping the replica well formed.
    pub(crate) fn insert_metadata(&mut self, metadata: FileMetadata)
        requires
            old(self)@.wf(),
        ensures
            final(self)@.wf(),
            final(self)@ == (ClientStateView {
                files: old(self)@.files.insert(metadata@.id, metadata@),
                ..old(self)@
            }),
    {
        let id = metadata.id;
        self.files.insert(id, metadata);
        proof {
            assert(final(self)@ == (ClientStateView {
                files: old(self)@.files.insert(metadata@.id, metadata@),
                ..old(self)@
            }));
        }
    }

    /// Stores a document body.
    pub(crate) fn insert_document(&mut self, id: u64, content: Vec<u8>)
        requires
            old(self)@.wf(),
        ensures
            final(self)@.wf(),
            final(self)@ == (ClientStateView { docs: old(self)@.docs.insert(id, content@), ..old(self)@ }),
    {
        self.docs.insert(id, content);
    }

    /// Stores a change record for a present file.
    pub(crate) fn insert_change(&mut self, id: u64, change: LocalChange)
        requires
            old(self)@.wf(),
            old(self)@.files.contains_key(id),
        ensures
            final(self)@.wf(),
            final(self)@ == (ClientStateView {
                changes: old(self)@.changes.insert(id, change@),
                changes_order: if old(self)@.changes.contains_key(id) {
                    old(self)@.changes_order
                } else {
                    old(self)@.changes_order.push(id)
                },
                ..old(self)@
            }),
            final(self)@.changes_order.contains(id),
    {
        let ghost pre = self@.changes_order;
        self.changes.insert(id, change);
        proof {
            if !old(self)@.changes.contains_key(id) {
                assert(self@.changes_order[self@.changes_order.len() - 1] == id);
                assert(self@.changes_order.no_duplicates()) by {
                    assert forall|a: int, b: int|
                        0 <= a < b < self@.changes_order.len() implies self@.changes_order[a]
                        != self@.changes_order[b] by {
                        if b < self@.changes_order.len() - 1 {
                            assert(pre[a] == self@.changes_order[a]);
                            assert(pre[b] == self@.changes_order[b]);
                        } else {
                            assert(self@.changes_order[a] == pre[a]);
                            if self@.changes_order[a] == id {
                                assert(pre.contains(id));
                            }
                        }
                    }
                }
                assert forall|k: u64| #[trigger] self@.changes_order.contains(k) implies self@.changes.contains_key(
                    k,
                ) by {
                    let j = choose|j: int|
                        0 <= j < self@.changes_order.len() && self@.changes_order[j] == k;
                    if j < self@.changes_order.len() - 1 {
                        assert(pre[j] == k);
                        assert(pre.contains(k));
                    }
                }
                assert forall|k: u64| self@.changes.contains_key(k) implies #[trigger] self@.changes_order.contains(
                    k,
                ) by {
                    if k == id {
                        assert(self@.changes_order[self@.changes_order.len() - 1] == k);
                    } else {
                        assert(pre.contains(k));
                        let j = choose|j: int| 0 <= j < pre.len() && pre[j] == k;
                        assert(self@.changes_order[j] == k);
                    }
                }
            }
        }
    }

    /// Drops the change record of `id`, if any.
    pub(crate) fn remove_change(&mut self, id: u64)
        requires
            old(self)@.wf(),
        ensures
            final(self)@.wf(),
            final(self)@ == (ClientStateView {
                changes: old(self)@.changes.remove(id),
                changes_order: old(self)@.changes_order.remove_value(id),
                ..old(self)@
            }),
    {
        let ghost pre = self@.changes_order;
        self.changes.remove(id);
        proof {
            pre.index_of_first_ensures(id);
            if pre.contains(id) {
                let j = pre.index_of_first(id).unwrap();
                pre.remove_ensures(j);
                let post = self@.changes_order;
                assert(post =~= pre.remove(j));
                assert(post.no_duplicates()) by {
                    assert forall|a: int, b: int| 0 <= a < b < post.len() implies post[a]
                        != post[b] by {
                        let a0 = if a < j {
                            a
                        } else {
                            a + 1
                        };
                        let b0 = if b < j {
                            b
                        } else {
                            b + 1
                        };
                        assert(post[a] == pre[a0]);
                        assert(post[b] == pre[b0]);
                    }
                }
                assert forall|k: u64| #[trigger] post.contains(k) implies self@.changes.contains_key(
                    k,
                ) by {
                    let c = choose|c: int| 0 <= c < post.len() && post[c] == k;
                    let c0 = if c < j {
                        c
                    } else {
                        c + 1
                    };
                    assert(pre[c0] == k);
                    assert(pre.contains(k));
                    assert(k != id) by {
                        if k == id {
                            assert(pre[c0] == pre[j]);
                        }
                    }
                }
                assert forall|k: u64| self@.changes.contains_key(k) implies #[trigger] post.contains(
                    k,
                ) by {
                    assert(pre.contains(k));
                    let c = choose|c: int| 0 <= c < pre.len() && pre[c] == k;
                    assert(k != id);
                    if c < j {
                        assert(post[c] == k);
                    } else {
                        assert(c != j);
                        assert(post[c - 1] == pre[c]);
                    }
                }
            }
        }
    }

    /// Drops every trace of `id`: metadata, body and change record.
    pub(crate) fn remove_file(&mut self, id: u64)
        requires
            old(self)@.wf(),
        ensures
            final(self)@.wf(),
            final(self)@ == (ClientStateView {
                files: old(self)@.files.remove(id),
                docs: old(self)@.docs.remove(id),
                changes: old(self)@.changes.remove(id),
                changes_order: old(self)@.changes_order.remove_value(id),
                ..old(self)@
            }),
    {
        self.remove_change(id);
        self.files.remove(id);
        self.docs.remove(id);
        proof {
            assert forall|k: u64| #[trigger] self@.changes.contains_key(k) implies self@.files.contains_key(
                k,
            ) by {
                assert(k != id);
            }
        }
    }

    /// Advances the checkpoint watermark. It never moves backwards.
    pub(crate) fn advance_checkpoint(&mut self, to: u64)
        requires
            old(self)@.wf(),
        ensures
            final(self)@.wf(),
            final(self)@ == (ClientStateView {
                checkpoint: if to > old(self)@.checkpoint {
                    to
                } else {
                    old(self)@.checkpoint
                },
                ..old(self)@
            }),
    {
        if to > self.checkpoint {
            self.checkpoint = to;
        }
        proof {
            assert(final(self)@ == (ClientStateView {
                checkpoint: if to > old(self)@.checkpoint {
                    to
                } else {
                    old(self)@.checkpoint
                },
                ..old(self)@
            }));
        }
    }

    /// The id the replica would mint next for a conflict copy.
    pub fn peek_next_id(&self) -> (r: u64)
        ensures
            r == self@.next_id,
    {
        self.next_id
    }

    /// Mints a fresh id for a conflict copy, or reports the id space
    /// exhausted.
    pub(crate) fn fresh_id(&mut self) -> (r: Option<u64>)
        requires
            old(self)@.wf(),
        ensures
            final(self)@.wf(),
            match r {
                Some(id) => id == old(self)@.next_id && old(self)@.next_id < u64::MAX
                    && final(self)@ == (ClientStateView {
                    next_id: (old(self)@.next_id + 1) as u64,
                    ..old(self)@
                }),
                None => old(self)@.next_id == u64::MAX && final(self)@ == old(self)@,
            },
    {
        if self.next_id == u64::MAX {
            None
        } else {
            let id = self.next_id;
            self.next_id = self.next_id + 1;
            Some(id)
        }
    }
}

impl ClientState {
    /// Clears the rename flag of `id`, dropping the record if nothing
    /// else is pending.
    pub(crate) fn untrack_rename(&mut self, id: u64)
        requires
            old(self)@.wf(),
        ensures
            final(self)@.wf(),
            ({
                let c1 = LocalChangeView { renamed: None, ..change_of(old(self)@.changes, id) };
                final(self)@ == (ClientStateView {
                    changes: if c1.is_clear() {
                        old(self)@.changes.remove(id)
                    } else {
                        old(self)@.changes.insert(id, c1)
                    },
                    changes_order: if c1.is_clear() {
                        old(self)@.changes_order.remove_value(id)
                    } else {
                        old(self)@.changes_order
                    },
                    ..old(self)@
                })
            }),
    {
        let c = match self.changes.get(id) {
            None => {
                proof {
                    old(self)@.changes_order.index_of_first_ensures(id);
                    assert(old(self)@.changes.remove(id) =~= old(self)@.changes);
                    assert(old(self)@.changes_order.remove_value(id) == old(self)@.changes_order);
                }
                return ;
            },
            Some(c) => c.dup(),
        };
        let c1 = LocalChange { renamed: None, ..c };
        if c1.is_clear() {
            self.remove_change(id);
        } else {
            self.insert_change(id, c1);
        }
    }

    /// Clears the move flag of `id`, dropping the record if nothing else
    /// is pending.
    pub(crate) fn untrack_move(&mut self, id: u64)
        requires
            old(self)@.wf(),
        ensures
            final(self)@.wf(),
            ({
                let c1 = LocalChangeView { moved: None, ..change_of(old(self)@.changes, id) };
                final(self)@ == (ClientStateView {
                    changes: if c1.is_clear() {
                        old(self)@.changes.remove(id)
                    } else {
                        old(self)@.changes.insert(id, c1)
                    },
                    changes_order: if c1.is_clear() {
                        old(self)@.changes_order.remove_value(id)
                    } else {
                        old(self)@.changes_order
                    },
                    ..old(self)@
                })
            }),
    {
        let c = match self.changes.get(id) {
            None => {
                proof {
                    old(self)@.changes_order.index_of_first_ensures(id);
                    assert(old(self)@.changes.remove(id) =~= old(self)@.changes);
                    assert(old(self)@.changes_order.remove_value(id) == old(self)@.changes_order);
                }
                return ;
            },
            Some(c) => c.dup(),
        };
        let c1 = LocalChange { moved: None, ..c };
        if c1.is_clear() {
            self.remove_change(id);
        } else {
            self.insert_change(id, c1);
        }
    }

    /// Clears the content-edit flag of `id`, dropping the record if
    /// nothing else is pending.
    pub(crate) fn untrack_edit(&mut self, id: u64)
        requires
            old(self)@.wf(),
        ensures
            final(self)@.wf(),
            ({
                let c1 = LocalChangeView {
                    content_edited: None,
                    ..change_of(old(self)@.changes, id)
                };
                final(self)@ == (ClientStateView {
                    changes: if c1.is_clear() {
                        old(self)@.changes.remove(id)
                    } else {
                        old(self)@.changes.insert(id, c1)
                    },
                    changes_order: if c1.is_clear() {
                        old(self)@.changes_order.remove_value(id)
                    } else {
                        old(self)@.changes_order
                    },
                    ..old(self)@
                })
            }),
    {
        let c = match self.changes.get(id) {
            None => {
                proof {
                    old(self)@.changes_order.index_of_first_ensures(id);
                    assert(old(self)@.changes.remove(id) =~= old(self)@.changes);
                    assert(old(self)@.changes_order.remove_value(id) == old(self)@.changes_order);
                }
                return ;
            },
            Some(c) => c.dup(),
        };
        let c1 = LocalChange { content_edited: None, ..c };
        if c1.is_clear() {
            self.remove_change(id);
        } else {
            self.insert_change(id, c1);
        }
    }

    /// Creates a document in the working copy and opens a `new` change
    /// record, so the next sync pushes it to the server.
    ///
    /// Fails with `IdTaken` exactly when the replica already holds the id.
    pub fn create_document_locally(&mut self, metadata: &FileMetadata, content: &Vec<u8>) -> (r:
        Result<(), ApiError>)
        requires
            old(self)@.wf(),
            metadata@.file_type == FileType::Document,
        ensures
            final(self)@.wf(),
            match r {
                Ok(()) => !old(self)@.files.contains_key(metadata@.id) && final(self)@ == (
                ClientStateView {
                    files: old(self)@.files.insert(metadata@.id, metadata@),
                    docs: old(self)@.docs.insert(metadata@.id, content@),
                    changes: old(self)@.changes.insert(
                        metadata@.id,
                        LocalChangeView { new: true, ..clear_change() },
                    ),
                    changes_order: old(self)@.changes_order.push(metadata@.id),
                    ..old(self)@
                }),
                Err(e) => e == ApiError::IdTaken && old(self)@.files.contains_key(metadata@.id)
                    && final(self)@ == old(self)@,
            },
    {
        if self.files.contains_key(metadata.id) {
            return Err(ApiError::IdTaken);
        }
        let id = metadata.id;
        self.insert_metadata(metadata.dup());
        self.insert_document(id, dup_bytes(content));
        let mut c = LocalChange::none();
        c.new = true;
        proof {
            assert(!old(self)@.changes.contains_key(id));
        }
        self.insert_change(id, c);
        Ok(())
    }

    /// Creates a folder in the working copy and opens a `new` change
    /// record.
    ///
    /// Fails with `IdTaken` exactly when the replica already holds the id.
    pub fn create_folder_locally(&mut self, metadata: &FileMetadata) -> (r: Result<(), ApiError>)
        requires
            old(self)@.wf(),
            metadata@.file_type == FileType::Folder,
        ensures
            final(self)@.wf(),
            match r {
                Ok(()) => !old(self)@.files.contains_key(metadata@.id) && final(self)@ == (
                ClientStateView {
                    files: old(self)@.files.insert(metadata@.id, metadata@),
                    changes: old(self)@.changes.insert(
                        metadata@.id,
                        LocalChangeView { new: true, ..clear_change() },
                    ),
                    changes_order: old(self)@.changes_order.push(metadata@.id),
                    ..old(self)@
                }),
                Err(e) => e == ApiError::IdTaken && old(self)@.files.contains_key(metadata@.id)
                    && final(self)@ == old(self)@,
            },
    {
        if self.files.contains_key(metadata.id) {
            return Err(ApiError::IdTaken);
        }
        let id = metadata.id;
        self.insert_metadata(metadata.dup());
        let mut c = LocalChange::none();
        c.new = true;
        proof {
            assert(!old(self)@.changes.contains_key(id));
        }
        self.insert_change(id, c);
        Ok(())
    }

    /// Replaces a document body in the working copy. The first edit since
    /// the last sync records the previous body as the merge ancestor; a
    /// locally new document needs no such record.
    ///
    /// Fails with `NotFound` exactly when the replica holds no such
    /// document body.
    pub fn write_document_locally(&mut self, id: u64, content: &Vec<u8>) -> (r: Result<
        (),
        ApiError,
    >)
        requires
            old(self)@.wf(),
        ensures
            final(self)@.wf(),
            match r {
                Ok(()) => ({
                    let c0 = change_of(old(self)@.changes, id);
                    let c1 = if c0.new || c0.content_edited is Some {
                        c0
                    } else {
                        LocalChangeView { content_edited: Some(old(self)@.docs[id]), ..c0 }
                    };
                    &&& old(self)@.files.contains_key(id)
                    &&& old(self)@.files[id].file_type == FileType::Document
                    &&& old(self)@.docs.contains_key(id)
                    &&& final(self)@ == (ClientStateView {
                        docs: old(self)@.docs.insert(id, content@),
                        changes: old(self)@.changes.insert(id, c1),
                        changes_order: if old(self)@.changes.contains_key(id) {
                            old(self)@.changes_order
                        } else {
                            old(self)@.changes_order.push(id)
                        },
                        ..old(self)@
                    })
                }),
                Err(e) => e == ApiError::NotFound && !(old(self)@.files.contains_key(id)
                    && old(self)@.files[id].file_type == FileType::Document
                    && old(self)@.docs.contains_key(id))
                    && final(self)@ == old(self)@,
            },
    {
        match self.files.get(id) {
            None => {
                return Err(ApiError::NotFound);
            },
            Some(m) => {
                if m.file_type != FileType::Document {
                    return Err(ApiError::NotFound);
                }
            },
        }
        let old_body = match self.docs.get(id) {
            None => {
                return Err(ApiError::NotFound);
            },
            Some(b) => dup_bytes(b),
        };
        let c0 = match self.changes.get(id) {
            None => LocalChange::none(),
            Some(c) => c.dup(),
        };
        let c1 = if c0.new || c0.content_edited.is_some() {
            c0
        } else {
            LocalChange { content_edited: Some(old_body), ..c0 }
        };
        self.insert_change(id, c1);
        self.insert_document(id, dup_bytes(content));
        Ok(())
    }

    /// Renames a file in the working copy. The first rename since the
    /// last sync records the previous name; a locally new file needs no
    /// such record.
    ///
    /// Fails with `NotFound` exactly when the replica holds no such file.
    pub fn rename_locally(&mut self, id: u64, new_name: &Vec<u8>) -> (r: Result<(), ApiError>)
        requires
            old(self)@.wf(),
        ensures
            final(self)@.wf(),
            match r {
                Ok(()) => ({
                    let c0 = change_of(old(self)@.changes, id);
                    let c1 = if c0.new || c0.renamed is Some {
                        c0
                    } else {
                        LocalChangeView { renamed: Some(old(self)@.files[id].name), ..c0 }
                    };
                    &&& old(self)@.files.contains_key(id)
                    &&& final(self)@ == (ClientStateView {
                        files: old(self)@.files.insert(
                            id,
                            FileMetadataView { name: new_name@, ..old(self)@.files[id] },
                        ),
                        changes: old(self)@.changes.insert(id, c1),
                        changes_order: if old(self)@.changes.contains_key(id) {
                            old(self)@.changes_order
                        } else {
                            old(self)@.changes_order.push(id)
                        },
                        ..old(self)@
                    })
                }),
                Err(e) => e == ApiError::NotFound && !old(self)@.files.contains_key(id) && final(self)@ == old(self)@,
            },
    {
        let cur = match self.files.get(id) {
            None => {
                return Err(ApiError::NotFound);
            },
            Some(m) => m.dup(),
        };
        let c0 = match self.changes.get(id) {
            None => LocalChange::none(),
            Some(c) => c.dup(),
        };
        let c1 = if c0.new || c0.renamed.is_some() {
            c0
        } else {
            LocalChange { renamed: Some(dup_bytes(&cur.name)), ..c0 }
        };
        self.insert_change(id, c1);
        let stored = FileMetadata { name: dup_bytes(new_name), ..cur };
        self.insert_metadata(stored);
        Ok(())
    }

    /// Moves a file in the working copy. The first move since the last
    /// sync records the previous parent; a locally new file needs no such
    /// record.
    ///
    /// Fails with `NotFound` exactly when the replica holds no such file.
    pub fn move_locally(&mut self, id: u64, new_parent: u64) -> (r: Result<(), ApiError>)
        requires
            old(self)@.wf(),
        ensures
            final(self)@.wf(),
            match r {
                Ok(()) => ({
                    let c0 = change_of(old(self)@.changes, id);
                    let c1 = if c0.new || c0.moved is Some {
                        c0
                    } else {
                        LocalChangeView { moved: Some(old(self)@.files[id].parent), ..c0 }
                    };
                    &&& old(self)@.files.contains_key(id)
                    &&& final(self)@ == (ClientStateView {
                        files: old(self)@.files.insert(
                            id,
                            FileMetadataView { parent: new_parent, ..old(self)@.files[id] },
                        ),
                        changes: old(self)@.changes.insert(id, c1),
                        changes_order: if old(self)@.changes.contains_key(id) {
                            old(self)@.changes_order
                        } else {
                            old(self)@.changes_order.push(id)
                        },
                        ..old(self)@
                    })
                }),
                Err(e) => e == ApiError::NotFound && !old(self)@.files.contains_key(id) && final(self)@ == old(self)@,
            },
    {
        let cur = match self.files.get(id) {
            None => {
                return Err(ApiError::NotFound);
            },
            Some(m) => m.dup(),
        };
        let c0 = match self.changes.get(id) {
            None => LocalChange::none(),
            Some(c) => c.dup(),
        };
        let c1 = if c0.new || c0.moved.is_some() {
            c0
        } else {
            LocalChange { moved: Some(cur.parent), ..c0 }
        };
        self.insert_change(id, c1);
        let stored = FileMetadata { parent: new_parent, ..cur };
        self.insert_metadata(stored);
        Ok(())
    }

    /// Tombstones a file in the working copy and marks the deletion
    /// pending, so the next sync pushes it.
    ///
    /// Fails with `NotFound` exactly when the replica holds no such file.
    pub fn delete_locally(&mut self, id: u64) -> (r: Result<(), ApiError>)
        requires
            old(self)@.wf(),
        ensures
            final(self)@.wf(),
            match r {
                Ok(()) => ({
                    let c1 = LocalChangeView {
                        deleted: true,
                        ..change_of(old(self)@.changes, id)
                    };
                    &&& old(self)@.files.contains_key(id)
                    &&& final(self)@ == (ClientStateView {
                        files: old(self)@.files.insert(
                            id,
                            FileMetadataView { deleted: true, ..old(self)@.files[id] },
                        ),
                        changes: old(self)@.changes.insert(id, c1),
                        changes_order: if old(self)@.changes.contains_key(id) {
                            old(self)@.changes_order
                        } else {
                            old(self)@.changes_order.push(id)
                        },
                        ..old(self)@
                    })
                }),
                Err(e) => e == ApiError::NotFound && !old(self)@.files.contains_key(id) && final(self)@ == old(self)@,
            },
    {
        let cur = match self.files.get(id) {
            None => {
                return Err(ApiError::NotFound);
            },
            Some(m) => m.dup(),
        };
        let c0 = match self.changes.get(id) {
            None => LocalChange::none(),
            Some(c) => c.dup(),
        };
        let c1 = LocalChange { deleted: true, ..c0 };
        self.insert_change(id, c1);
        let stored = FileMetadata { deleted: true, ..cur };
        self.insert_metadata(stored);
        Ok(())
    }
}

} // verus!
