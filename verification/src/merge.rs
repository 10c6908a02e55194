//! The merge engine: field-wise three-way metadata merge, sibling
//! conflict renaming, and document content merging.

use vstd::prelude::*;

use crate::client::ClientState;
use crate::client::ClientStateView;
use crate::client::change_of;
use crate::client::clear_change;
use crate::diffmerge::merge3_of;
use crate::diffmerge::merge_text;
use crate::errors::ApiError;
use crate::errors::SyncError;
use crate::names::is_text_name;
use crate::names::has_text_extension;
use crate::names::name_conflict_name;
use crate::names::make_name_conflict_name;
use crate::names::content_conflict_name;
use crate::names::make_content_conflict_name;
use crate::server::ServerState;
use crate::types::FileMetadata;
use crate::types::FileMetadataView;
use crate::types::FileType;
use crate::types::LocalChange;
use crate::types::LocalChangeView;
use crate::types::dup_bytes;

verus! {

/// The three-way rule for one metadata field: an untouched side yields to
/// the other side; when both sides changed, the remote value wins (the
/// server is authoritative).
pub open spec fn three_way<A>(base: A, local: A, remote: A) -> A {
    if local == base {
        remote
    } else if remote == base {
        local
    } else {
        remote
    }
}

/// The metadata that merging base, local and remote yields, each field
/// resolved on its own axis: name and parent by the three-way rule,
/// deletion by disjunction (a delete always wins), versions from the
/// remote record (the server is the version authority). Identity, owner
/// and key material stay with the base record.
pub open spec fn merged_meta(
    base: FileMetadataView,
    local: FileMetadataView,
    remote: FileMetadataView,
) -> FileMetadataView {
    FileMetadataView {
        id: base.id,
        file_type: base.file_type,
        parent: three_way(base.parent, local.parent, remote.parent),
        name: three_way(base.name, local.name, remote.name),
        owner: base.owner,
        metadata_version: remote.metadata_version,
        content_version: remote.content_version,
        deleted: base.deleted || local.deleted || remote.deleted,
        folder_access_key: base.folder_access_key,
    }
}

/// When both sides rename the same file to different names, the remote
/// name is kept: the merge never invents a third name and never keeps the
/// local one.
pub proof fn lemma_rename_tiebreak(
    base: FileMetadataView,
    local: FileMetadataView,
    remote: FileMetadataView,
)
    requires
        local.name != base.name,
        remote.name != base.name,
    ensures
        merged_meta(base, local, remote).name == remote.name,
{
}

/// A deletion on any of the three sides survives the merge: concurrent
/// edits never resurrect a deleted file.
pub proof fn lemma_delete_dominance(
    base: FileMetadataView,
    local: FileMetadataView,
    remote: FileMetadataView,
)
    requires
        base.deleted || local.deleted || remote.deleted,
    ensures
        merged_meta(base, local, remote).deleted,
{
}

/// Merges the three viewpoints of one file's metadata.
pub fn merge_metadata(base: &FileMetadata, local: &FileMetadata, remote: &FileMetadata) -> (r:
    FileMetadata)
    ensures
        r@ == merged_meta(base@, local@, remote@),
{
    let local_renamed = !(local.name == base.name);
    let remote_renamed = !(remote.name == base.name);
    let name = if !local_renamed {
        dup_bytes(&remote.name)
    } else if !remote_renamed {
        dup_bytes(&local.name)
    } else {
        dup_bytes(&remote.name)
    };
    let local_moved = local.parent != base.parent;
    let remote_moved = remote.parent != base.parent;
    let parent = if !local_moved {
        remote.parent
    } else if !remote_moved {
        local.parent
    } else {
        remote.parent
    };
    let deleted = base.deleted || local.deleted || remote.deleted;
    proof {
        if local@.name == base@.name {
            assert(local.name@ =~= base.name@);
        }
        if remote@.name == base@.name {
            assert(remote.name@ =~= base.name@);
        }
        if !local_renamed {
            assert(local.name@ =~= base.name@);
        }
        if !remote_renamed {
            assert(remote.name@ =~= base.name@);
        }
    }
    FileMetadata {
        id: base.id,
        file_type: base.file_type,
        parent,
        name,
        owner: dup_bytes(&base.owner),
        metadata_version: remote.metadata_version,
        content_version: remote.content_version,
        deleted,
        folder_access_key: dup_bytes(&base.folder_access_key),
    }
}

/// `k` is a live sibling of the incoming record `m` that carries `m`'s
/// name under `m`'s parent — the collision the conflict namer resolves.
pub open spec fn collides(c: ClientStateView, m: FileMetadataView, k: u64) -> bool {
    &&& c.files.contains_key(k)
    &&& k != m.id
    &&& !c.files[k].deleted
    &&& c.files[k].parent == m.parent
    &&& c.files[k].name == m.name
}

/// The change record after a local rename is tracked: the first rename
/// since the last sync remembers the old name; a locally new file and an
/// already-renamed file keep their record as it is.
pub open spec fn rename_tracked(c0: LocalChangeView, old_name: Seq<u8>) -> LocalChangeView {
    if c0.new || c0.renamed is Some {
        c0
    } else {
        LocalChangeView { renamed: Some(old_name), ..c0 }
    }
}

/// The change record of `k` after the conflict namer has processed the
/// ids in `processed` against the incoming record `m`.
pub open spec fn conflict_renamed_change(
    c0: ClientStateView,
    m: FileMetadataView,
    processed: Seq<u64>,
    k: u64,
) -> LocalChangeView {
    if collides(c0, m, k) && processed.contains(k) {
        rename_tracked(change_of(c0.changes, k), c0.files[k].name)
    } else {
        change_of(c0.changes, k)
    }
}

/// Renames every live local sibling that would collide with the incoming
/// server record `metadata`, to `<name>-NAME-CONFLICT-<id>`, and marks the
/// rename pending so it is pushed later. Afterwards no live sibling other
/// than the incoming file itself carries the incoming name.
#[verifier::rlimit(50)]
#[verifier::spinoff_prover]
pub fn rename_local_conflicting_files(client: &mut ClientState, metadata: &FileMetadata)
    requires
        old(client)@.wf(),
    ensures
        final(client)@.wf(),
        forall|k: u64|
            #[trigger] final(client)@.files.contains_key(k) <==> old(client)@.files.contains_key(k),
        forall|k: u64|
            #[trigger] old(client)@.files.contains_key(k) ==> final(client)@.files[k] == (
            if collides(old(client)@, metadata@, k) {
                FileMetadataView {
                    name: name_conflict_name(old(client)@.files[k].name, k),
                    ..old(client)@.files[k]
                }
            } else {
                old(client)@.files[k]
            }),
        forall|k: u64|
            change_of(#[trigger] final(client)@.changes, k) == (
            if collides(old(client)@, metadata@, k) {
                rename_tracked(change_of(old(client)@.changes, k), old(client)@.files[k].name)
            } else {
                change_of(old(client)@.changes, k)
            }),
        forall|k: u64|
            #[trigger] final(client)@.changes.contains_key(k) <==> (old(client)@.changes.contains_key(k) || collides(old(client)@, metadata@, k)),
        final(client)@.docs == old(client)@.docs,
        final(client)@.checkpoint == old(client)@.checkpoint,
        final(client)@.next_id == old(client)@.next_id,
        forall|k: u64|
            #[trigger] final(client)@.files.contains_key(k) && k != metadata@.id && !final(client)@.files[k].deleted && final(client)@.files[k].parent == metadata@.parent
                ==> final(client)@.files[k].name != metadata@.name,
{
    let ghost c0 = old(client)@;
    let ids = client.metadata_ids();
    let n = ids.len();
    let mut i: usize = 0;
    while i < n
        invariant
            client@.wf(),
            n == ids@.len(),
            i <= n,
            ids@.no_duplicates(),
            forall|k: u64| ids@.contains(k) <==> c0.files.contains_key(k),
            forall|k: u64|
                #[trigger] client@.files.contains_key(k) <==> c0.files.contains_key(k),
            forall|k: u64|
                #[trigger] c0.files.contains_key(k) ==> client@.files[k] == (
                if collides(c0, metadata@, k) && ids@.subrange(0, i as int).contains(k) {
                    FileMetadataView {
                        name: name_conflict_name(c0.files[k].name, k),
                        ..c0.files[k]
                    }
                } else {
                    c0.files[k]
                }),
            forall|k: u64|
                #[trigger] change_of(client@.changes, k) == conflict_renamed_change(
                    c0,
                    metadata@,
                    ids@.subrange(0, i as int),
                    k,
                ),
            forall|k: u64|
                #[trigger] client@.changes.contains_key(k) <==> (c0.changes.contains_key(k) || (
                collides(c0, metadata@, k) && ids@.subrange(0, i as int).contains(k))),
            client@.docs == c0.docs,
            client@.checkpoint == c0.checkpoint,
            client@.next_id == c0.next_id,
        decreases n - i,
    {
        let k = ids[i];
        proof {
            assert(ids@.contains(k));
            assert(!ids@.subrange(0, i as int).contains(k)) by {
                let sub = ids@.subrange(0, i as int);
                if sub.contains(k) {
                    let j = choose|j: int| 0 <= j < sub.len() && sub[j] == k;
                    assert(ids@[j] == ids@[i as int]);
                }
            }
        }
        let is_collider = if k == metadata.id {
            false
        } else {
            match client.get_metadata(k) {
                None => {
                    proof {
                        assert(false);
                    }
                    false
                },
                Some(m) => {
                    if !m.deleted && m.parent == metadata.parent && m.name == metadata.name {
                        proof {
                            assert(m@.name =~= metadata@.name);
                        }
                        true
                    } else {
                        false
                    }
                },
            }
        };
        proof {
            assert(is_collider == collides(c0, metadata@, k));
        }
        let ghost pre = client@;
        if is_collider {
            let old_name = match client.get_metadata(k) {
                None => {
                    proof {
                        assert(false);
                    }
                    Vec::new()
                },
                Some(m) => dup_bytes(&m.name),
            };
            let new_name = make_name_conflict_name(&old_name, k);
            proof {
                assert(old_name@ == c0.files[k].name);
            }
            let renamed = client.rename_locally(k, &new_name);
            proof {
                if renamed is Err {
                    assert(false);
                }
            }
        }
        i = i + 1;
        proof {
            let sub0 = ids@.subrange(0, i - 1);
            let sub1 = ids@.subrange(0, i as int);
            assert(sub1 =~= sub0.push(k));
            assert forall|x: u64| #[trigger] sub1.contains(x) implies (sub0.contains(x) || x
                == k) by {
                let j = choose|j: int| 0 <= j < sub1.len() && sub1[j] == x;
                if j < i - 1 {
                    assert(sub0[j] == x);
                }
            }
            assert forall|x: u64| sub0.contains(x) implies #[trigger] sub1.contains(x) by {
                let j = choose|j: int| 0 <= j < sub0.len() && sub0[j] == x;
                assert(sub1[j] == x);
            }
            assert(sub1.contains(k)) by {
                assert(sub1[sub1.len() - 1] == k);
            }
            let cur = client@;
            assert forall|k2: u64| #[trigger] c0.files.contains_key(k2) implies cur.files[k2] == (
            if collides(c0, metadata@, k2) && sub1.contains(k2) {
                FileMetadataView { name: name_conflict_name(c0.files[k2].name, k2), ..c0.files[k2] }
            } else {
                c0.files[k2]
            }) by {
                if k2 == k {
                    if collides(c0, metadata@, k) {
                        assert(pre.files[k] == c0.files[k]);
                        assert(cur.files[k].name == name_conflict_name(c0.files[k].name, k));
                    } else {
                        assert(cur.files[k2] == pre.files[k2]);
                    }
                } else {
                    assert(cur.files[k2] == pre.files[k2]);
                    assert(sub1.contains(k2) == sub0.contains(k2));
                }
            }
            assert forall|k2: u64| true implies #[trigger] change_of(cur.changes, k2)
                == conflict_renamed_change(c0, metadata@, sub1, k2) by {
                assert(change_of(pre.changes, k2) == conflict_renamed_change(
                    c0,
                    metadata@,
                    sub0,
                    k2,
                ));
                if k2 == k {
                    if collides(c0, metadata@, k) {
                        assert(pre.files[k] == c0.files[k]);
                        assert(change_of(pre.changes, k) =~= change_of(c0.changes, k));
                        assert(change_of(cur.changes, k) =~= rename_tracked(
                            change_of(c0.changes, k),
                            c0.files[k].name,
                        ));
                        assert(change_of(cur.changes, k) == rename_tracked(
                            change_of(c0.changes, k),
                            c0.files[k].name,
                        ));
                        assert(collides(c0, metadata@, k2) && sub1.contains(k2));
                    } else {
                        assert(cur.changes == pre.changes);
                        assert(change_of(cur.changes, k) =~= change_of(c0.changes, k));
                        assert(change_of(cur.changes, k) == change_of(c0.changes, k));
                        assert(!collides(c0, metadata@, k2));
                    }
                } else {
                    assert(change_of(cur.changes, k2) =~= change_of(pre.changes, k2));
                    assert(change_of(cur.changes, k2) == change_of(pre.changes, k2));
                    assert(sub1.contains(k2) == sub0.contains(k2));
                }
            }
        }
    }
    proof {
        assert(ids@.subrange(0, n as int) =~= ids@);
        assert forall|k: u64| true implies change_of(#[trigger] final(client)@.changes, k) == (
        if collides(old(client)@, metadata@, k) {
            rename_tracked(change_of(old(client)@.changes, k), old(client)@.files[k].name)
        } else {
            change_of(old(client)@.changes, k)
        }) by {
            assert(change_of(client@.changes, k) == conflict_renamed_change(
                c0,
                metadata@,
                ids@.subrange(0, n as int),
                k,
            ));
            if collides(c0, metadata@, k) {
                assert(ids@.contains(k));
                assert(ids@.subrange(0, n as int).contains(k));
            }
        }
        assert forall|k: u64|
            #[trigger] client@.files.contains_key(k) && k != metadata@.id && !client@.files[k].deleted
                && client@.files[k].parent == metadata@.parent implies client@.files[k].name
            != metadata@.name by {
            if collides(c0, metadata@, k) {
                assert(ids@.contains(k));
                assert(client@.files[k].name == name_conflict_name(c0.files[k].name, k));
                crate::names::lemma_dec_digits_nonempty(k as nat);
                assert(client@.files[k].name.len() > c0.files[k].name.len());
            } else {
                assert(client@.files[k] == c0.files[k]);
            }
        }
    }
}

/// The change record `ch` with its content-edit flag cleared.
pub open spec fn edit_cleared(ch: LocalChangeView) -> LocalChangeView {
    LocalChangeView { content_edited: None, ..ch }
}

/// The metadata of the fresh sibling that preserves the local bytes of a
/// binary content conflict: a new, never-synced document next to the
/// conflicted one.
pub open spec fn fork_meta(local: FileMetadataView, fid: u64) -> FileMetadataView {
    FileMetadataView {
        id: fid,
        file_type: FileType::Document,
        parent: local.parent,
        name: content_conflict_name(local.name, local.id),
        owner: local.owner,
        metadata_version: 0,
        content_version: 0,
        deleted: false,
        folder_access_key: local.folder_access_key,
    }
}

/// Resolves a true content conflict for one document: base, local and
/// remote bodies all differ.
///
/// A document with a plain-text name gets a line-based three-way merge of
/// (base body from the change record, current local body, current server
/// body); the merged text — conflict-marked if the edits overlapped —
/// replaces the local body and stays queued for push, so no edit is ever
/// dropped. Any other document is treated as binary: the local bytes move
/// to a fresh sibling named `<name>-CONTENT-CONFLICT-<id>` queued as a new
/// file, the server bytes replace the local body, and the edit flag is
/// cleared.
///
/// Fails with `Unexpected` when the replica lacks the local body, or when
/// a binary fork is impossible (id space exhausted, or the replica
/// already holds the id it would mint); fails with the server's
/// `NotFound` when the server no longer serves the requested content
/// version. On failure the replica is untouched.
pub fn merge_documents(
    client: &mut ClientState,
    server: &ServerState,
    metadata: &FileMetadata,
    local_metadata: &FileMetadata,
    change: &LocalChange,
) -> (r: Result<(), SyncError>)
    requires
        old(client)@.wf(),
        change@.content_edited is Some,
        old(client)@.files.contains_key(metadata@.id),
    ensures
        final(client)@.wf(),
        ({
            let id = metadata@.id;
            let c = old(client)@;
            let local_ok = c.docs.contains_key(id);
            let server_ok = server@.docs.contains_key(id) && server@.files.contains_key(id)
                && server@.files[id].content_version == metadata@.content_version;
            let text = is_text_name(local_metadata@.name);
            let fork_ok = c.next_id < u64::MAX && !c.files.contains_key(c.next_id);
            let fid = c.next_id;
            let c1 = edit_cleared(change_of(c.changes, id));
            match r {
                Ok(()) => {
                    &&& local_ok
                    &&& server_ok
                    &&& (text || fork_ok)
                    &&& (if text {
                        final(client)@ == (ClientStateView {
                            docs: c.docs.insert(
                                id,
                                merge3_of(
                                    change@.content_edited->Some_0,
                                    c.docs[id],
                                    server@.docs[id],
                                ),
                            ),
                            ..c
                        })
                    } else {
                        final(client)@ == (ClientStateView {
                            files: c.files.insert(fid, fork_meta(local_metadata@, fid)),
                            docs: c.docs.insert(fid, c.docs[id]).insert(id, server@.docs[id]),
                            changes: if c1.is_clear() {
                                c.changes.insert(
                                    fid,
                                    LocalChangeView { new: true, ..clear_change() },
                                ).remove(id)
                            } else {
                                c.changes.insert(
                                    fid,
                                    LocalChangeView { new: true, ..clear_change() },
                                ).insert(id, c1)
                            },
                            changes_order: if c1.is_clear() {
                                c.changes_order.push(fid).remove_value(id)
                            } else {
                                c.changes_order.push(fid)
                            },
                            next_id: (c.next_id + 1) as u64,
                            ..c
                        })
                    })
                },
                Err(e) => {
                    &&& final(client)@ == c
                    &&& (e == SyncError::Unexpected || e == SyncError::Api(ApiError::NotFound))
                    &&& (e == SyncError::Unexpected <==> !local_ok || (local_ok && server_ok
                        && !text && !fork_ok))
                    &&& (e == SyncError::Api(ApiError::NotFound) <==> local_ok && !server_ok)
                },
            }
        }),
{
    let id = metadata.id;
    let current = match client.get_document(id) {
        None => {
            return Err(SyncError::Unexpected);
        },
        Some(b) => dup_bytes(b),
    };
    let server_bytes = match server.get_document(id, metadata.content_version) {
        Err(e) => {
            proof {
                assert(e == ApiError::NotFound);
            }
            return Err(SyncError::Api(e));
        },
        Ok(b) => b,
    };
    if has_text_extension(&local_metadata.name) {
        let ancestor = match &change.content_edited {
            Some(a) => dup_bytes(a),
            None => {
                proof {
                    assert(false);
                }
                return Err(SyncError::Unexpected);
            },
        };
        let merged = merge_text(&ancestor, &current, &server_bytes);
        client.insert_document(id, merged);
        Ok(())
    } else {
        let fid = client.peek_next_id();
        if fid == u64::MAX {
            return Err(SyncError::Unexpected);
        }
        if client.get_metadata(fid).is_some() {
            return Err(SyncError::Unexpected);
        }
        let minted = client.fresh_id();
        proof {
            if minted is None {
                assert(false);
            }
        }
        let fork = FileMetadata {
            id: fid,
            file_type: FileType::Document,
            parent: local_metadata.parent,
            name: make_content_conflict_name(&local_metadata.name, local_metadata.id),
            owner: dup_bytes(&local_metadata.owner),
            metadata_version: 0,
            content_version: 0,
            deleted: false,
            folder_access_key: dup_bytes(&local_metadata.folder_access_key),
        };
        client.insert_metadata(fork);
        client.insert_document(fid, current);
        let mut fork_change = LocalChange::none();
        fork_change.new = true;
        proof {
            assert(!old(client)@.changes.contains_key(fid));
        }
        client.insert_change(fid, fork_change);
        client.insert_document(id, server_bytes);
        client.untrack_edit(id);
        proof {
            assert(change_of(old(client)@.changes.insert(
                fid,
                LocalChangeView { new: true, ..clear_change() },
            ), id) =~= change_of(old(client)@.changes, id));
        }
        Ok(())
    }
}

/// The base-viewpoint name of a file: the old value its change record
/// remembers, or the unchanged local name.
pub open spec fn rename_base(ch: LocalChangeView, local: FileMetadataView) -> Seq<u8> {
    match ch.renamed {
        Some(o) => o,
        None => local.name,
    }
}

/// The base-viewpoint parent of a file.
pub open spec fn move_base(ch: LocalChangeView, local: FileMetadataView) -> u64 {
    match ch.moved {
        Some(o) => o,
        None => local.parent,
    }
}

/// Reconciles one file that changed on both sides: resolves the name and
/// parent axes by the three-way rule directly on the remote record
/// `metadata` (clearing a local flag whenever the remote side wins a
/// tiebreak, so the lost change is never pushed), then resolves a true
/// content conflict through [`merge_documents`].
///
/// Fails with `Unexpected` on a folder whose content allegedly changed on
/// both sides, and with whatever [`merge_documents`] reports; the name
/// and parent axes are already resolved when that happens.
pub fn merge_files(
    client: &mut ClientState,
    server: &ServerState,
    metadata: &mut FileMetadata,
    local_metadata: &FileMetadata,
    change: &LocalChange,
) -> (r: Result<(), SyncError>)
    requires
        old(client)@.wf(),
        old(metadata)@.id == local_metadata@.id,
        old(client)@.files.contains_key(local_metadata@.id),
        change@ == change_of(old(client)@.changes, old(metadata)@.id),
    ensures
        final(client)@.wf(),
        ({
            let id = old(metadata)@.id;
            let c = old(client)@;
            let ch = change@;
            let remote = old(metadata)@;
            let local = local_metadata@;
            let exp_renamed: Option<Seq<u8>> = if ch.renamed is Some && remote.name
                != ch.renamed->Some_0 {
                None
            } else {
                ch.renamed
            };
            let exp_moved: Option<u64> = if ch.moved is Some && remote.parent
                != ch.moved->Some_0 {
                None
            } else {
                ch.moved
            };
            let content_conflict = ch.content_edited is Some && local.content_version
                != remote.content_version;
            let text = is_text_name(local.name);
            let local_ok = c.docs.contains_key(id);
            let server_ok = server@.docs.contains_key(id) && server@.files.contains_key(id)
                && server@.files[id].content_version == remote.content_version;
            let fork_ok = c.next_id < u64::MAX && !c.files.contains_key(c.next_id);
            let fid = c.next_id;
            &&& final(metadata)@ == (FileMetadataView {
                name: three_way(rename_base(ch, local), local.name, remote.name),
                parent: three_way(move_base(ch, local), local.parent, remote.parent),
                folder_access_key: if ch.moved is None {
                    remote.folder_access_key
                } else if remote.parent == move_base(ch, local) {
                    local.folder_access_key
                } else {
                    remote.folder_access_key
                },
                ..remote
            })
            &&& change_of(final(client)@.changes, id) == (LocalChangeView {
                new: ch.new,
                renamed: exp_renamed,
                moved: exp_moved,
                content_edited: if r is Ok && content_conflict && !text {
                    None
                } else {
                    ch.content_edited
                },
                deleted: ch.deleted,
            })
            &&& forall|k: u64|
                k != id && k != fid ==> change_of(#[trigger] final(client)@.changes, k)
                    == change_of(c.changes, k) && (final(client)@.changes.contains_key(k)
                    == c.changes.contains_key(k))
            &&& (!(r is Ok && content_conflict && !text) && fid != id ==> change_of(
                final(client)@.changes,
                fid,
            ) == change_of(c.changes, fid) && (final(client)@.changes.contains_key(fid)
                == c.changes.contains_key(fid)))
            &&& final(client)@.checkpoint == c.checkpoint
            &&& (match r {
                Ok(()) => {
                    &&& content_conflict ==> !(remote.file_type == FileType::Folder)
                    &&& content_conflict ==> local_ok && server_ok && (text || fork_ok)
                    &&& (if content_conflict && text {
                        &&& final(client)@.files == c.files
                        &&& final(client)@.docs == c.docs.insert(
                            id,
                            merge3_of(ch.content_edited->Some_0, c.docs[id], server@.docs[id]),
                        )
                        &&& final(client)@.next_id == c.next_id
                    } else if content_conflict {
                        &&& final(client)@.files == c.files.insert(fid, fork_meta(local, fid))
                        &&& final(client)@.docs == c.docs.insert(fid, c.docs[id]).insert(
                            id,
                            server@.docs[id],
                        )
                        &&& final(client)@.next_id == c.next_id + 1
                        &&& change_of(final(client)@.changes, fid) == (LocalChangeView {
                            new: true,
                            ..clear_change()
                        })
                    } else {
                        &&& final(client)@.files == c.files
                        &&& final(client)@.docs == c.docs
                        &&& final(client)@.next_id == c.next_id
                    })
                },
                Err(e) => {
                    &&& content_conflict
                    &&& (e == SyncError::Unexpected || e == SyncError::Api(ApiError::NotFound))
                    &&& final(client)@.files == c.files
                    &&& final(client)@.docs == c.docs
                    &&& final(client)@.next_id == c.next_id
                    &&& (e == SyncError::Unexpected <==> remote.file_type == FileType::Folder
                        || !local_ok || (local_ok && server_ok && !text && !fork_ok))
                    &&& (e == SyncError::Api(ApiError::NotFound) <==> remote.file_type
                        != FileType::Folder && local_ok && !server_ok)
                },
            })
        }),
{
    let id = metadata.id;
    let ghost c = old(client)@;
    let ghost ch = change@;
    match &change.renamed {
        Some(old_name) => {
            if !(metadata.name == *old_name) {
                proof {
                    assert(!(metadata.name@ =~= old_name@));
                }
                client.untrack_rename(id);
            } else {
                proof {
                    assert(metadata.name@ =~= old_name@);
                }
                metadata.name = dup_bytes(&local_metadata.name);
            }
        },
        None => {},
    }
    match change.moved {
        Some(old_parent) => {
            if metadata.parent != old_parent {
                client.untrack_move(id);
            } else {
                metadata.parent = local_metadata.parent;
                metadata.folder_access_key = dup_bytes(&local_metadata.folder_access_key);
            }
        },
        None => {},
    }
    proof {
        assert(change_of(client@.changes, id) == (LocalChangeView {
            renamed: if ch.renamed is Some && old(metadata)@.name != ch.renamed->Some_0 {
                None
            } else {
                ch.renamed
            },
            moved: if ch.moved is Some && old(metadata)@.parent != ch.moved->Some_0 {
                None
            } else {
                ch.moved
            },
            ..ch
        }));
    }
    match &change.content_edited {
        Some(_) => {
            if local_metadata.content_version != metadata.content_version {
                if metadata.file_type == FileType::Folder {
                    return Err(SyncError::Unexpected);
                }
                let ghost mid = client@;
                let outcome = merge_documents(client, server, metadata, local_metadata, change);
                match outcome {
                    Ok(()) => {
                        proof {
                            if !is_text_name(local_metadata@.name) {
                                assert(change_of(client@.changes, id) == edit_cleared(
                                    change_of(mid.changes, id),
                                ));
                            }
                        }
                        Ok(())
                    },
                    Err(e) => {
                        return Err(e);
                    },
                }
            } else {
                Ok(())
            }
        },
        None => Ok(()),
    }
}

/// The remote record after [`merge_files`] resolved the name and parent
/// axes against the base viewpoint reconstructed from the change record.
pub open spec fn remote_after_merge(
    ch: LocalChangeView,
    local: FileMetadataView,
    remote: FileMetadataView,
) -> FileMetadataView {
    FileMetadataView {
        name: three_way(rename_base(ch, local), local.name, remote.name),
        parent: three_way(move_base(ch, local), local.parent, remote.parent),
        folder_access_key: if ch.moved is None {
            remote.folder_access_key
        } else if remote.parent == move_base(ch, local) {
            local.folder_access_key
        } else {
            remote.folder_access_key
        },
        ..remote
    }
}

/// The change record after [`merge_files`]: a flag is cleared when the
/// remote side won that axis' tiebreak, and the edit flag is cleared when
/// a binary content conflict was resolved by forking.
pub open spec fn change_after_merge(
    ch: LocalChangeView,
    remote: FileMetadataView,
    binary_resolved: bool,
) -> LocalChangeView {
    LocalChangeView {
        new: ch.new,
        renamed: if ch.renamed is Some && remote.name != ch.renamed->Some_0 {
            None
        } else {
            ch.renamed
        },
        moved: if ch.moved is Some && remote.parent != ch.moved->Some_0 {
            None
        } else {
            ch.moved
        },
        content_edited: if binary_resolved {
            None
        } else {
            ch.content_edited
        },
        deleted: ch.deleted,
    }
}

} // verus!
