//! The sync executor: applying one work unit, either pulling a server
//! change into the replica or pushing a pending local change to the
//! server.

use vstd::prelude::*;

use crate::client::ClientState;
use crate::client::ClientStateView;
use crate::client::change_of;
use crate::client::clear_change;
use crate::diffmerge::merge3_of;
use crate::errors::ApiError;
use crate::errors::SyncError;
use crate::merge::collides;
use crate::merge::fork_meta;
use crate::merge::merge_files;
use crate::merge::rename_local_conflicting_files;
use crate::merge::rename_tracked;
use crate::names::is_text_name;
use crate::names::name_conflict_name;
use crate::server::ServerState;
use crate::types::FileMetadata;
use crate::types::FileMetadataView;
use crate::types::FileType;
use crate::types::LocalChangeView;
use crate::types::dup_bytes;
use crate::work::WorkUnit;

verus! {

/// The replica's metadata map after the conflict namer has run against
/// the incoming record `m`: every collider renamed, everything else kept.
pub open spec fn after_conflicts_files(
    c: ClientStateView,
    m: FileMetadataView,
) -> Map<u64, FileMetadataView> {
    Map::new(
        |k: u64| c.files.contains_key(k),
        |k: u64|
            if collides(c, m, k) {
                FileMetadataView { name: name_conflict_name(c.files[k].name, k), ..c.files[k] }
            } else {
                c.files[k]
            },
    )
}

/// The change record of `k` after the conflict namer has run against the
/// incoming record `m`.
pub open spec fn after_conflicts_change(
    c: ClientStateView,
    m: FileMetadataView,
    k: u64,
) -> LocalChangeView {
    if collides(c, m, k) {
        rename_tracked(change_of(c.changes, k), c.files[k].name)
    } else {
        change_of(c.changes, k)
    }
}

/// Whether the server can hand out the body of document `id` at content
/// version `v`.
pub open spec fn serves_content(s: crate::server::ServerStateView, id: u64, v: u64) -> bool {
    &&& s.docs.contains_key(id)
    &&& s.files.contains_key(id)
    &&& s.files[id].content_version == v
}

/// Stores an incoming server record in the replica and, for a document,
/// fetches and stores its body at the record's content version.
///
/// Fails with the server's `NotFound`, and only that, exactly when the
/// body is unavailable at that version; the replica is then untouched,
/// so the record stays unconsumed and the next pass re-attempts it.
pub fn save_file_locally(
    client: &mut ClientState,
    server: &ServerState,
    metadata: &FileMetadata,
) -> (r: Result<(), SyncError>)
    requires
        old(client)@.wf(),
    ensures
        final(client)@.wf(),
        ({
            let c = old(client)@;
            let id = metadata@.id;
            match r {
                Ok(()) => {
                    &&& (metadata@.file_type == FileType::Document ==> serves_content(
                        server@,
                        id,
                        metadata@.content_version,
                    ) && final(client)@ == (ClientStateView {
                        files: c.files.insert(id, metadata@),
                        docs: c.docs.insert(id, server@.docs[id]),
                        ..c
                    }))
                    &&& (metadata@.file_type == FileType::Folder ==> final(client)@ == (
                    ClientStateView { files: c.files.insert(id, metadata@), ..c }))
                },
                Err(e) => {
                    &&& e == SyncError::Api(ApiError::NotFound)
                    &&& metadata@.file_type == FileType::Document
                    &&& !serves_content(server@, id, metadata@.content_version)
                    &&& final(client)@ == c
                },
            }
        }),
{
    proof {
        assert(metadata@.id == metadata.id);
    }
    if metadata.file_type == FileType::Document {
        let body = match server.get_document(metadata.id, metadata.content_version) {
            Err(e) => {
                return Err(SyncError::Api(e));
            },
            Ok(b) => b,
        };
        client.insert_metadata(metadata.dup());
        client.insert_document(metadata.id, body);
    } else {
        client.insert_metadata(metadata.dup());
    }
    Ok(())
}

/// Drops every local trace of a file the server has tombstoned:
/// metadata, body and pending change record.
pub fn delete_file_locally(client: &mut ClientState, metadata: &FileMetadata)
    requires
        old(client)@.wf(),
    ensures
        final(client)@.wf(),
        final(client)@ == (ClientStateView {
            files: old(client)@.files.remove(metadata@.id),
            docs: old(client)@.docs.remove(metadata@.id),
            changes: old(client)@.changes.remove(metadata@.id),
            changes_order: old(client)@.changes_order.remove_value(metadata@.id),
            ..old(client)@
        }),
{
    client.remove_file(metadata.id);
}

/// Everything [`handle_server_change`] guarantees, phrased over the
/// before and after states: `c`/`cf` are the client before and after,
/// `sv` the (unchanged) server, `m`/`mf` the incoming record before and
/// after, and `r` the outcome.
pub open spec fn server_change_outcome(
    c: ClientStateView,
    sv: crate::server::ServerStateView,
    cf: ClientStateView,
    m: FileMetadataView,
    mf: FileMetadataView,
    r: Result<(), SyncError>,
) -> bool {
    let id = m.id;
    let rec = c.changes.contains_key(id);
    let ch = change_of(c.changes, id);
    if rec && ch.new {
        // an incoming server record for an id the client believes it
        // created is a programmer-invariant violation: surfaced at once,
        // nothing touched, never merged
        &&& r == Err::<(), SyncError>(SyncError::Unexpected)
        &&& cf == c
        &&& mf == m
    } else {
            let af = after_conflicts_files(c, m);
            let known = c.files.contains_key(id);
            let local = c.files[id];
            let content_conflict = ch.content_edited is Some && local.content_version
                != m.content_version;
            let text = is_text_name(local.name);
            let local_ok = c.docs.contains_key(id);
            let server_ok = serves_content(sv, id, m.content_version);
            let fork_ok = c.next_id < u64::MAX && !c.files.contains_key(c.next_id);
            let fid = c.next_id;
            let merging = known && rec && !m.deleted && !ch.deleted;
            let forked = r is Ok && merging && content_conflict && !text;
            &&& cf.checkpoint == c.checkpoint
            &&& forall|k: u64|
                k != id && k != fid ==> (#[trigger] cf.files.contains_key(k)
                    == c.files.contains_key(k)) && (c.files.contains_key(k) ==> cf.files[k] == af[k])
            &&& forall|k: u64|
                k != id && k != fid ==> change_of(#[trigger] cf.changes, k)
                    == after_conflicts_change(c, m, k)
            &&& forall|k: u64|
                k != id && k != fid ==> (#[trigger] cf.docs.contains_key(k)
                    == c.docs.contains_key(k)) && (c.docs.contains_key(k) ==> cf.docs[k] == c.docs[k])
            &&& (!forked ==> cf.next_id == c.next_id && (fid != id ==> (cf.files.contains_key(fid) == c.files.contains_key(fid)) && (c.files.contains_key(fid)
                ==> cf.files[fid] == af[fid]) && change_of(
                cf.changes,
                fid,
            ) == after_conflicts_change(c, m, fid) && (cf.docs.contains_key(fid)
                == c.docs.contains_key(fid)) && (c.docs.contains_key(fid) ==> cf.docs[fid] == c.docs[fid])))
            &&& (!merging ==> mf == m)
            &&& match r {
                Ok(()) => {
                    &&& (!known && !m.deleted ==> {
                        &&& cf.files.contains_key(id)
                        &&& cf.files[id] == m
                        &&& (m.file_type == FileType::Document ==> server_ok && cf.docs.contains_key(id) && cf.docs[id] == sv.docs[id])
                        &&& (m.file_type == FileType::Folder ==> (cf.docs.contains_key(id) == c.docs.contains_key(id)) && (
                        c.docs.contains_key(id) ==> cf.docs[id] == c.docs[id]))
                    })
                    &&& (!known && m.deleted ==> !cf.files.contains_key(id) && (cf.docs.contains_key(id) == c.docs.contains_key(id)) && change_of(
                        cf.changes,
                        id,
                    ) == ch)
                    &&& (known && !rec && m.deleted ==> !cf.files.contains_key(id)
                        && !cf.docs.contains_key(id) && !cf.changes.contains_key(id))
                    &&& (known && !rec && !m.deleted ==> {
                        &&& cf.files.contains_key(id)
                        &&& cf.files[id] == m
                        &&& (m.file_type == FileType::Document ==> server_ok && cf.docs.contains_key(id) && cf.docs[id] == sv.docs[id])
                    })
                    &&& (known && rec && m.deleted ==> !cf.files.contains_key(id)
                        && !cf.docs.contains_key(id) && !cf.changes.contains_key(id))
                    &&& (known && rec && !m.deleted && ch.deleted ==> cf.files.contains_key(id)
                        && cf.files[id] == local && change_of(cf.changes, id) == ch && (
                        cf.docs.contains_key(id) == c.docs.contains_key(id)) && (
                        c.docs.contains_key(id) ==> cf.docs[id] == c.docs[id]))
                    &&& (merging ==> {
                        &&& mf == crate::merge::remote_after_merge(ch, local, m)
                        &&& cf.files.contains_key(id)
                        &&& cf.files[id] == crate::merge::remote_after_merge(
                            ch,
                            local,
                            m,
                        )
                        &&& change_of(cf.changes, id)
                            == crate::merge::change_after_merge(
                            ch,
                            m,
                            content_conflict && !text,
                        )
                        &&& (content_conflict ==> m.file_type != FileType::Folder && local_ok
                            && server_ok && (text || fork_ok))
                        &&& (content_conflict && text ==> cf.docs.contains_key(id)
                            && cf.docs[id] == merge3_of(
                            ch.content_edited->Some_0,
                            c.docs[id],
                            sv.docs[id],
                        ))
                        &&& (content_conflict && !text ==> {
                            &&& cf.files.contains_key(fid)
                            &&& cf.files[fid] == fork_meta(local, fid)
                            &&& cf.docs.contains_key(fid)
                            &&& cf.docs[fid] == c.docs[id]
                            &&& cf.docs.contains_key(id)
                            &&& cf.docs[id] == sv.docs[id]
                            &&& change_of(cf.changes, fid) == (LocalChangeView {
                                new: true,
                                ..clear_change()
                            })
                            &&& cf.next_id == c.next_id + 1
                        })
                        &&& (!content_conflict ==> (cf.docs.contains_key(id)
                            == c.docs.contains_key(id)) && (c.docs.contains_key(id) ==> cf.docs[id] == c.docs[id]))
                    })
                },
                Err(e) => {
                    &&& (!merging ==> {
                        &&& e == SyncError::Api(ApiError::NotFound)
                        &&& !server_ok
                        &&& m.file_type == FileType::Document
                        &&& !m.deleted
                        &&& (!known || !rec)
                        &&& (known ==> cf.files.contains_key(id) && cf.files[id] == af[id])
                        &&& (!known ==> !cf.files.contains_key(id))
                        &&& (cf.docs.contains_key(id) == c.docs.contains_key(id))
                        &&& (c.docs.contains_key(id) ==> cf.docs[id] == c.docs[id])
                        &&& change_of(cf.changes, id) == ch
                    })
                    &&& (merging ==> {
                        &&& content_conflict
                        &&& (e == SyncError::Unexpected || e == SyncError::Api(ApiError::NotFound))
                        &&& mf == crate::merge::remote_after_merge(ch, local, m)
                        &&& cf.files.contains_key(id)
                        &&& cf.files[id] == local
                        &&& change_of(cf.changes, id)
                            == crate::merge::change_after_merge(ch, m, false)
                        &&& (cf.docs.contains_key(id) == c.docs.contains_key(id))
                        &&& (c.docs.contains_key(id) ==> cf.docs[id] == c.docs[id])
                        &&& (e == SyncError::Unexpected <==> m.file_type == FileType::Folder
                            || !local_ok || (local_ok && server_ok && !text && !fork_ok))
                        &&& (e == SyncError::Api(ApiError::NotFound) <==> m.file_type
                            != FileType::Folder && local_ok && !server_ok)
                    })
                },
            }
    }
}

/// Applies one observed server change to the replica.
///
/// The conflict namer runs first, so the incoming record can never
/// produce two live siblings with one name. Then: an unknown id is
/// materialized locally (a tombstone for an unknown id is ignored); a
/// known id with no pending local change is overwritten (or dropped, for
/// a tombstone); a known id with a pending change is merged three-ways —
/// unless either side deleted, in which case the deletion wins and every
/// local trace is dropped.
///
/// An incoming record whose id the client believes it created locally is
/// a programmer-invariant violation: it fails at once with `Unexpected`
/// and the replica is untouched. Otherwise it fails only when a needed
/// document body cannot be fetched at the expected version, or with what
/// [`merge_files`] reports; the next work pass re-attempts the unit
/// against the changed world.
#[verifier::rlimit(100)]
#[verifier::spinoff_prover]
pub fn handle_server_change(
    client: &mut ClientState,
    server: &ServerState,
    metadata: &mut FileMetadata,
) -> (r: Result<(), SyncError>)
    requires
        old(client)@.wf(),
    ensures
        final(client)@.wf(),
        server_change_outcome(
            old(client)@,
            server@,
            final(client)@,
            old(metadata)@,
            final(metadata)@,
            r,
        ),
{
    let ghost c = old(client)@;
    let ghost m = old(metadata)@;
    match client.get_local_changes(metadata.id) {
        Some(lc) => {
            if lc.new {
                // spec-level invariant violation: a server change and a
                // locally new file share an id
                return Err(SyncError::Unexpected);
            }
        },
        None => {},
    }
    rename_local_conflicting_files(client, metadata);
    proof {
        assert(!collides(c, m, m.id));
        assert forall|k: u64| c.files.contains_key(k) implies client@.files[k]
            == after_conflicts_files(c, m)[k] by {
        }
        if c.files.contains_key(m.id) {
            assert(client@.files[m.id] == c.files[m.id]);
        }
        assert(change_of(client@.changes, m.id) == change_of(c.changes, m.id));
    }
    let ghost c1 = client@;
    let id = metadata.id;
    let local_metadata = match client.get_metadata(id) {
        None => {
            if !metadata.deleted {
                return save_file_locally(client, server, metadata);
            }
            return Ok(());
        },
        Some(lm) => lm.dup(),
    };
    let ch = match client.get_local_changes(id) {
        None => {
            if metadata.deleted {
                delete_file_locally(client, metadata);
                return Ok(());
            }
            return save_file_locally(client, server, metadata);
        },
        Some(lc) => lc.dup(),
    };
    proof {
        assert(local_metadata@ == c.files[id]);
        assert(ch@ == change_of(c.changes, id));
        assert(c.changes.contains_key(id));
    }
    if !ch.deleted && !metadata.deleted {
        let outcome = merge_files(client, server, metadata, &local_metadata, &ch);
        match outcome {
            Ok(()) => {
                client.insert_metadata(metadata.dup());
                proof {
                    lemma_merge_branch_frames(c, c1, client@, m, id);
                    assert(metadata@ == crate::merge::remote_after_merge(ch@, local_metadata@, m));
                    assert(client@.files.contains_key(id) && client@.files[id] == metadata@);
                    let content_conflict = ch@.content_edited is Some
                        && local_metadata@.content_version != m.content_version;
                    let text = is_text_name(local_metadata@.name);
                    assert(change_of(client@.changes, id) == crate::merge::change_after_merge(
                        ch@,
                        m,
                        content_conflict && !text,
                    ));
                }
                Ok(())
            },
            Err(e) => {
                proof {
                    lemma_merge_branch_frames(c, c1, client@, m, id);
                }
                Err(e)
            },
        }
    } else if metadata.deleted {
        delete_file_locally(client, metadata);
        proof {
            assert(!client@.files.contains_key(id));
            assert forall|k: u64|
                k != id implies change_of(#[trigger] client@.changes, k)
                    == after_conflicts_change(c, m, k) by {
                assert(change_of(client@.changes, k) =~= change_of(c1.changes, k));
            }
        }
        Ok(())
    } else {
        Ok(())
    }
}

/// Carries the conflict-namer frame facts across the merge branch: the
/// merge touches only the incoming id and a possible fork id.
proof fn lemma_merge_branch_frames(
    c: ClientStateView,
    c1: ClientStateView,
    cf: ClientStateView,
    m: FileMetadataView,
    id: u64,
)
    requires
        forall|k: u64|
            #[trigger] c1.files.contains_key(k) <==> c.files.contains_key(k),
        forall|k: u64|
            #[trigger] c.files.contains_key(k) ==> c1.files[k] == after_conflicts_files(c, m)[k],
        forall|k: u64|
            change_of(#[trigger] c1.changes, k) == after_conflicts_change(c, m, k),
        forall|k: u64|
            #[trigger] c1.changes.contains_key(k) <==> (c.changes.contains_key(k) || collides(
                c,
                m,
                k,
            )),
        c1.docs == c.docs,
        c1.next_id == c.next_id,
        // what the merge branch guarantees relative to the post-conflict state
        forall|k: u64|
            k != id && k != c1.next_id ==> change_of(#[trigger] cf.changes, k) == change_of(
                c1.changes,
                k,
            ) && (cf.changes.contains_key(k) == c1.changes.contains_key(k)),
        forall|k: u64|
            k != id && k != c1.next_id ==> (#[trigger] cf.files.contains_key(k)
                == c1.files.contains_key(k) || cf.files.contains_key(k)
                == c1.files.insert(c1.next_id, cf.files[c1.next_id]).contains_key(k)) && (
            c1.files.contains_key(k) && cf.files.contains_key(k) ==> cf.files[k] == c1.files[k]),
        forall|k: u64|
            k != id && k != c1.next_id ==> (#[trigger] cf.docs.contains_key(k)
                == c1.docs.contains_key(k)) && (c1.docs.contains_key(k) ==> cf.docs[k]
                == c1.docs[k]),
    ensures
        forall|k: u64|
            k != id && k != c.next_id ==> (#[trigger] cf.files.contains_key(k)
                == c.files.contains_key(k)) && (c.files.contains_key(k) ==> cf.files[k]
                == after_conflicts_files(c, m)[k]),
        forall|k: u64|
            k != id && k != c.next_id ==> change_of(#[trigger] cf.changes, k)
                == after_conflicts_change(c, m, k),
        forall|k: u64|
            k != id && k != c.next_id ==> (#[trigger] cf.docs.contains_key(k)
                == c.docs.contains_key(k)) && (c.docs.contains_key(k) ==> cf.docs[k] == c.docs[k]),
{
}

/// Everything [`handle_local_change`] guarantees, phrased over the
/// before and after states: `c`/`cf` are the client before and after,
/// `s`/`sf` the server before and after, `m`/`mf` the pushed record
/// before and after, and `r` the outcome.
pub open spec fn local_change_outcome(
    c: ClientStateView,
    s: crate::server::ServerStateView,
    cf: ClientStateView,
    sf: crate::server::ServerStateView,
    m: FileMetadataView,
    mf: FileMetadataView,
    r: Result<(), SyncError>,
) -> bool {
            let id = m.id;
            let rec = c.changes.contains_key(id);
            let ch = change_of(c.changes, id);
            let folder_delete = r is Ok && rec && ch.deleted && !ch.new && m.file_type
                == FileType::Folder;
            &&& cf.checkpoint == c.checkpoint
            &&& cf.next_id == c.next_id
            &&& sf.version_counter >= s.version_counter
            &&& mf.id == id
            &&& forall|k: u64|
                k != id ==> (#[trigger] cf.files.contains_key(k)
                    == c.files.contains_key(k)) && (c.files.contains_key(k) ==> cf.files[k] == c.files[k])
            &&& forall|k: u64|
                k != id ==> change_of(#[trigger] cf.changes, k) == change_of(
                    c.changes,
                    k,
                ) && (cf.changes.contains_key(k) == c.changes.contains_key(k))
            &&& forall|k: u64|
                k != id ==> (#[trigger] cf.docs.contains_key(k)
                    == c.docs.contains_key(k)) && (c.docs.contains_key(k) ==> cf.docs[k] == c.docs[k])
            &&& forall|k: u64|
                k != id ==> (#[trigger] sf.files.contains_key(k)
                    == s.files.contains_key(k))
            &&& (!folder_delete ==> forall|k: u64|
                k != id ==> (s.files.contains_key(k) ==> #[trigger] sf.files[k]
                    == s.files[k]) && (#[trigger] sf.docs.contains_key(k)
                    == s.docs.contains_key(k)) && (s.docs.contains_key(k) ==> sf.docs[k] == s.docs[k]))
            &&& (folder_delete ==> forall|k: u64|
                k != id && s.files.contains_key(k) ==> #[trigger] sf.files[k]
                    == s.files[k] || (sf.files[k].deleted && sf.files[k].metadata_version == sf.version_counter))
            &&& (!rec ==> r is Ok && cf == c && sf == s && mf == m)
            // single-step pushes succeed or fail exactly as the server's
            // own check decides on the starting state
            &&& (rec && ch.new && !ch.deleted ==> r == (
            if m.file_type == FileType::Document && !c.docs.contains_key(id) {
                Err::<(), SyncError>(SyncError::Unexpected)
            } else {
                match crate::server::create_check(s, id, m.parent, m.name) {
                    Some(ae) => Err(SyncError::Api(ae)),
                    None => Ok(()),
                }
            }))
            &&& (rec && !ch.new && !ch.deleted && ch.renamed is Some && ch.moved is None && (
            ch.content_edited is None || m.file_type == FileType::Folder) ==> r == (
            match crate::server::rename_check(s, id, m.metadata_version, m.name, m.file_type) {
                Some(ae) => Err::<(), SyncError>(SyncError::Api(ae)),
                None => Ok(()),
            }))
            &&& (rec && !ch.new && !ch.deleted && ch.renamed is None && ch.moved is Some && (
            ch.content_edited is None || m.file_type == FileType::Folder) ==> r == (
            match crate::server::move_check(s, id, m.metadata_version, m.parent, m.file_type) {
                Some(ae) => Err::<(), SyncError>(SyncError::Api(ae)),
                None => Ok(()),
            }))
            &&& (rec && !ch.new && !ch.deleted && ch.renamed is None && ch.moved is None
                && ch.content_edited is Some && m.file_type == FileType::Document ==> r == (
            if !c.docs.contains_key(id) {
                Err::<(), SyncError>(SyncError::Unexpected)
            } else {
                match crate::server::change_content_check(s, id, m.metadata_version) {
                    Some(ae) => Err(SyncError::Api(ae)),
                    None => Ok(()),
                }
            }))
            &&& (rec && !ch.new && ch.deleted && ch.renamed is None && ch.moved is None && (
            ch.content_edited is None || m.file_type == FileType::Folder) ==> r == (
            match crate::server::delete_check(s, id, m.file_type) {
                Some(ae) => Err::<(), SyncError>(SyncError::Api(ae)),
                None => Ok(()),
            }))
            // a file created and deleted again between syncs is discarded
            // without contacting the server; that never fails
            &&& (rec && ch.new && ch.deleted ==> r is Ok)
            // the only failure besides a typed server rejection is a
            // document whose body the replica does not hold
            &&& (r == Err::<(), SyncError>(SyncError::Unexpected) ==> m.file_type
                == FileType::Document && !c.docs.contains_key(id))
            // whatever else is pending, the first pending sub-change is
            // decided exactly by the server's own check on the starting
            // state: its typed rejection is the session's error, and its
            // flag is cleared exactly when it was accepted
            &&& (rec && !ch.new && ch.renamed is Some ==> {
                &&& (change_of(cf.changes, id).renamed is None <==> crate::server::rename_check(
                    s,
                    id,
                    m.metadata_version,
                    m.name,
                    m.file_type,
                ) is None)
                &&& (crate::server::rename_check(s, id, m.metadata_version, m.name, m.file_type)
                    is Some ==> r == Err::<(), SyncError>(
                    SyncError::Api(
                        crate::server::rename_check(
                            s,
                            id,
                            m.metadata_version,
                            m.name,
                            m.file_type,
                        )->Some_0,
                    ),
                ))
            })
            &&& (rec && !ch.new && ch.renamed is None && ch.moved is Some ==> {
                &&& (change_of(cf.changes, id).moved is None <==> crate::server::move_check(
                    s,
                    id,
                    m.metadata_version,
                    m.parent,
                    m.file_type,
                ) is None)
                &&& (crate::server::move_check(s, id, m.metadata_version, m.parent, m.file_type)
                    is Some ==> r == Err::<(), SyncError>(
                    SyncError::Api(
                        crate::server::move_check(
                            s,
                            id,
                            m.metadata_version,
                            m.parent,
                            m.file_type,
                        )->Some_0,
                    ),
                ))
            })
            &&& (rec && !ch.new && ch.renamed is None && ch.moved is None && ch.content_edited
                is Some && m.file_type == FileType::Document ==> {
                &&& (!c.docs.contains_key(id) ==> r == Err::<(), SyncError>(
                    SyncError::Unexpected,
                ))
                &&& (c.docs.contains_key(id) ==> (change_of(cf.changes, id).content_edited
                    is None <==> crate::server::change_content_check(s, id, m.metadata_version)
                    is None) && (crate::server::change_content_check(s, id, m.metadata_version)
                    is Some ==> r == Err::<(), SyncError>(
                    SyncError::Api(
                        crate::server::change_content_check(s, id, m.metadata_version)->Some_0,
                    ),
                )))
            })
            // sub-changes compose sequentially: flags are only ever
            // cleared, and a cleared flag means its push was accepted
            &&& (rec && !(ch.new && ch.deleted) ==> {
                let chf = change_of(cf.changes, id);
                &&& (chf.renamed is Some ==> chf.renamed == ch.renamed)
                &&& (chf.moved is Some ==> chf.moved == ch.moved)
                &&& (chf.content_edited is Some ==> chf.content_edited == ch.content_edited)
                &&& chf.new == (ch.new && r is Err)
                &&& chf.deleted == (ch.deleted && r is Err)
                &&& (ch.renamed is Some && chf.renamed is None ==> sf.files.contains_key(id)
                    && sf.files[id].name == m.name)
                &&& (ch.moved is Some && chf.moved is None ==> sf.files.contains_key(id)
                    && sf.files[id].parent == m.parent)
                &&& (ch.content_edited is Some && m.file_type == FileType::Document
                    && !ch.deleted && chf.content_edited is None ==> sf.docs.contains_key(id)
                    && sf.docs[id] == c.docs[id])
            })
            &&& match r {
                Ok(()) => {
                    &&& !cf.changes.contains_key(id)
                    &&& (rec && ch.new && ch.deleted ==> !cf.files.contains_key(id)
                        && sf == s)
                    &&& (rec && ch.deleted && !ch.new ==> !cf.files.contains_key(id)
                        && sf.files.contains_key(id) && sf.files[id].deleted)
                    &&& (rec && !ch.deleted && (ch.new || ch.renamed is Some || ch.moved is Some
                        || (ch.content_edited is Some && m.file_type == FileType::Document)) ==> {
                        &&& cf.files.contains_key(id)
                        &&& sf.files.contains_key(id)
                        &&& cf.files[id] == mf
                        &&& mf.metadata_version == sf.files[id].metadata_version
                        &&& (ch.new ==> sf.files[id] == (FileMetadataView {
                            metadata_version: sf.files[id].metadata_version,
                            content_version: sf.files[id].content_version,
                            deleted: false,
                            ..m
                        }) && sf.files[id].content_version == sf.files[id].metadata_version
                            && mf.content_version == mf.metadata_version && (m.file_type
                            == FileType::Document ==> sf.docs.contains_key(id) && sf.docs[id]
                            == c.docs[id]))
                        &&& (!ch.new && ch.renamed is Some ==> sf.files[id].name
                            == m.name)
                        &&& (!ch.new && ch.moved is Some && ch.renamed is None
                            ==> s.files.contains_key(id) && sf.files[id].name
                            == s.files[id].name)
                        &&& (!ch.new && ch.moved is Some ==> sf.files[id].parent
                            == m.parent)
                        &&& (!ch.new && ch.content_edited is Some && m.file_type
                            == FileType::Document ==> sf.docs.contains_key(id)
                            && sf.docs[id] == c.docs[id] && sf.files[id].content_version
                            == sf.files[id].metadata_version && mf.content_version
                            == mf.metadata_version)
                    })
                },
                Err(e) => rec && (e is Api || e == SyncError::Unexpected),
            }
}

/// Pushes one file's pending local changes to the server, sub-change by
/// sub-change in a fixed order: new, renamed, moved, content edit,
/// delete. Every accepted sub-change updates the local record to the
/// version the server issued and clears its flag, so a half-finished
/// push resumes where it stopped. A unit with no open change record is a
/// no-op: the record was resolved by an earlier server change.
///
/// A locally new file that was deleted again before its first push never
/// contacts the server: it is simply discarded.
///
/// Fails with a typed server rejection (stale version, taken path, and
/// so on) or with `Unexpected` when a document body is missing locally;
/// the next work pass re-attempts against the changed world.
#[verifier::rlimit(100)]
#[verifier::spinoff_prover]
pub fn handle_local_change(
    client: &mut ClientState,
    server: &mut ServerState,
    metadata: &mut FileMetadata,
) -> (r: Result<(), SyncError>)
    requires
        old(client)@.wf(),
        old(server)@.wf(),
    ensures
        final(client)@.wf(),
        final(server)@.wf(),
        local_change_outcome(
            old(client)@,
            old(server)@,
            final(client)@,
            final(server)@,
            old(metadata)@,
            final(metadata)@,
            r,
        ),
{
    let id = metadata.id;
    let mut ch = match client.get_local_changes(id) {
        None => {
            return Ok(());
        },
        Some(lc) => lc.dup(),
    };
    if ch.new {
        if ch.deleted {
            // the server never saw this file; discard it locally
            client.remove_file(id);
            return Ok(());
        }
        if metadata.file_type == FileType::Document {
            let content = match client.get_document(id) {
                None => {
                    return Err(SyncError::Unexpected);
                },
                Some(b) => dup_bytes(b),
            };
            let v = match server.create_document(&metadata, &content) {
                Err(e) => {
                    return Err(SyncError::Api(e));
                },
                Ok(v) => v,
            };
            metadata.metadata_version = v;
            metadata.content_version = v;
        } else {
            let v = match server.create_folder(&metadata) {
                Err(e) => {
                    return Err(SyncError::Api(e));
                },
                Ok(v) => v,
            };
            metadata.metadata_version = v;
            metadata.content_version = v;
        }
        client.insert_metadata(metadata.dup());
        client.remove_change(id);
        return Ok(());
    }
    if ch.renamed.is_some() {
        let v = if metadata.file_type == FileType::Document {
            match server.rename_document(id, metadata.metadata_version, &metadata.name) {
                Err(e) => {
                    return Err(SyncError::Api(e));
                },
                Ok(v) => v,
            }
        } else {
            match server.rename_folder(id, metadata.metadata_version, &metadata.name) {
                Err(e) => {
                    return Err(SyncError::Api(e));
                },
                Ok(v) => v,
            }
        };
        metadata.metadata_version = v;
        client.insert_metadata(metadata.dup());
        ch.renamed = None;
        if ch.is_clear() {
            client.remove_change(id);
        } else {
            client.insert_change(id, ch.dup());
        }
    }
    if ch.moved.is_some() {
        let v = if metadata.file_type == FileType::Document {
            match server.move_document(
                id,
                metadata.metadata_version,
                metadata.parent,
                &metadata.folder_access_key,
            ) {
                Err(e) => {
                    return Err(SyncError::Api(e));
                },
                Ok(v) => v,
            }
        } else {
            match server.move_folder(
                id,
                metadata.metadata_version,
                metadata.parent,
                &metadata.folder_access_key,
            ) {
                Err(e) => {
                    return Err(SyncError::Api(e));
                },
                Ok(v) => v,
            }
        };
        metadata.metadata_version = v;
        client.insert_metadata(metadata.dup());
        ch.moved = None;
        if ch.is_clear() {
            client.remove_change(id);
        } else {
            client.insert_change(id, ch.dup());
        }
    }
    if ch.content_edited.is_some() {
        if metadata.file_type == FileType::Document {
            let content = match client.get_document(id) {
                None => {
                    return Err(SyncError::Unexpected);
                },
                Some(b) => dup_bytes(b),
            };
            let v = match server.change_document_content(id, metadata.metadata_version, &content) {
                Err(e) => {
                    return Err(SyncError::Api(e));
                },
                Ok(v) => v,
            };
            metadata.metadata_version = v;
            metadata.content_version = v;
            client.insert_metadata(metadata.dup());
        }
        ch.content_edited = None;
        if ch.is_clear() {
            client.remove_change(id);
        } else {
            client.insert_change(id, ch.dup());
        }
    }
    if ch.deleted {
        let ghost smid = server@;
        proof {
            assert forall|k: u64| k != id implies (smid.files.contains_key(k) == old(
                server,
            )@.files.contains_key(k)) && (old(server)@.files.contains_key(k) ==> smid.files[k]
                == old(server)@.files[k]) && (smid.docs.contains_key(k) == old(
                server,
            )@.docs.contains_key(k)) && (old(server)@.docs.contains_key(k) ==> smid.docs[k] == old(
                server,
            )@.docs[k]) by {}
        }
        if metadata.file_type == FileType::Document {
            match server.delete_document(id) {
                Err(e) => {
                    return Err(SyncError::Api(e));
                },
                Ok(_) => {},
            }
        } else {
            match server.delete_folder(id) {
                Err(e) => {
                    return Err(SyncError::Api(e));
                },
                Ok(_) => {},
            }
            proof {
                assert(crate::server::chain_reaches(smid.files, id, id, 0));
                assert(crate::server::in_subtree(smid.files, id, id));
                assert(server@.files[id].deleted);
                assert forall|k: u64|
                    k != id && old(server)@.files.contains_key(k) implies #[trigger] server@.files[k]
                        == old(server)@.files[k] || (server@.files[k].deleted
                        && server@.files[k].metadata_version == server@.version_counter) by {
                    assert(smid.files.contains_key(k));
                    if crate::server::in_subtree(smid.files, k, id) {
                        assert(server@.files[k] == crate::server::tombed(
                            smid.files[k],
                            server@.version_counter,
                        ));
                    } else {
                        assert(server@.files[k] == smid.files[k]);
                    }
                }
            }
        }
        client.remove_file(id);
        return Ok(());
    }
    if client.get_local_changes(id).is_some() {
        // every flag is clear; drop the exhausted record
        client.remove_change(id);
    }
    Ok(())
}

/// Executes one work unit: a server change is pulled into the replica, a
/// local change is pushed to the server.
pub fn execute_work(client: &mut ClientState, server: &mut ServerState, work: WorkUnit) -> (r:
    Result<(), SyncError>)
    requires
        old(client)@.wf(),
        old(server)@.wf(),
    ensures
        final(client)@.wf(),
        final(server)@.wf(),
        final(client)@.checkpoint == old(client)@.checkpoint,
        final(server)@.version_counter >= old(server)@.version_counter,
        work@ is ServerChange ==> final(server)@ == old(server)@ && (exists|mf: FileMetadataView|
            server_change_outcome(
                old(client)@,
                old(server)@,
                final(client)@,
                crate::work::unit_meta(work@),
                mf,
                r,
            )),
        work@ is LocalChange ==> (exists|mf: FileMetadataView|
            local_change_outcome(
                old(client)@,
                old(server)@,
                final(client)@,
                final(server)@,
                crate::work::unit_meta(work@),
                mf,
                r,
            )),
        r is Ok && work@ is LocalChange ==> !final(client)@.changes.contains_key(
            crate::work::unit_meta(work@).id,
        ),
{
    match work {
        WorkUnit::LocalChange { mut metadata } => {
            let r = handle_local_change(client, server, &mut metadata);
            proof {
                assert(local_change_outcome(
                    old(client)@,
                    old(server)@,
                    client@,
                    server@,
                    crate::work::unit_meta(work@),
                    metadata@,
                    r,
                ));
            }
            r
        },
        WorkUnit::ServerChange { mut metadata } => {
            let r = handle_server_change(client, server, &mut metadata);
            proof {
                assert(server_change_outcome(
                    old(client)@,
                    old(server)@,
                    client@,
                    crate::work::unit_meta(work@),
                    metadata@,
                    r,
                ));
            }
            r
        },
    }
}

} // verus!
