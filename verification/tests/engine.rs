//! Unit-level behaviour: metadata merging, conflict naming, work
//! calculation order, local edit tracking and error messages.

use lockbook_sync::client::ClientState;
use lockbook_sync::errors::ApiError;
use lockbook_sync::errors::ErrorKind;
use lockbook_sync::errors::SyncError;
use lockbook_sync::exec::handle_server_change;
use lockbook_sync::merge::merge_metadata;
use lockbook_sync::names::has_text_extension;
use lockbook_sync::names::make_content_conflict_name;
use lockbook_sync::names::make_name_conflict_name;
use lockbook_sync::server::ServerState;
use lockbook_sync::types::FileMetadata;
use lockbook_sync::types::FileType;
use lockbook_sync::work::WorkUnit;
use lockbook_sync::work::calculate_work;

const ROOT: u64 = 1;

fn meta(id: u64, parent: u64, name: &[u8], file_type: FileType) -> FileMetadata {
    FileMetadata {
        id,
        file_type,
        parent,
        name: name.to_vec(),
        owner: b"owner".to_vec(),
        metadata_version: 0,
        content_version: 0,
        deleted: false,
        folder_access_key: Vec::new(),
    }
}

fn base_doc() -> FileMetadata {
    let mut m = meta(2, ROOT, b"base.md", FileType::Document);
    m.metadata_version = 5;
    m.content_version = 5;
    m
}

#[test]
fn merge_keeps_the_only_renamed_side() {
    let base = base_doc();
    let mut local = base_doc();
    local.name = b"local.md".to_vec();
    let mut remote = base_doc();
    remote.metadata_version = 9;

    let merged = merge_metadata(&base, &local, &remote);
    assert_eq!(merged.name, b"local.md".to_vec());
    assert_eq!(merged.metadata_version, 9);

    let merged = merge_metadata(&base, &base_doc(), &{
        let mut r = base_doc();
        r.name = b"remote.md".to_vec();
        r
    });
    assert_eq!(merged.name, b"remote.md".to_vec());
}

#[test]
fn merge_tiebreaks_double_rename_to_the_remote_name() {
    let base = base_doc();
    let mut local = base_doc();
    local.name = b"local.md".to_vec();
    let mut remote = base_doc();
    remote.name = b"remote.md".to_vec();
    let merged = merge_metadata(&base, &local, &remote);
    assert_eq!(merged.name, b"remote.md".to_vec());
}

#[test]
fn merge_deletion_is_sticky() {
    let base = base_doc();
    let mut local = base_doc();
    local.deleted = true;
    let mut remote = base_doc();
    remote.content_version = 8;
    let merged = merge_metadata(&base, &local, &remote);
    assert!(merged.deleted);
    assert_eq!(merged.content_version, 8);
}

#[test]
fn merge_moves_follow_the_three_way_rule() {
    let base = base_doc();
    let mut local = base_doc();
    local.parent = 30;
    let remote = base_doc();
    let merged = merge_metadata(&base, &local, &remote);
    assert_eq!(merged.parent, 30);

    let mut remote_moved = base_doc();
    remote_moved.parent = 40;
    let merged = merge_metadata(&base, &local, &remote_moved);
    assert_eq!(merged.parent, 40);
}

#[test]
fn conflict_names_carry_the_id_in_decimal() {
    assert_eq!(
        make_name_conflict_name(&b"a".to_vec(), 907),
        b"a-NAME-CONFLICT-907".to_vec()
    );
    assert_eq!(
        make_name_conflict_name(&b"file".to_vec(), 0),
        b"file-NAME-CONFLICT-0".to_vec()
    );
    assert_eq!(
        make_content_conflict_name(&b"img.bin".to_vec(), 12345678901),
        b"img.bin-CONTENT-CONFLICT-12345678901".to_vec()
    );
}

#[test]
fn text_extensions_are_md_and_txt() {
    assert!(has_text_extension(&b"a.md".to_vec()));
    assert!(has_text_extension(&b"notes.txt".to_vec()));
    assert!(!has_text_extension(&b"a.bin".to_vec()));
    assert!(!has_text_extension(&b"md".to_vec()));
    assert!(!has_text_extension(&b"".to_vec()));
}

#[test]
fn work_orders_server_changes_by_version_before_local_changes() {
    let mut server = ServerState::new(ROOT, &b"root".to_vec(), &b"owner".to_vec());
    server
        .create_document(&meta(2, ROOT, b"a.md", FileType::Document), &b"a".to_vec())
        .unwrap();
    server
        .create_document(&meta(3, ROOT, b"b.md", FileType::Document), &b"b".to_vec())
        .unwrap();

    let mut client = ClientState::new(0, 1000);
    client
        .create_document_locally(&meta(70, ROOT, b"mine.md", FileType::Document), &b"m".to_vec())
        .unwrap();

    let work = calculate_work(&client, &server);
    // three server records (root and the two documents), then the one
    // pending local change
    assert_eq!(work.work_units.len(), 4);
    let mut last_version = 0;
    for i in 0..3 {
        match &work.work_units[i] {
            WorkUnit::ServerChange { metadata } => {
                assert!(metadata.metadata_version >= last_version);
                last_version = metadata.metadata_version;
            }
            WorkUnit::LocalChange { .. } => panic!("local change before server changes"),
        }
    }
    match &work.work_units[3] {
        WorkUnit::LocalChange { metadata } => assert_eq!(metadata.id, 70),
        WorkUnit::ServerChange { .. } => panic!("server change after local changes"),
    }
    assert_eq!(work.most_recent_update_from_server, last_version);
}

#[test]
fn tombstones_of_unknown_files_need_no_work() {
    let mut server = ServerState::new(ROOT, &b"root".to_vec(), &b"owner".to_vec());
    server
        .create_document(&meta(2, ROOT, b"a.md", FileType::Document), &b"a".to_vec())
        .unwrap();
    server.delete_document(2).unwrap();

    let client = ClientState::new(0, 1000);
    let work = calculate_work(&client, &server);
    // only the root folder demands work; the deleted document was never
    // seen by this client
    assert_eq!(work.work_units.len(), 1);
    match &work.work_units[0] {
        WorkUnit::ServerChange { metadata } => assert_eq!(metadata.id, ROOT),
        WorkUnit::LocalChange { .. } => panic!("unexpected local change"),
    }
}

#[test]
fn local_edits_track_old_values_once() {
    let mut client = ClientState::new(0, 1000);
    let mut root = meta(ROOT, ROOT, b"root", FileType::Folder);
    root.metadata_version = 1;
    // a fresh client learns the tree by syncing; here the root arrives as
    // a plain local creation for the purpose of the unit test
    client.create_folder_locally(&root).unwrap();
    client
        .create_document_locally(&meta(2, ROOT, b"a.md", FileType::Document), &b"one".to_vec())
        .unwrap();
    // a locally new file records no old values
    client.write_document_locally(2, &b"two".to_vec()).unwrap();
    client.rename_locally(2, &b"b.md".to_vec()).unwrap();
    let ch = client.get_local_changes(2).unwrap();
    assert!(ch.new);
    assert!(ch.renamed.is_none());
    assert!(ch.content_edited.is_none());
    assert_eq!(client.get_document(2).unwrap(), &b"two".to_vec());
    assert_eq!(client.get_metadata(2).unwrap().name, b"b.md".to_vec());
}

#[test]
fn rename_errors_on_unknown_ids() {
    let mut client = ClientState::new(0, 1000);
    assert!(matches!(
        client.rename_locally(9, &b"x".to_vec()),
        Err(ApiError::NotFound)
    ));
    assert!(matches!(
        client.write_document_locally(9, &b"x".to_vec()),
        Err(ApiError::NotFound)
    ));
    assert!(matches!(client.delete_locally(9), Err(ApiError::NotFound)));
    assert!(matches!(client.move_locally(9, ROOT), Err(ApiError::NotFound)));
}

#[test]
fn server_rejects_moving_a_folder_into_its_own_subtree() {
    let mut server = ServerState::new(ROOT, &b"root".to_vec(), &b"owner".to_vec());
    let va = server
        .create_folder(&meta(10, ROOT, b"a", FileType::Folder))
        .unwrap();
    server.create_folder(&meta(11, 10, b"b", FileType::Folder)).unwrap();
    let r = server.move_folder(10, va, 11, &Vec::new());
    assert!(matches!(r, Err(ApiError::CannotMoveIntoDescendant)));
}

#[test]
fn server_folder_delete_cascades_to_the_subtree() {
    let mut server = ServerState::new(ROOT, &b"root".to_vec(), &b"owner".to_vec());
    server.create_folder(&meta(10, ROOT, b"a", FileType::Folder)).unwrap();
    server
        .create_document(&meta(11, 10, b"inner.md", FileType::Document), &b"x".to_vec())
        .unwrap();
    server
        .create_document(&meta(12, ROOT, b"outer.md", FileType::Document), &b"y".to_vec())
        .unwrap();
    server.delete_folder(10).unwrap();
    let updates = server.get_updates(0);
    assert!(updates.iter().find(|m| m.id == 10).unwrap().deleted);
    assert!(updates.iter().find(|m| m.id == 11).unwrap().deleted);
    assert!(!updates.iter().find(|m| m.id == 12).unwrap().deleted);
    assert!(matches!(
        server.get_updates(0).iter().find(|m| m.id == ROOT),
        Some(_)
    ));
    assert!(matches!(server.delete_folder(ROOT), Err(ApiError::IllegalRootChange)));
}

#[test]
fn error_kinds_render_their_messages() {
    assert_eq!(
        ErrorKind::Unexpected("boom".to_string()).msg(),
        "boom".to_string()
    );
    assert_eq!(
        ErrorKind::InvalidCredentials("bad key".to_string()).msg(),
        "Your credentials were invalid: bad key".to_string()
    );
    assert_eq!(
        ErrorKind::NetworkIssues.msg(),
        "Could not reach Postgres and/or FilesDb!".to_string()
    );
    assert_eq!(
        ErrorKind::PostgressError("down".to_string()).msg(),
        "You were returned a postgres error: down".to_string()
    );
    assert_eq!(
        ErrorKind::FilesDbError("gone".to_string()).msg(),
        "You were returned a files db error: gone".to_string()
    );
}

#[test]
fn create_rejects_missing_or_deleted_parents() {
    let mut server = ServerState::new(ROOT, &b"root".to_vec(), &b"owner".to_vec());
    let r = server.create_document(
        &meta(10, 99, b"a.md", FileType::Document),
        &b"x".to_vec(),
    );
    assert!(matches!(r, Err(ApiError::ParentNotFound)));

    let vf = server
        .create_folder(&meta(20, ROOT, b"dir", FileType::Folder))
        .unwrap();
    let v10 = server
        .create_document(&meta(10, ROOT, b"a.md", FileType::Document), &b"x".to_vec())
        .unwrap();
    // a folder tombstone still exists, so moving into it is a distinct error
    let _ = vf;
    server.delete_folder(20).unwrap();
    let r = server.move_document(10, v10, 20, &Vec::new());
    assert!(matches!(r, Err(ApiError::ParentDeleted)));
}

#[test]
fn get_document_serves_only_the_current_version() {
    let mut server = ServerState::new(ROOT, &b"root".to_vec(), &b"owner".to_vec());
    let v = server
        .create_document(&meta(10, ROOT, b"a.md", FileType::Document), &b"one".to_vec())
        .unwrap();
    assert_eq!(server.get_document(10, v).unwrap(), b"one".to_vec());
    let v2 = server
        .change_document_content(10, v, &b"two".to_vec())
        .unwrap();
    assert!(matches!(server.get_document(10, v), Err(ApiError::NotFound)));
    assert_eq!(server.get_document(10, v2).unwrap(), b"two".to_vec());
}

#[test]
fn server_change_for_a_locally_new_id_is_fatal() {
    let mut server = ServerState::new(ROOT, &b"root".to_vec(), &b"owner".to_vec());
    server
        .create_document(&meta(7, ROOT, b"theirs.md", FileType::Document), &b"t".to_vec())
        .unwrap();
    let mut client = ClientState::new(0, 1000);
    client
        .create_folder_locally(&meta(ROOT, ROOT, b"root", FileType::Folder))
        .unwrap();
    client
        .create_document_locally(&meta(7, ROOT, b"mine.md", FileType::Document), &b"m".to_vec())
        .unwrap();

    let mut incoming = server
        .get_updates(1)
        .into_iter()
        .find(|m| m.id == 7)
        .unwrap();
    let r: Result<(), SyncError> = handle_server_change(&mut client, &server, &mut incoming);
    assert!(matches!(r, Err(SyncError::Unexpected)));
    // the replica is untouched: the local file keeps its own name and body
    assert_eq!(client.get_metadata(7).unwrap().name, b"mine.md".to_vec());
    assert_eq!(client.get_document(7).unwrap(), &b"m".to_vec());
    assert!(client.get_local_changes(7).unwrap().new);
}
