//! End-to-end reconciliation scenarios: idempotence, conflict handling
//! and watermark behaviour of whole sync sessions.

use lockbook_sync::client::ClientState;
use lockbook_sync::orchestrator::SyncConfig;
use lockbook_sync::orchestrator::SyncProgress;
use lockbook_sync::orchestrator::sync;
use lockbook_sync::server::ServerState;
use lockbook_sync::types::FileMetadata;
use lockbook_sync::types::FileType;

const ROOT: u64 = 1;

fn new_server() -> ServerState {
    ServerState::new(ROOT, &b"root".to_vec(), &b"owner".to_vec())
}

fn new_client() -> ClientState {
    ClientState::new(0, 1000)
}

fn config() -> SyncConfig {
    SyncConfig { max_retries: 10 }
}

fn meta(id: u64, parent: u64, name: &[u8], file_type: FileType) -> FileMetadata {
    FileMetadata {
        id,
        file_type,
        parent,
        name: name.to_vec(),
        owner: b"owner".to_vec(),
        metadata_version: 0,
        content_version: 0,
        deleted: false,
        folder_access_key: Vec::new(),
    }
}

fn run_sync(client: &mut ClientState, server: &mut ServerState, progress: &mut Vec<SyncProgress>) {
    sync(&config(), client, server, progress).unwrap();
}

/// Pulls an existing server document into a fresh client, so that both
/// sides agree and the change record store is empty.
fn synced_client_with_doc(
    server: &mut ServerState,
    id: u64,
    name: &[u8],
    body: &[u8],
) -> (ClientState, u64) {
    let version = server
        .create_document(&meta(id, ROOT, name, FileType::Document), &body.to_vec())
        .unwrap();
    let mut client = new_client();
    let mut progress = Vec::new();
    run_sync(&mut client, server, &mut progress);
    assert_eq!(client.get_document(id).unwrap(), &body.to_vec());
    (client, version)
}

#[test]
fn sync_twice_does_no_work_the_second_time() {
    let mut server = new_server();
    server
        .create_document(
            &meta(2, ROOT, b"a.md", FileType::Document),
            &b"hello".to_vec(),
        )
        .unwrap();
    let mut client = new_client();
    let mut progress = Vec::new();
    run_sync(&mut client, &mut server, &mut progress);
    let done_after_first = progress.len();
    assert!(done_after_first > 0);
    run_sync(&mut client, &mut server, &mut progress);
    assert_eq!(progress.len(), done_after_first);
}

#[test]
fn binary_conflict_loses_no_content() {
    let mut server = new_server();
    let (mut client, version) = synced_client_with_doc(&mut server, 2, b"img.bin", b"base-bytes");
    client
        .write_document_locally(2, &b"local-bytes".to_vec())
        .unwrap();
    server
        .change_document_content(2, version, &b"remote-bytes".to_vec())
        .unwrap();
    let mut progress = Vec::new();
    run_sync(&mut client, &mut server, &mut progress);

    // the conflicted id carries the server bytes
    assert_eq!(client.get_document(2).unwrap(), &b"remote-bytes".to_vec());
    // a fresh sibling preserves the local bytes
    let fork = 1000;
    assert_eq!(client.get_document(fork).unwrap(), &b"local-bytes".to_vec());
    let fork_meta = client.get_metadata(fork).unwrap();
    assert_eq!(fork_meta.parent, ROOT);
    assert_eq!(fork_meta.name, b"img.bin-CONTENT-CONFLICT-2".to_vec());
}

#[test]
fn text_merge_combines_non_overlapping_edits() {
    let mut server = new_server();
    let base = b"a\nb\nc\nd\ne\nf\ng\n";
    let (mut client, version) = synced_client_with_doc(&mut server, 2, b"notes.md", base);
    client
        .write_document_locally(2, &b"a\nX\nc\nd\ne\nf\ng\n".to_vec())
        .unwrap();
    server
        .change_document_content(2, version, &b"a\nb\nc\nd\ne\nY\ng\n".to_vec())
        .unwrap();
    let mut progress = Vec::new();
    run_sync(&mut client, &mut server, &mut progress);
    assert_eq!(
        client.get_document(2).unwrap(),
        &b"a\nX\nc\nd\ne\nY\ng\n".to_vec()
    );
}

#[test]
fn text_merge_with_overlapping_edits_keeps_both_sides() {
    let mut server = new_server();
    let (mut client, version) = synced_client_with_doc(&mut server, 2, b"notes.md", b"a\nb\nc\n");
    client.write_document_locally(2, &b"a\nX\nc\n".to_vec()).unwrap();
    server
        .change_document_content(2, version, &b"a\nb\nY\n".to_vec())
        .unwrap();
    let mut progress = Vec::new();
    run_sync(&mut client, &mut server, &mut progress);
    // edits on adjacent lines overlap for the merge primitive: the
    // result carries conflict markers, but neither side's line is lost
    let merged = client.get_document(2).unwrap();
    let text = String::from_utf8_lossy(merged).to_string();
    assert!(text.contains("X\n"));
    assert!(text.contains("Y\n"));
}

#[test]
fn rename_tiebreak_prefers_the_remote_name() {
    let mut server = new_server();
    let (mut client, version) = synced_client_with_doc(&mut server, 2, b"a.md", b"hello");
    client.rename_locally(2, &b"local.md".to_vec()).unwrap();
    server.rename_document(2, version, &b"remote.md".to_vec()).unwrap();
    let mut progress = Vec::new();
    run_sync(&mut client, &mut server, &mut progress);
    assert_eq!(client.get_metadata(2).unwrap().name, b"remote.md".to_vec());
    // the losing local rename flag is cleared, not pushed
    assert!(client.get_local_changes(2).is_none());
}

#[test]
fn local_delete_wins_over_remote_edit() {
    let mut server = new_server();
    let (mut client, version) = synced_client_with_doc(&mut server, 2, b"a.md", b"hello");
    client.delete_locally(2).unwrap();
    server
        .change_document_content(2, version, &b"remote-edit".to_vec())
        .unwrap();
    let mut progress = Vec::new();
    run_sync(&mut client, &mut server, &mut progress);
    // locally the file is gone
    assert!(client.get_metadata(2).is_none());
    assert!(client.get_document(2).is_none());
    // the server records the deletion
    let updates = server.get_updates(0);
    let record = updates.iter().find(|m| m.id == 2).unwrap();
    assert!(record.deleted);
}

#[test]
fn sibling_name_collision_is_renamed_away() {
    let mut server = new_server();
    let mut client = new_client();
    let mut progress = Vec::new();
    run_sync(&mut client, &mut server, &mut progress);

    client
        .create_document_locally(
            &meta(50, ROOT, b"dup.md", FileType::Document),
            &b"mine".to_vec(),
        )
        .unwrap();
    server
        .create_document(
            &meta(60, ROOT, b"dup.md", FileType::Document),
            &b"theirs".to_vec(),
        )
        .unwrap();
    run_sync(&mut client, &mut server, &mut progress);

    let incoming = client.get_metadata(60).unwrap();
    assert_eq!(incoming.name, b"dup.md".to_vec());
    let renamed = client.get_metadata(50).unwrap();
    assert_eq!(renamed.name, b"dup.md-NAME-CONFLICT-50".to_vec());

    // no two live siblings share a name
    let ids = client.metadata_ids();
    for i in 0..ids.len() {
        for j in 0..ids.len() {
            if i != j {
                let a = client.get_metadata(ids[i]).unwrap();
                let b = client.get_metadata(ids[j]).unwrap();
                if !a.deleted && !b.deleted && a.parent == b.parent {
                    assert_ne!(a.name, b.name);
                }
            }
        }
    }
}

#[test]
fn watermark_is_monotonic_and_held_back_by_failures() {
    let mut server = new_server();
    let mut client = new_client();
    let mut progress = Vec::new();
    run_sync(&mut client, &mut server, &mut progress);
    let after_first = client.checkpoint();

    server
        .create_document(
            &meta(2, ROOT, b"a.md", FileType::Document),
            &b"hello".to_vec(),
        )
        .unwrap();
    run_sync(&mut client, &mut server, &mut progress);
    let after_second = client.checkpoint();
    assert!(after_second >= after_first);

    // a locally new file whose id a third party has meanwhile taken on the
    // server cannot be pushed; the session fails and the watermark stays
    client
        .create_document_locally(
            &meta(7, ROOT, b"mine.md", FileType::Document),
            &b"mine".to_vec(),
        )
        .unwrap();
    server
        .create_document(
            &meta(7, ROOT, b"theirs.md", FileType::Document),
            &b"theirs".to_vec(),
        )
        .unwrap();
    let before_failing = client.checkpoint();
    let r = sync(&config(), &mut client, &mut server, &mut progress);
    assert!(r.is_err());
    let failure = r.err().unwrap();
    assert!(failure.errors.iter().any(|(id, _)| *id == 7));
    assert_eq!(client.checkpoint(), before_failing);
}
