//! The server endpoints: creation, content changes, renames, moves,
//! deletes and update feeds, with their typed rejections.

use lockbook_sync::errors::ApiError;
use lockbook_sync::server::ServerState;
use lockbook_sync::types::FileMetadata;
use lockbook_sync::types::FileType;

const ROOT: u64 = 1;

fn new_server() -> ServerState {
    ServerState::new(ROOT, &b"root".to_vec(), &b"owner".to_vec())
}

fn meta(id: u64, parent: u64, name: &[u8], file_type: FileType) -> FileMetadata {
    FileMetadata {
        id,
        file_type,
        parent,
        name: name.to_vec(),
        owner: b"owner".to_vec(),
        metadata_version: 0,
        content_version: 0,
        deleted: false,
        folder_access_key: Vec::new(),
    }
}

fn create_file(server: &mut ServerState, id: u64, name: &[u8]) -> Result<u64, ApiError> {
    server.create_document(
        &meta(id, ROOT, name, FileType::Document),
        &b"file_content".to_vec(),
    )
}

#[test]
fn test_create_file() {
    let mut server = new_server();
    assert!(matches!(create_file(&mut server, 10, b"file_name"), Ok(_)));
}

#[test]
fn test_create_file_duplicate_file_id() {
    let mut server = new_server();
    create_file(&mut server, 10, b"file_name").unwrap();
    let second = server.create_document(
        &meta(10, ROOT, b"file_name_2", FileType::Document),
        &b"file_content".to_vec(),
    );
    assert!(matches!(second, Err(ApiError::IdTaken)));
}

#[test]
fn test_create_file_duplicate_file_path() {
    let mut server = new_server();
    create_file(&mut server, 10, b"file_name").unwrap();
    let second = create_file(&mut server, 11, b"file_name");
    assert!(matches!(second, Err(ApiError::PathTaken)));
}

fn change_file_content_ok(server: &mut ServerState) -> Result<u64, ApiError> {
    let old_file_version = create_file(server, 10, b"file_name")?;
    server.change_document_content(10, old_file_version, &b"new_file_content".to_vec())
}

#[test]
fn new_account_test_test_change_file_content() {
    let mut server = new_server();
    assert!(matches!(change_file_content_ok(&mut server), Ok(_)));
}

#[test]
fn new_account_test_test_change_file_content_file_not_found() {
    let mut server = new_server();
    let r = server.change_document_content(10, 0, &b"new_file_content".to_vec());
    assert!(matches!(r, Err(ApiError::NotFound)));
}

#[test]
fn new_account_test_test_change_file_content_edit_conflict() {
    let mut server = new_server();
    create_file(&mut server, 10, b"file_name").unwrap();
    let r = server.change_document_content(10, 0, &b"new_file_content".to_vec());
    assert!(matches!(r, Err(ApiError::EditConflict)));
}

#[test]
fn new_account_test_test_change_file_content_file_deleted() {
    let mut server = new_server();
    let old_file_version = create_file(&mut server, 10, b"file_name").unwrap();
    server.delete_document(10).unwrap();
    let r = server.change_document_content(10, old_file_version, &b"new_file_content".to_vec());
    assert!(matches!(r, Err(ApiError::Deleted)));
}

#[test]
fn change_file_content_test_change_file_content() {
    let mut server = new_server();
    assert!(matches!(change_file_content_ok(&mut server), Ok(_)));
}

#[test]
fn change_file_content_test_change_file_content_file_not_found() {
    let mut server = new_server();
    let r = server.change_document_content(77, 0, &b"new_file_content".to_vec());
    assert!(matches!(r, Err(ApiError::NotFound)));
}

#[test]
fn change_file_content_test_change_file_content_edit_conflict() {
    let mut server = new_server();
    create_file(&mut server, 10, b"file_name").unwrap();
    let r = server.change_document_content(10, 0, &b"new_file_content".to_vec());
    assert!(matches!(r, Err(ApiError::EditConflict)));
}

#[test]
fn change_file_content_test_change_file_content_file_deleted() {
    let mut server = new_server();
    let old_file_version = create_file(&mut server, 10, b"file_name").unwrap();
    server.delete_document(10).unwrap();
    let r = server.change_document_content(10, old_file_version, &b"new_file_content".to_vec());
    assert!(matches!(r, Err(ApiError::Deleted)));
}

#[test]
fn test_rename_file() {
    let mut server = new_server();
    let v = create_file(&mut server, 10, b"file_name").unwrap();
    let r = server.rename_document(10, v, &b"new_file_name".to_vec());
    assert!(matches!(r, Ok(_)));
}

#[test]
fn test_rename_file_file_not_found() {
    let mut server = new_server();
    let r = server.rename_document(10, 0, &b"new_file_name".to_vec());
    assert!(matches!(r, Err(ApiError::NotFound)));
}

#[test]
fn test_rename_file_file_deleted() {
    let mut server = new_server();
    let v = create_file(&mut server, 10, b"file_name").unwrap();
    server.delete_document(10).unwrap();
    let r = server.rename_document(10, v, &b"new_file_name".to_vec());
    assert!(matches!(r, Err(ApiError::Deleted)));
}

#[test]
fn test_move_file() {
    let mut server = new_server();
    let v = create_file(&mut server, 10, b"file_name").unwrap();
    server
        .create_folder(&meta(20, ROOT, b"new_file_path", FileType::Folder))
        .unwrap();
    let r = server.move_document(10, v, 20, &Vec::new());
    assert!(matches!(r, Ok(_)));
}

#[test]
fn test_move_file_file_not_found() {
    let mut server = new_server();
    let r = server.move_document(10, 0, ROOT, &Vec::new());
    assert!(matches!(r, Err(ApiError::NotFound)));
}

#[test]
fn test_move_file_file_deleted() {
    let mut server = new_server();
    let v = create_file(&mut server, 10, b"file_name").unwrap();
    server.delete_document(10).unwrap();
    let r = server.move_document(10, v, ROOT, &Vec::new());
    assert!(matches!(r, Err(ApiError::Deleted)));
}

#[test]
fn test_move_file_file_path_taken() {
    let mut server = new_server();
    server
        .create_folder(&meta(20, ROOT, b"file_path_a", FileType::Folder))
        .unwrap();
    server
        .create_folder(&meta(21, ROOT, b"file_path_b", FileType::Folder))
        .unwrap();
    server
        .create_document(
            &meta(10, 20, b"file_name", FileType::Document),
            &b"file_content".to_vec(),
        )
        .unwrap();
    let v = server
        .create_document(
            &meta(11, 21, b"file_name", FileType::Document),
            &b"file_content".to_vec(),
        )
        .unwrap();
    let r = server.move_document(11, v, 20, &Vec::new());
    assert!(matches!(r, Err(ApiError::PathTaken)));
}

#[test]
fn test_delete_file() {
    let mut server = new_server();
    create_file(&mut server, 10, b"file_name").unwrap();
    assert!(matches!(server.delete_document(10), Ok(_)));
}

#[test]
fn test_delete_file_file_not_found() {
    let mut server = new_server();
    assert!(matches!(server.delete_document(10), Err(ApiError::NotFound)));
}

#[test]
fn test_delete_file_file_deleted() {
    let mut server = new_server();
    create_file(&mut server, 10, b"file_name").unwrap();
    server.delete_document(10).unwrap();
    assert!(matches!(server.delete_document(10), Err(ApiError::Deleted)));
}

#[test]
fn test_get_updates() {
    let mut server = new_server();
    let file_version = create_file(&mut server, 10, b"file_name").unwrap();
    // since the root folder itself sits at version 1, asking for
    // everything after it yields exactly the created file
    let updates_metadata = server.get_updates(1);
    assert!(updates_metadata.len() == 1);
    let m = &updates_metadata[0];
    assert_eq!(m.id, 10);
    assert_eq!(m.name, b"file_name".to_vec());
    assert_eq!(m.content_version, file_version);
    assert_eq!(m.metadata_version, file_version);
    assert!(!m.deleted);
}
