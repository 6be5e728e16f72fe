use airsend::model::{DeviceInfo, FileMetadata};
use airsend::session::{file_ids_unique, SessionManager, MAX_SESSIONS};
use airsend::TransferError;

fn device(alias: &str) -> DeviceInfo {
    DeviceInfo { alias: alias.to_string(), device_model: Some("Pixel".to_string()) }
}

fn file(id: &str, name: &str, size: u64, mime: &str) -> FileMetadata {
    FileMetadata {
        id: id.to_string(),
        file_name: name.to_string(),
        size,
        file_type: mime.to_string(),
        sha256: None,
        preview: None,
    }
}

fn one_session(mgr: &mut SessionManager, fid: &str, name: &str, mime: &str) -> (String, String) {
    let files = vec![file(fid, name, 5, mime)];
    let resp = mgr.create(files, device("sender"), device("receiver"), "192.168.1.9:53317".to_string(), "http".to_string());
    assert_eq!(resp.files.len(), 1);
    assert_eq!(resp.files[0].0, fid);
    (resp.session_id, resp.files[0].1.clone())
}

#[test]
fn accept_bytes_succeeds_with_exact_token() {
    let mut mgr = SessionManager::new();
    let (sid, token) = one_session(&mut mgr, "f1", "photo.jpg", "image/jpeg");
    let meta = mgr.accept_bytes(&sid, "f1", &token).expect("valid triple must be accepted");
    assert_eq!(meta.file_name, "photo.jpg");
    assert_eq!(meta.file_type, "image/jpeg");
    assert_eq!(meta.size, 5);
}

#[test]
fn accept_bytes_fails_closed_on_every_axis() {
    let mut mgr = SessionManager::new();
    let (sid, token) = one_session(&mut mgr, "f1", "photo.jpg", "image/jpeg");

    // Unknown session.
    assert!(matches!(mgr.accept_bytes("nope", "f1", &token), Err(TransferError::SessionNotFound)));
    // Wrong file id: the token was not minted for it.
    assert!(matches!(mgr.accept_bytes(&sid, "f2", &token), Err(TransferError::InvalidToken)));
    // Wrong token for the right file.
    assert!(matches!(
        mgr.accept_bytes(&sid, "f1", "not-the-token"),
        Err(TransferError::InvalidToken)
    ));
    // Empty token never matches a minted one.
    assert!(matches!(mgr.accept_bytes(&sid, "f1", ""), Err(TransferError::InvalidToken)));
}

#[test]
fn token_of_one_file_does_not_open_another() {
    let mut mgr = SessionManager::new();
    let files = vec![
        file("f1", "a.bin", 1, "application/octet-stream"),
        file("f2", "b.bin", 2, "application/octet-stream"),
    ];
    assert!(file_ids_unique(&files));
    let resp = mgr.create(files, device("s"), device("r"), "10.0.0.2:1".to_string(), "http".to_string());
    let t1 = resp.files.iter().find(|p| p.0 == "f1").unwrap().1.clone();
    let t2 = resp.files.iter().find(|p| p.0 == "f2").unwrap().1.clone();
    assert!(mgr.accept_bytes(&resp.session_id, "f1", &t1).is_ok());
    assert!(mgr.accept_bytes(&resp.session_id, "f2", &t2).is_ok());
    if t1 != t2 {
        assert!(matches!(
            mgr.accept_bytes(&resp.session_id, "f2", &t1),
            Err(TransferError::InvalidToken)
        ));
    }
}

#[test]
fn inactive_session_rejects_bytes() {
    let mut mgr = SessionManager::new();
    let (sid, token) = one_session(&mut mgr, "f1", "a.txt", "text/plain");
    assert!(mgr.cancel(&sid).is_ok());
    assert!(matches!(mgr.accept_bytes(&sid, "f1", &token), Err(TransferError::SessionInactive)));
}

#[test]
fn cancel_is_idempotent() {
    let mut mgr = SessionManager::new();
    let (sid, token) = one_session(&mut mgr, "f1", "a.txt", "text/plain");
    assert_eq!(mgr.cancel(&sid), Ok(()));
    // The second cancel never errors and the session stays cancelled.
    assert_eq!(mgr.cancel(&sid), Ok(()));
    assert!(matches!(mgr.accept_bytes(&sid, "f1", &token), Err(TransferError::SessionInactive)));
}

#[test]
fn cancel_unknown_session_is_an_error() {
    let mut mgr = SessionManager::new();
    assert_eq!(mgr.cancel("ghost"), Err(TransferError::SessionNotFound));
}

#[test]
fn session_ids_are_uuid_shaped() {
    let mut mgr = SessionManager::new();
    let (sid, token) = one_session(&mut mgr, "f1", "a.txt", "text/plain");
    assert_eq!(sid.chars().count(), 36);
    assert_eq!(token.chars().count(), 36);
}

#[test]
fn session_set_is_capped_with_oldest_evicted() {
    let mut mgr = SessionManager::new();
    let (first_sid, _) = one_session(&mut mgr, "f1", "a.txt", "text/plain");
    let mut sids: Vec<String> = Vec::new();
    for _ in 0..MAX_SESSIONS {
        let (sid, _) = one_session(&mut mgr, "f1", "a.txt", "text/plain");
        sids.push(sid);
    }
    assert_eq!(mgr.len(), MAX_SESSIONS);
    // The very first session was the oldest and has been evicted.
    assert_eq!(mgr.cancel(&first_sid), Err(TransferError::SessionNotFound));
    // The youngest is still tracked.
    assert_eq!(mgr.cancel(sids.last().unwrap()), Ok(()));
}

#[test]
fn duplicate_file_ids_are_detected() {
    let dup = vec![file("f1", "a", 1, "x"), file("f1", "b", 2, "y")];
    assert!(!file_ids_unique(&dup));
    let ok = vec![file("f1", "a", 1, "x"), file("f2", "b", 2, "y")];
    assert!(file_ids_unique(&ok));
}
