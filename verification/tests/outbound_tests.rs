use airsend::idgen::fresh_sync_file_id;
use airsend::model::{DeviceInfo, FileMetadata, PeerInfo};
use airsend::outbound::{
    cancel_request, cancel_response_outcome, mime_for_name, prepare_request, record_outbound_session,
    resolve_step, text_file_metadata, upload_request, upload_response_outcome, ResolveOutcome,
    RESOLVE_RETRY_LIMIT,
};
use airsend::registry::PeerRegistry;
use airsend::session::SessionManager;
use airsend::TransferError;

fn peer(id: &str, addr: &str) -> PeerInfo {
    PeerInfo {
        id: id.to_string(),
        address: addr.to_string(),
        protocol: "https".to_string(),
        info: DeviceInfo { alias: format!("{} alias", id), device_model: None },
    }
}

fn file(id: &str, name: &str, size: u64, mime: &str) -> FileMetadata {
    FileMetadata {
        id: id.to_string(),
        file_name: name.to_string(),
        size,
        file_type: mime.to_string(),
        sha256: None,
        preview: None,
    }
}

#[test]
fn empty_registry_fails_after_exactly_the_retry_bound() {
    let reg = PeerRegistry::new();
    let target: Option<String> = None;
    // Every attempt below the bound asks for another try ...
    for attempts in 0..RESOLVE_RETRY_LIMIT {
        assert!(matches!(
            resolve_step(&reg, &target, attempts),
            ResolveOutcome::RetryAfterDelay
        ));
    }
    // ... and the attempt at the bound gives up, with NoTargetFound.
    assert!(matches!(
        resolve_step(&reg, &target, RESOLVE_RETRY_LIMIT),
        ResolveOutcome::GiveUp(TransferError::NoTargetFound)
    ));
    // The same holds when an explicit target is named.
    let named: Option<String> = Some("mac".to_string());
    assert!(matches!(resolve_step(&reg, &named, 0), ResolveOutcome::RetryAfterDelay));
    assert!(matches!(
        resolve_step(&reg, &named, RESOLVE_RETRY_LIMIT),
        ResolveOutcome::GiveUp(TransferError::NoTargetFound)
    ));
}

#[test]
fn resolution_picks_named_target_or_first_peer() {
    let mut reg = PeerRegistry::new();
    reg.upsert(peer("one", "10.0.0.1:53317"));
    reg.upsert(peer("two", "10.0.0.2:53317"));
    match resolve_step(&reg, &None, 0) {
        ResolveOutcome::Found(p) => assert_eq!(p.id, "one"),
        _ => panic!("a known peer must resolve immediately"),
    }
    match resolve_step(&reg, &Some("two".to_string()), 7) {
        ResolveOutcome::Found(p) => {
            assert_eq!(p.id, "two");
            assert_eq!(p.address, "10.0.0.2:53317");
        },
        _ => panic!("a named known peer must resolve immediately"),
    }
}

#[test]
fn prepare_request_builds_url_or_fails() {
    let mut reg = PeerRegistry::new();
    reg.upsert(peer("mac", "192.168.1.7:53317"));
    let (p, url) = prepare_request(&reg, "mac").expect("known peer");
    assert_eq!(p.id, "mac");
    assert_eq!(url, "https://192.168.1.7:53317/api/localsend/v2/prepare-upload");
    assert!(matches!(prepare_request(&reg, "ghost"), Err(TransferError::PeerNotFound)));
}

#[test]
fn outbound_session_round_trip() {
    let mut mgr = SessionManager::new();
    let me = DeviceInfo { alias: "phone".to_string(), device_model: Some("Pixel".to_string()) };
    let target = peer("mac", "192.168.1.7:53317");
    let files = vec![file("f1", "photo.jpg", 9, "image/jpeg")];
    let tokens = vec![("f1".to_string(), "tok-1".to_string())];
    record_outbound_session(&mut mgr, &target, &me, files, "sess-1".to_string(), &tokens)
        .expect("every file got a token");
    let url = upload_request(&mgr, "sess-1", "f1", "tok-1").expect("stored token must validate");
    assert_eq!(
        url,
        "https://192.168.1.7:53317/api/localsend/v2/upload?sessionId=sess-1&fileId=f1&token=tok-1"
    );
    // Wrong token fails closed.
    assert!(matches!(
        upload_request(&mgr, "sess-1", "f1", "tok-2"),
        Err(TransferError::InvalidToken)
    ));
    assert!(matches!(
        upload_request(&mgr, "ghost", "f1", "tok-1"),
        Err(TransferError::SessionNotFound)
    ));
    // The cancel URL targets the same session.
    let cancel = cancel_request(&mgr, "sess-1").expect("known session");
    assert_eq!(cancel, "https://192.168.1.7:53317/api/localsend/v2/cancel?sessionId=sess-1");
    assert!(matches!(cancel_request(&mgr, "ghost"), Err(TransferError::SessionNotFound)));
}

#[test]
fn missing_token_in_answer_is_a_protocol_violation() {
    let mut mgr = SessionManager::new();
    let me = DeviceInfo { alias: "phone".to_string(), device_model: None };
    let target = peer("mac", "192.168.1.7:53317");
    let files = vec![file("f1", "a.bin", 1, "application/octet-stream")];
    let tokens = vec![("other".to_string(), "tok".to_string())];
    assert!(matches!(
        record_outbound_session(&mut mgr, &target, &me, files, "sess-2".to_string(), &tokens),
        Err(TransferError::InvalidToken)
    ));
    assert!(matches!(cancel_request(&mgr, "sess-2"), Err(TransferError::SessionNotFound)));
}

#[test]
fn response_status_classification() {
    assert!(upload_response_outcome(200).is_ok());
    assert!(matches!(upload_response_outcome(403), Err(TransferError::UploadFailed)));
    assert!(matches!(upload_response_outcome(500), Err(TransferError::UploadFailed)));
    assert!(cancel_response_outcome(200).is_ok());
    assert!(matches!(cancel_response_outcome(400), Err(TransferError::CancelFailed)));
}

#[test]
fn synthetic_text_metadata() {
    let m = text_file_metadata("sync-1".to_string(), 5);
    assert_eq!(m.id, "sync-1");
    assert_eq!(m.file_name, "clipboard.txt");
    assert_eq!(m.file_type, "text/plain");
    assert_eq!(m.size, 5);
    assert!(m.sha256.is_none());
    assert!(m.preview.is_none());
}

#[test]
fn fresh_file_ids_carry_the_sync_prefix() {
    let id = fresh_sync_file_id();
    assert!(id.starts_with("sync_"));
    assert_eq!(id.chars().count(), 41);
    // Two mints are distinct with overwhelming probability; at the least
    // they keep the same shape.
    let other = fresh_sync_file_id();
    assert_eq!(other.chars().count(), 41);
}

#[test]
fn mime_guessing_by_extension() {
    assert_eq!(mime_for_name("shot.png"), "image/png");
    assert_eq!(mime_for_name("photo.jpg"), "image/jpeg");
    assert_eq!(mime_for_name("photo.jpeg"), "image/jpeg");
    assert_eq!(mime_for_name("clip.mp4"), "video/mp4");
    assert_eq!(mime_for_name("notes.txt"), "text/plain");
    assert_eq!(mime_for_name("archive.zip"), "application/octet-stream");
    assert_eq!(mime_for_name("no_extension"), "application/octet-stream");
}
