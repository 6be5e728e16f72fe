use airsend::model::{DeviceInfo, FileMetadata};
use airsend::names::resolve_collision;
use airsend::router::{
    dest_dir, handle_cancel, handle_propose, handle_upload, is_text_payload, CancelParams, DestDir,
    UploadOutcome, UploadParams,
};
use airsend::session::{PrepareUploadRequest, SessionManager};

fn device(alias: &str) -> DeviceInfo {
    DeviceInfo { alias: alias.to_string(), device_model: None }
}

fn file(id: &str, name: &str, size: u64, mime: &str) -> FileMetadata {
    FileMetadata {
        id: id.to_string(),
        file_name: name.to_string(),
        size,
        file_type: mime.to_string(),
        sha256: None,
        preview: None,
    }
}

fn session_for(mgr: &mut SessionManager, fid: &str, name: &str, mime: &str, size: u64) -> (String, String) {
    let resp = mgr.create(
        vec![file(fid, name, size, mime)],
        device("mac"),
        device("phone"),
        "192.168.1.7:53317".to_string(),
        "https".to_string(),
    );
    (resp.session_id, resp.files[0].1.clone())
}

fn names(v: &[&str]) -> Vec<String> {
    v.iter().map(|s| s.to_string()).collect()
}

#[test]
fn collision_increments_suffix_and_keeps_extension() {
    let existing = names(&["a.png", "a (1).png"]);
    assert_eq!(resolve_collision(&existing, "a.png"), "a (2).png");
}

#[test]
fn collision_on_extensionless_name() {
    assert_eq!(resolve_collision(&names(&["report"]), "report"), "report (1)");
    assert_eq!(
        resolve_collision(&names(&["report", "report (1)"]), "report"),
        "report (2)"
    );
    assert_eq!(
        resolve_collision(&names(&["report", "report (1)", "report (2)"]), "report"),
        "report (3)"
    );
}

#[test]
fn free_name_is_kept_as_is() {
    assert_eq!(resolve_collision(&names(&[]), "a.png"), "a.png");
    assert_eq!(resolve_collision(&names(&["b.png"]), "a.png"), "a.png");
}

#[test]
fn first_free_counter_wins() {
    // The first free counter wins even when later ones are also free.
    let existing = names(&["x.gif", "x (1).gif", "x (3).gif"]);
    assert_eq!(resolve_collision(&existing, "x.gif"), "x (2).gif");
}

#[test]
fn collision_with_multi_dot_and_hidden_names() {
    // Only the last dot starts the extension.
    assert_eq!(resolve_collision(&names(&["a.tar.gz"]), "a.tar.gz"), "a.tar (1).gz");
    // A leading dot is a hidden-file marker, not an extension.
    assert_eq!(resolve_collision(&names(&[".hidden"]), ".hidden"), ".hidden (1)");
}

#[test]
fn mime_classification() {
    assert!(is_text_payload("text/plain"));
    assert!(!is_text_payload("text/plainx"));
    assert!(!is_text_payload("image/png"));
    assert_eq!(dest_dir("image/jpeg"), DestDir::MediaGallery);
    assert_eq!(dest_dir("video/mp4"), DestDir::MediaGallery);
    assert_eq!(dest_dir("application/pdf"), DestDir::Downloads);
    assert_eq!(dest_dir("text/plain"), DestDir::Downloads);
}

#[test]
fn text_payload_is_intercepted_never_persisted() {
    let mut mgr = SessionManager::new();
    let (sid, token) = session_for(&mut mgr, "f1", "clipboard.txt", "text/plain", 5);
    let params = UploadParams { session_id: sid, file_id: "f1".to_string(), token };
    let media: Vec<String> = Vec::new();
    let downloads: Vec<String> = Vec::new();
    let outcome = handle_upload(&mgr, &params, b"hello".to_vec(), &media, &downloads);
    match outcome {
        UploadOutcome::ForwardText { payload } => assert_eq!(payload, b"hello".to_vec()),
        _ => panic!("a text payload must be forwarded, not persisted or rejected"),
    }
}

#[test]
fn empty_text_payload_is_still_intercepted() {
    let mut mgr = SessionManager::new();
    let (sid, token) = session_for(&mut mgr, "f1", "clipboard.txt", "text/plain", 0);
    let params = UploadParams { session_id: sid, file_id: "f1".to_string(), token };
    let outcome = handle_upload(&mgr, &params, Vec::new(), &Vec::new(), &Vec::new());
    match outcome {
        UploadOutcome::ForwardText { payload } => assert_eq!(payload, Vec::<u8>::new()),
        _ => panic!("even an empty text payload must be forwarded"),
    }
}

#[test]
fn jpeg_lands_in_the_media_gallery() {
    let mut mgr = SessionManager::new();
    let (sid, token) = session_for(&mut mgr, "f1", "photo.jpg", "image/jpeg", 3);
    let params = UploadParams { session_id: sid, file_id: "f1".to_string(), token };
    // A name clash in the download directory must not matter for media.
    let downloads = names(&["photo.jpg"]);
    let outcome = handle_upload(&mgr, &params, b"abc".to_vec(), &Vec::new(), &downloads);
    match outcome {
        UploadOutcome::Persist { dir, name } => {
            assert_eq!(dir, DestDir::MediaGallery);
            assert_eq!(name, "photo.jpg");
        },
        _ => panic!("an image must be persisted under the media gallery"),
    }
}

#[test]
fn persisted_name_avoids_occupied_names() {
    let mut mgr = SessionManager::new();
    let (sid, token) = session_for(&mut mgr, "f1", "a.png", "image/png", 3);
    let params = UploadParams { session_id: sid, file_id: "f1".to_string(), token };
    let media = names(&["a.png", "a (1).png"]);
    let outcome = handle_upload(&mgr, &params, b"abc".to_vec(), &media, &Vec::new());
    match outcome {
        UploadOutcome::Persist { dir, name } => {
            assert_eq!(dir, DestDir::MediaGallery);
            assert_eq!(name, "a (2).png");
        },
        _ => panic!("an image must be persisted"),
    }
}

#[test]
fn upload_rejections_map_to_statuses() {
    let mut mgr = SessionManager::new();
    let (sid, token) = session_for(&mut mgr, "f1", "a.pdf", "application/pdf", 3);

    // Unknown session: bad request.
    let params = UploadParams {
        session_id: "ghost".to_string(),
        file_id: "f1".to_string(),
        token: token.clone(),
    };
    match handle_upload(&mgr, &params, b"x".to_vec(), &Vec::new(), &Vec::new()) {
        UploadOutcome::Reject { status } => assert_eq!(status, 400),
        _ => panic!("unknown session must be rejected"),
    }

    // Wrong token: forbidden.
    let params = UploadParams {
        session_id: sid.clone(),
        file_id: "f1".to_string(),
        token: "wrong".to_string(),
    };
    match handle_upload(&mgr, &params, b"x".to_vec(), &Vec::new(), &Vec::new()) {
        UploadOutcome::Reject { status } => assert_eq!(status, 403),
        _ => panic!("a token mismatch must be forbidden"),
    }

    // Cancelled session: bad request.
    assert!(mgr.cancel(&sid).is_ok());
    let params = UploadParams { session_id: sid, file_id: "f1".to_string(), token };
    match handle_upload(&mgr, &params, b"x".to_vec(), &Vec::new(), &Vec::new()) {
        UploadOutcome::Reject { status } => assert_eq!(status, 400),
        _ => panic!("an inactive session must be rejected"),
    }
}

#[test]
fn proposals_are_auto_accepted_with_one_token_per_file() {
    let mut mgr = SessionManager::new();
    let proposal = PrepareUploadRequest {
        info: device("mac"),
        files: vec![file("f1", "a.png", 1, "image/png"), file("f2", "b.png", 2, "image/png")],
    };
    let resp = handle_propose(
        &mut mgr,
        proposal,
        device("phone"),
        "192.168.1.9:40000".to_string(),
        "http".to_string(),
    )
    .expect("well-formed proposals are auto-accepted");
    assert_eq!(resp.files.len(), 2);
    let mut ids: Vec<&str> = resp.files.iter().map(|p| p.0.as_str()).collect();
    ids.sort();
    assert_eq!(ids, vec!["f1", "f2"]);
    // The answered tokens open exactly their own files.
    for (fid, token) in &resp.files {
        assert!(mgr.accept_bytes(&resp.session_id, fid, token).is_ok());
    }
}

#[test]
fn proposal_with_colliding_file_ids_is_refused() {
    let mut mgr = SessionManager::new();
    let proposal = PrepareUploadRequest {
        info: device("mac"),
        files: vec![file("f1", "a.png", 1, "image/png"), file("f1", "b.png", 2, "image/png")],
    };
    let refused = handle_propose(
        &mut mgr,
        proposal,
        device("phone"),
        "192.168.1.9:40000".to_string(),
        "http".to_string(),
    );
    assert!(refused.is_none());
    assert_eq!(mgr.len(), 0);
}

#[test]
fn cancel_endpoint_statuses() {
    let mut mgr = SessionManager::new();
    let (sid, _) = session_for(&mut mgr, "f1", "a.pdf", "application/pdf", 3);
    let missing = CancelParams { session_id: "ghost".to_string() };
    assert_eq!(handle_cancel(&mut mgr, &missing), 400);
    let known = CancelParams { session_id: sid };
    assert_eq!(handle_cancel(&mut mgr, &known), 200);
    // Cancelling again still succeeds.
    assert_eq!(handle_cancel(&mut mgr, &known), 200);
}
