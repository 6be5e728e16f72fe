//! The inbound transfer router: the receiving side of the handshake.
//!
//! Validation is delegated to the session manager; what this module decides
//! is the fate of a validated payload. A `text/plain` payload is intercepted:
//! it is handed, byte for byte, to the companion push channel and never
//! persisted. Every other payload is persisted, visual media into the media
//! gallery directory and the rest into the general download directory, under
//! a name free of conflicts. Failures map to HTTP-style statuses without
//! leaking internal detail.

use vstd::prelude::*;
use crate::model::{DeviceInfo, FileMetadataV, SessionStatus};
use crate::names::{collision_candidate, resolve_collision};
use crate::session::{accept_outcome, admit_spec, cancel_first, file_ids_unique, find_session,
    unique_file_ids, PrepareUploadRequest, PrepareUploadResponse, SessionManager, SessionV};
use crate::strutil::{is_prefix, starts_with, str_eq};
use crate::TransferError;

verus! {

/// Coarse destination category for persisted payloads.
#[derive(Clone, Copy, Debug, PartialEq, Eq, Structural)]
pub enum DestDir {
    /// Where images and videos land.
    MediaGallery,
    /// Where everything else lands.
    Downloads,
}

/// A payload is intercepted exactly when its MIME type is `text/plain`.
pub open spec fn is_text_mime(t: Seq<char>) -> bool {
    t == "text/plain"@
}

/// Visual media goes to the gallery, everything else to downloads.
pub open spec fn dest_dir_spec(t: Seq<char>) -> DestDir {
    if is_prefix(t, "image/"@) || is_prefix(t, "video/"@) {
        DestDir::MediaGallery
    } else {
        DestDir::Downloads
    }
}

/// Whether a MIME type marks an interceptable text payload.
pub fn is_text_payload(file_type: &str) -> (r: bool)
    ensures
        r == is_text_mime(file_type@),
{
    str_eq(file_type, "text/plain")
}

/// The destination category for a MIME type.
pub fn dest_dir(file_type: &str) -> (r: DestDir)
    ensures
        r == dest_dir_spec(file_type@),
{
    if starts_with(file_type, "image/") || starts_with(file_type, "video/") {
        DestDir::MediaGallery
    } else {
        DestDir::Downloads
    }
}

/// Query parameters of the upload endpoint.
pub struct UploadParams {
    pub session_id: String,
    pub file_id: String,
    pub token: String,
}

/// Query parameters of the cancel endpoint.
pub struct CancelParams {
    pub session_id: String,
}

/// What the upload endpoint decides for one request.
pub enum UploadOutcome {
    /// Hand the payload to the companion push channel and answer 200;
    /// nothing reaches persistent storage.
    ForwardText { payload: Vec<u8> },
    /// Write the payload under `name` in `dir` and answer 200.
    Persist { dir: DestDir, name: String },
    /// Refuse the request with this HTTP-style status.
    Reject { status: u16 },
}

/// HTTP-style status for a validation failure: missing or inactive sessions
/// are the caller's error, a token mismatch is forbidden.
pub open spec fn reject_status(e: TransferError) -> u16 {
    if e == TransferError::InvalidToken {
        403u16
    } else {
        400u16
    }
}

/// Decides one upload request: validates (session exists, active, exact
/// token), then intercepts text or persists under a conflict-free name.
///
/// `media_existing` and `download_existing` are the names already occupied
/// in the two destination directories; the caller performs the one write
/// this decision names, serialized with other callers of this check.
pub fn handle_upload(
    mgr: &SessionManager,
    params: &UploadParams,
    body: Vec<u8>,
    media_existing: &Vec<String>,
    download_existing: &Vec<String>,
) -> (r: UploadOutcome)
    requires
        mgr.wf(),
        media_existing@.len() < usize::MAX,
        download_existing@.len() < usize::MAX,
    ensures
        ({
            let outcome = accept_outcome(mgr@, params.session_id@, params.file_id@, params.token@);
            match r {
                UploadOutcome::Reject { status } => outcome matches Err(e) && status
                    == reject_status(e),
                UploadOutcome::ForwardText { payload } => outcome matches Ok(m) && is_text_mime(
                    m.file_type,
                ) && payload@ == body@,
                UploadOutcome::Persist { dir, name } => {
                    &&& outcome matches Ok(m)
                    &&& !is_text_mime(m.file_type)
                    &&& dir == dest_dir_spec(m.file_type)
                    &&& ({
                        let existing = if dir == DestDir::MediaGallery {
                            media_existing.deep_view()
                        } else {
                            download_existing.deep_view()
                        };
                        &&& !existing.contains(name@)
                        &&& exists|n: nat|
                            name@ == collision_candidate(m.file_name, n) && (forall|k: nat|
                                k < n ==> existing.contains(
                                    #[trigger] collision_candidate(m.file_name, k),
                                ))
                    })
                },
            }
        }),
{
    let meta = match mgr.accept_bytes(
        params.session_id.as_str(),
        params.file_id.as_str(),
        params.token.as_str(),
    ) {
        Ok(m) => m,
        Err(e) => {
            let status: u16 = if e == TransferError::InvalidToken {
                403
            } else {
                400
            };
            return UploadOutcome::Reject { status };
        },
    };
    if is_text_payload(meta.file_type.as_str()) {
        return UploadOutcome::ForwardText { payload: body };
    }
    let ghost outcome = accept_outcome(mgr@, params.session_id@, params.file_id@, params.token@);
    proof {
        assert(outcome == Ok::<FileMetadataV, TransferError>(meta.deep_view()));
        assert(meta.deep_view().file_name == meta.file_name@);
        assert(meta.deep_view().file_type == meta.file_type@);
    }
    let dir = dest_dir(meta.file_type.as_str());
    let name = if dir == DestDir::MediaGallery {
        resolve_collision(media_existing, meta.file_name.as_str())
    } else {
        resolve_collision(download_existing, meta.file_name.as_str())
    };
    proof {
        let existing = if dir == DestDir::MediaGallery {
            media_existing.deep_view()
        } else {
            download_existing.deep_view()
        };
        assert(!existing.contains(name@));
        let n = choose|n: nat|
            name@ == collision_candidate(meta.file_name@, n) && (forall|k: nat|
                k < n ==> existing.contains(#[trigger] collision_candidate(meta.file_name@, k)));
        assert(name@ == collision_candidate(meta.deep_view().file_name, n) && (forall|k: nat|
            k < n ==> existing.contains(
                #[trigger] collision_candidate(meta.deep_view().file_name, k),
            )));
    }
    UploadOutcome::Persist { dir, name }
}

/// Decides one proposal: the daemon is headless, so every well-formed
/// proposal is auto-accepted — a session is created with one fresh token
/// per proposed file and the id-to-token answer goes back to the proposer.
/// Only a proposal whose file ids collide is refused, with nothing stored.
pub fn handle_propose(
    mgr: &mut SessionManager,
    req: PrepareUploadRequest,
    receiver: DeviceInfo,
    addr: String,
    protocol: String,
) -> (r: Option<PrepareUploadResponse>)
    requires
        old(mgr).wf(),
    ensures
        final(mgr).wf(),
        !unique_file_ids(req.files.deep_view()) ==> r is None && final(mgr)@ == old(mgr)@,
        unique_file_ids(req.files.deep_view()) ==> (r matches Some(resp)
            && resp.files.deep_view().len() == req.files.deep_view().len() && (forall|i: int|
            0 <= i < req.files.deep_view().len() ==> #[trigger] resp.files.deep_view()[i].0
                == req.files.deep_view()[i].id) && final(mgr)@ == admit_spec(
            old(mgr)@,
            (SessionV {
                session_id: resp.session_id@,
                files: req.files.deep_view(),
                file_tokens: resp.files.deep_view(),
                sender: req.info.deep_view(),
                receiver: receiver.deep_view(),
                addr: addr@,
                protocol: protocol@,
                status: SessionStatus::Active,
            }),
        )),
{
    if !file_ids_unique(&req.files) {
        return None;
    }
    Some(mgr.create(req.files, req.info, receiver, addr, protocol))
}

/// Decides one cancel request: 200 when the session was found (and is now
/// cancelled), 400 when the id is unknown. Cancelling twice is harmless.
pub fn handle_cancel(mgr: &mut SessionManager, params: &CancelParams) -> (status: u16)
    requires
        old(mgr).wf(),
    ensures
        final(mgr).wf(),
        status == 200 || status == 400,
        status == 200 <==> find_session(old(mgr)@, params.session_id@) is Some,
        status == 200 ==> final(mgr)@ == cancel_first(old(mgr)@, params.session_id@),
        status == 400 ==> final(mgr)@ == old(mgr)@,
{
    match mgr.cancel(params.session_id.as_str()) {
        Ok(_) => 200,
        Err(_) => 400,
    }
}

} // verus!
