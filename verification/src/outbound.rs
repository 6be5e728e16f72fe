//! The outbound transfer orchestrator: target resolution under a bounded
//! retry policy, the handshake URLs, recording of acknowledged sessions, and
//! classification of the peer's answers.
//!
//! Only target resolution is retried; transport failures are terminal. The
//! waiting between attempts is the caller's business — this module decides,
//! for each attempt, whether to use a peer, retry, or give up.

use vstd::prelude::*;
use crate::model::{DeviceInfo, DeviceInfoV, FileMetadata, FileMetadataV, PeerInfo, PeerInfoV,
    SessionStatus};
use crate::names::{name_ext, split_name};
use crate::registry::{find_peer, PeerRegistry};
use crate::session::{accept_outcome, admit_spec, find_session, find_value, lemma_find_value_at,
    lemma_find_value_none, session_wf, unique_file_ids, Session, SessionManager, SessionV};
use crate::strutil::str_eq;
use crate::TransferError;

verus! {

/// How many times an unresolved target is retried before giving up.
pub const RESOLVE_RETRY_LIMIT: u64 = 10;

/// Pause between two resolution attempts, in milliseconds.
pub const RESOLVE_RETRY_DELAY_MS: u64 = 500;

/// Pause between two attempts to bring the network up at startup, in
/// milliseconds.
pub const STARTUP_BACKOFF_MS: u64 = 2000;

/// The peer one resolution attempt picks: the named target if an id was
/// given, otherwise the first peer discovery has found so far.
pub open spec fn resolve_pick(reg: Seq<PeerInfoV>, target: Option<Seq<char>>) -> Option<
    PeerInfoV,
> {
    match target {
        Some(id) => find_peer(reg, id),
        None => if reg.len() > 0 {
            Some(reg[0])
        } else {
            None
        },
    }
}

/// Decision of one resolution attempt.
pub enum ResolveDecision {
    /// Use this peer.
    Found(PeerInfoV),
    /// No peer yet; wait [`RESOLVE_RETRY_DELAY_MS`] and try again.
    Retry,
    /// The retry budget is exhausted; fail with this error.
    Fail(TransferError),
}

/// The resolution policy: a pick succeeds immediately; an empty pick retries
/// until `attempts` reaches the bound, then fails with `NoTargetFound`.
pub open spec fn resolve_step_spec(
    reg: Seq<PeerInfoV>,
    target: Option<Seq<char>>,
    attempts: u64,
) -> ResolveDecision {
    match resolve_pick(reg, target) {
        Some(p) => ResolveDecision::Found(p),
        None => if attempts < RESOLVE_RETRY_LIMIT {
            ResolveDecision::Retry
        } else {
            ResolveDecision::Fail(TransferError::NoTargetFound)
        },
    }
}

/// Outcome of one resolution attempt, for the caller driving the loop.
pub enum ResolveOutcome {
    /// Use this peer.
    Found(PeerInfo),
    /// No peer yet; wait [`RESOLVE_RETRY_DELAY_MS`] and try again.
    RetryAfterDelay,
    /// Give up with this error.
    GiveUp(TransferError),
}

/// One attempt of target resolution against the current registry snapshot.
/// `attempts` counts the attempts already made.
pub fn resolve_step(reg: &PeerRegistry, target: &Option<String>, attempts: u64) -> (r:
    ResolveOutcome)
    ensures
        match r {
            ResolveOutcome::Found(p) => resolve_step_spec(reg@, target.deep_view(), attempts)
                == ResolveDecision::Found(p.deep_view()),
            ResolveOutcome::RetryAfterDelay => resolve_step_spec(reg@, target.deep_view(), attempts)
                == ResolveDecision::Retry,
            ResolveOutcome::GiveUp(e) => resolve_step_spec(reg@, target.deep_view(), attempts)
                == ResolveDecision::Fail(e),
        },
{
    let picked: Option<PeerInfo> = match target {
        Some(id) => reg.get(id.as_str()),
        None => reg.first(),
    };
    match picked {
        Some(p) => ResolveOutcome::Found(p),
        None => {
            if attempts < RESOLVE_RETRY_LIMIT {
                ResolveOutcome::RetryAfterDelay
            } else {
                ResolveOutcome::GiveUp(TransferError::NoTargetFound)
            }
        },
    }
}

/// Against an empty registry, resolution never finds a peer: it retries on
/// every attempt below the bound and fails with `NoTargetFound` exactly from
/// the bound on — neither before nor indefinitely.
pub proof fn lemma_resolution_bounded(target: Option<Seq<char>>, attempts: u64)
    ensures
        resolve_pick(Seq::<PeerInfoV>::empty(), target) is None,
        attempts < RESOLVE_RETRY_LIMIT ==> resolve_step_spec(
            Seq::<PeerInfoV>::empty(),
            target,
            attempts,
        ) == ResolveDecision::Retry,
        attempts >= RESOLVE_RETRY_LIMIT ==> resolve_step_spec(
            Seq::<PeerInfoV>::empty(),
            target,
            attempts,
        ) == ResolveDecision::Fail(TransferError::NoTargetFound),
{
}

/// The handshake endpoint on a peer.
pub open spec fn prepare_url_spec(protocol: Seq<char>, addr: Seq<char>) -> Seq<char> {
    protocol + "://"@ + addr + "/api/localsend/v2/prepare-upload"@
}

/// The byte-transfer endpoint on a peer, with its query parameters.
pub open spec fn upload_url_spec(
    protocol: Seq<char>,
    addr: Seq<char>,
    sid: Seq<char>,
    fid: Seq<char>,
    token: Seq<char>,
) -> Seq<char> {
    protocol + "://"@ + addr + "/api/localsend/v2/upload?sessionId="@ + sid + "&fileId="@ + fid
        + "&token="@ + token
}

/// The cancel endpoint on a peer, with its query parameter.
pub open spec fn cancel_url_spec(protocol: Seq<char>, addr: Seq<char>, sid: Seq<char>) -> Seq<
    char,
> {
    protocol + "://"@ + addr + "/api/localsend/v2/cancel?sessionId="@ + sid
}

/// Builds the prepare-upload URL for a peer.
pub fn prepare_url(protocol: &str, addr: &str) -> (r: String)
    ensures
        r@ == prepare_url_spec(protocol@, addr@),
{
    let mut out = protocol.to_owned();
    out.append("://");
    out.append(addr);
    out.append("/api/localsend/v2/prepare-upload");
    proof {
        assert(out@ =~= prepare_url_spec(protocol@, addr@));
    }
    out
}

/// Builds the upload URL for a session, file and token.
pub fn upload_url(protocol: &str, addr: &str, sid: &str, fid: &str, token: &str) -> (r: String)
    ensures
        r@ == upload_url_spec(protocol@, addr@, sid@, fid@, token@),
{
    let mut out = protocol.to_owned();
    out.append("://");
    out.append(addr);
    out.append("/api/localsend/v2/upload?sessionId=");
    out.append(sid);
    out.append("&fileId=");
    out.append(fid);
    out.append("&token=");
    out.append(token);
    proof {
        assert(out@ =~= upload_url_spec(protocol@, addr@, sid@, fid@, token@));
    }
    out
}

/// Builds the cancel URL for a session.
pub fn cancel_url(protocol: &str, addr: &str, sid: &str) -> (r: String)
    ensures
        r@ == cancel_url_spec(protocol@, addr@, sid@),
{
    let mut out = protocol.to_owned();
    out.append("://");
    out.append(addr);
    out.append("/api/localsend/v2/cancel?sessionId=");
    out.append(sid);
    proof {
        assert(out@ =~= cancel_url_spec(protocol@, addr@, sid@));
    }
    out
}

/// Looks a peer up for a proposal: the peer record and the URL to post the
/// proposal to, or `PeerNotFound` for an unknown id.
pub fn prepare_request(reg: &PeerRegistry, peer_id: &str) -> (r: Result<
    (PeerInfo, String),
    TransferError,
>)
    ensures
        match find_peer(reg@, peer_id@) {
            Some(p) => r matches Ok(t) && t.0.deep_view() == p && t.1@ == prepare_url_spec(
                p.protocol,
                p.address,
            ),
            None => r == Err::<(PeerInfo, String), TransferError>(TransferError::PeerNotFound),
        },
{
    match reg.get(peer_id) {
        Some(p) => {
            let url = prepare_url(p.protocol.as_str(), p.address.as_str());
            Ok((p, url))
        },
        None => Err(TransferError::PeerNotFound),
    }
}

/// Validates an outbound upload against the local session record and builds
/// the URL to post the bytes to. Fails exactly as the validation does.
pub fn upload_request(mgr: &SessionManager, sid: &str, fid: &str, token: &str) -> (r: Result<
    String,
    TransferError,
>)
    requires
        mgr.wf(),
    ensures
        match accept_outcome(mgr@, sid@, fid@, token@) {
            Ok(_) => r matches Ok(u) && u@ == upload_url_spec(
                find_session(mgr@, sid@).unwrap().protocol,
                find_session(mgr@, sid@).unwrap().addr,
                sid@,
                fid@,
                token@,
            ),
            Err(e) => r == Err::<String, TransferError>(e),
        },
{
    match mgr.accept_bytes(sid, fid, token) {
        Ok(_) => {
            match mgr.route_of(sid) {
                Some((protocol, addr)) => Ok(
                    upload_url(protocol.as_str(), addr.as_str(), sid, fid, token),
                ),
                None => {
                    // The validation found the session, so the route exists.
                    assert(false);
                    Err(TransferError::SessionNotFound)
                },
            }
        },
        Err(e) => Err(e),
    }
}

/// Looks an outbound cancel up: the URL to post to, or `SessionNotFound`.
pub fn cancel_request(mgr: &SessionManager, sid: &str) -> (r: Result<String, TransferError>)
    ensures
        match find_session(mgr@, sid@) {
            Some(sv) => r matches Ok(u) && u@ == cancel_url_spec(sv.protocol, sv.addr, sid@),
            None => r == Err::<String, TransferError>(TransferError::SessionNotFound),
        },
{
    match mgr.route_of(sid) {
        Some((protocol, addr)) => Ok(cancel_url(protocol.as_str(), addr.as_str(), sid)),
        None => Err(TransferError::SessionNotFound),
    }
}

/// Classifies the peer's answer to an upload: only 200 is success.
pub fn upload_response_outcome(status: u16) -> (r: Result<(), TransferError>)
    ensures
        status == 200 ==> r is Ok,
        status != 200 ==> r == Err::<(), TransferError>(TransferError::UploadFailed),
{
    if status == 200 {
        Ok(())
    } else {
        Err(TransferError::UploadFailed)
    }
}

/// Classifies the peer's answer to a cancel: only 200 is success.
pub fn cancel_response_outcome(status: u16) -> (r: Result<(), TransferError>)
    ensures
        status == 200 ==> r is Ok,
        status != 200 ==> r == Err::<(), TransferError>(TransferError::CancelFailed),
{
    if status == 200 {
        Ok(())
    } else {
        Err(TransferError::CancelFailed)
    }
}

/// The synthetic metadata of a text payload: a fixed name and MIME type,
/// sized to the byte length of the text.
pub fn text_file_metadata(file_id: String, size: u64) -> (r: FileMetadata)
    ensures
        r.deep_view() == (FileMetadataV {
            id: file_id@,
            file_name: "clipboard.txt"@,
            size: size,
            file_type: "text/plain"@,
            sha256: None,
            preview: None,
        }),
{
    FileMetadata {
        id: file_id,
        file_name: "clipboard.txt".to_owned(),
        size,
        file_type: "text/plain".to_owned(),
        sha256: None,
        preview: None,
    }
}

/// MIME type for a file extension, for metadata derived from a path.
pub open spec fn mime_for_ext(ext: Seq<char>) -> Seq<char> {
    if ext == "png"@ {
        "image/png"@
    } else if ext == "jpg"@ || ext == "jpeg"@ {
        "image/jpeg"@
    } else if ext == "gif"@ {
        "image/gif"@
    } else if ext == "mp4"@ {
        "video/mp4"@
    } else if ext == "txt"@ {
        "text/plain"@
    } else {
        "application/octet-stream"@
    }
}

/// MIME type guessed from a file name's extension.
pub fn mime_for_name(name: &str) -> (r: String)
    ensures
        r@ == mime_for_ext(name_ext(name@)),
{
    let (_, ext) = split_name(name);
    let e = ext.as_str();
    if str_eq(e, "png") {
        "image/png".to_owned()
    } else if str_eq(e, "jpg") || str_eq(e, "jpeg") {
        "image/jpeg".to_owned()
    } else if str_eq(e, "gif") {
        "image/gif".to_owned()
    } else if str_eq(e, "mp4") {
        "video/mp4".to_owned()
    } else if str_eq(e, "txt") {
        "text/plain".to_owned()
    } else {
        "application/octet-stream".to_owned()
    }
}

/// All proposed files have a token in the peer's answer.
pub open spec fn all_tokens_present(
    files: Seq<FileMetadataV>,
    tokens: Seq<(Seq<char>, Seq<char>)>,
) -> bool {
    forall|i: int| 0 <= i < files.len() ==> find_value(tokens, #[trigger] files[i].id) is Some
}

/// Token list realigned with the file list, one answered token per file.
pub open spec fn aligned_tokens(
    files: Seq<FileMetadataV>,
    tokens: Seq<(Seq<char>, Seq<char>)>,
) -> Seq<(Seq<char>, Seq<char>)> {
    Seq::new(files.len(), |i: int| (files[i].id, find_value(tokens, files[i].id).unwrap()))
}

/// The session an acknowledged outbound proposal is recorded as.
pub open spec fn outbound_session(
    peer: PeerInfoV,
    sender: DeviceInfoV,
    files: Seq<FileMetadataV>,
    tokens: Seq<(Seq<char>, Seq<char>)>,
    sid: Seq<char>,
) -> SessionV {
    SessionV {
        session_id: sid,
        files: files,
        file_tokens: aligned_tokens(files, tokens),
        sender: sender,
        receiver: peer.info,
        addr: peer.address,
        protocol: peer.protocol,
        status: SessionStatus::Active,
    }
}

/// Records a session acknowledged by `peer`: the answered tokens, one per
/// proposed file, are kept for the transfer and a later cancel. A missing
/// token is a protocol violation and fails with `InvalidToken`, recording
/// nothing.
pub fn record_outbound_session(
    mgr: &mut SessionManager,
    peer: &PeerInfo,
    sender: &DeviceInfo,
    files: Vec<FileMetadata>,
    session_id: String,
    tokens: &Vec<(String, String)>,
) -> (r: Result<(), TransferError>)
    requires
        old(mgr).wf(),
        unique_file_ids(files.deep_view()),
    ensures
        final(mgr).wf(),
        all_tokens_present(files.deep_view(), tokens.deep_view()) ==> r is Ok
            && final(mgr)@ == admit_spec(
            old(mgr)@,
            outbound_session(
                peer.deep_view(),
                sender.deep_view(),
                files.deep_view(),
                tokens.deep_view(),
                session_id@,
            ),
        ),
        !all_tokens_present(files.deep_view(), tokens.deep_view()) ==> r == Err::<
            (),
            TransferError,
        >(TransferError::InvalidToken) && final(mgr)@ == old(mgr)@,
{
    let ghost fv = files.deep_view();
    let ghost tokv = tokens.deep_view();
    let ghost m0 = *mgr;
    let n = files.len();
    let mut file_tokens: Vec<(String, String)> = Vec::new();
    let mut i: usize = 0;
    while i < n
        invariant
            *mgr == m0,
            m0 == *old(mgr),
            m0.wf(),
            n == files.len(),
            fv == files.deep_view(),
            tokv == tokens.deep_view(),
            i <= n,
            file_tokens.deep_view().len() == i,
            forall|j: int| 0 <= j < i ==> #[trigger] file_tokens.deep_view()[j] == (
                fv[j].id,
                find_value(tokv, fv[j].id).unwrap(),
            ),
            forall|j: int| 0 <= j < i ==> find_value(tokv, #[trigger] fv[j].id) is Some,
        decreases n - i,
    {
        let ghost prev = file_tokens.deep_view();
        assert(fv[i as int] == files[i as int].deep_view());
        let token = match lookup_value(tokens, files[i].id.as_str()) {
            Some(t) => t,
            None => {
                return Err(TransferError::InvalidToken);
            },
        };
        let fid = files[i].id.clone();
        tokens_push(&mut file_tokens, fid, token);
        proof {
            assert(file_tokens.deep_view() =~= prev.push(
                (fv[i as int].id, find_value(tokv, fv[i as int].id).unwrap()),
            ));
        }
        i += 1;
    }
    let session = Session {
        session_id,
        files,
        file_tokens,
        sender: sender.duplicate(),
        receiver: peer.info.duplicate(),
        addr: peer.address.clone(),
        protocol: peer.protocol.clone(),
        status: SessionStatus::Active,
    };
    proof {
        assert(session.deep_view().file_tokens =~= aligned_tokens(fv, tokv));
        assert(session.deep_view() == outbound_session(
            peer.deep_view(),
            sender.deep_view(),
            fv,
            tokv,
            session.deep_view().session_id,
        ));
        assert(session_wf(session.deep_view()));
    }
    mgr.record(session);
    Ok(())
}

/// First value stored under `k` in `pairs`, if any.
fn lookup_value(pairs: &Vec<(String, String)>, k: &str) -> (r: Option<String>)
    ensures
        match r {
            Some(v) => find_value(pairs.deep_view(), k@) == Some(v@),
            None => find_value(pairs.deep_view(), k@) is None,
        },
{
    let n = pairs.len();
    let mut i: usize = 0;
    while i < n
        invariant
            n == pairs.len(),
            i <= n,
            forall|j: int| 0 <= j < i ==> pairs.deep_view()[j].0 != k@,
        decreases n - i,
    {
        assert(pairs.deep_view()[i as int] == (pairs[i as int].0@, pairs[i as int].1@));
        if str_eq(pairs[i].0.as_str(), k) {
            proof {
                lemma_find_value_at(pairs.deep_view(), k@, i as int);
            }
            return Some(pairs[i].1.clone());
        }
        i += 1;
    }
    proof {
        lemma_find_value_none(pairs.deep_view(), k@);
    }
    None
}

/// Pushes a pair; a helper so the borrow of its parts stays local.
fn tokens_push(v: &mut Vec<(String, String)>, k: String, val: String)
    ensures
        final(v)@ == old(v)@.push((k, val)),
        final(v).deep_view() == old(v).deep_view().push((k@, val@)),
{
    let ghost prev = v.deep_view();
    v.push((k, val));
    proof {
        assert(v.deep_view() =~= prev.push((k@, val@)));
    }
}

} // verus!
