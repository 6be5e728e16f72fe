//! Verified core of a LAN peer-to-peer file and clipboard transfer daemon.
//!
//! The library holds the logic of the daemon: the session state machine with
//! per-file transfer tokens, the inbound router that intercepts text payloads
//! and resolves filename conflicts, the outbound target resolution with its
//! bounded retry policy, the control-channel command grammar, and the
//! filesystem-event filter. Network and filesystem plumbing lives outside.

use vstd::prelude::*;

pub mod control;
pub mod dialog;
pub mod events;
pub mod idgen;
pub mod model;
pub mod names;
pub mod outbound;
pub mod registry;
pub mod router;
pub mod session;
pub mod strutil;

verus! {

/// Errors of the transfer protocol, as surfaced by the session manager,
/// the outbound orchestrator and the inbound router.
#[derive(Clone, Copy, Debug, PartialEq, Eq, Structural)]
pub enum TransferError {
    /// An explicitly named target id is not in the peer registry.
    PeerNotFound,
    /// Target resolution exhausted its retry budget without finding a peer.
    NoTargetFound,
    /// The session id is not known to the session manager.
    SessionNotFound,
    /// The session exists but is no longer active.
    SessionInactive,
    /// The supplied token does not match the token minted for the file.
    InvalidToken,
    /// The remote peer rejected an upload.
    UploadFailed,
    /// The remote peer rejected a cancel request.
    CancelFailed,
}

} // verus!
