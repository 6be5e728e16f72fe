//! Data model of the transfer protocol: device identities, peer records and
//! per-file metadata, together with their mathematical views.

use vstd::prelude::*;

verus! {

/// The identity a device advertises to its peers.
pub struct DeviceInfo {
    /// Human-readable device name.
    pub alias: String,
    /// Optional hardware model string.
    pub device_model: Option<String>,
}

/// View of a [`DeviceInfo`].
pub struct DeviceInfoV {
    pub alias: Seq<char>,
    pub device_model: Option<Seq<char>>,
}

impl DeepView for DeviceInfo {
    type V = DeviceInfoV;

    open spec fn deep_view(&self) -> DeviceInfoV {
        DeviceInfoV { alias: self.alias@, device_model: self.device_model.deep_view() }
    }
}

impl DeviceInfo {
    /// An exact copy.
    pub fn duplicate(&self) -> (r: DeviceInfo)
        ensures
            r.deep_view() == self.deep_view(),
    {
        DeviceInfo {
            alias: self.alias.clone(),
            device_model: match &self.device_model {
                Some(m) => Some(m.clone()),
                None => None,
            },
        }
    }
}

/// One entry of the peer registry: a peer id together with how to reach the
/// peer and what it advertised about itself.
pub struct PeerInfo {
    /// Stable peer id.
    pub id: String,
    /// Network address (host and port).
    pub address: String,
    /// Protocol scheme used to reach the peer.
    pub protocol: String,
    /// Identity the peer advertised.
    pub info: DeviceInfo,
}

/// View of a [`PeerInfo`].
pub struct PeerInfoV {
    pub id: Seq<char>,
    pub address: Seq<char>,
    pub protocol: Seq<char>,
    pub info: DeviceInfoV,
}

impl DeepView for PeerInfo {
    type V = PeerInfoV;

    open spec fn deep_view(&self) -> PeerInfoV {
        PeerInfoV {
            id: self.id@,
            address: self.address@,
            protocol: self.protocol@,
            info: self.info.deep_view(),
        }
    }
}

impl PeerInfo {
    /// An exact copy.
    pub fn duplicate(&self) -> (r: PeerInfo)
        ensures
            r.deep_view() == self.deep_view(),
    {
        PeerInfo {
            id: self.id.clone(),
            address: self.address.clone(),
            protocol: self.protocol.clone(),
            info: self.info.duplicate(),
        }
    }
}

/// Logical description of one transferable unit.
pub struct FileMetadata {
    /// Identifier, unique within a single handshake.
    pub id: String,
    /// Display name under which the file is saved.
    pub file_name: String,
    /// Size in bytes.
    pub size: u64,
    /// MIME type; `text/plain` marks an interceptable text payload.
    pub file_type: String,
    /// Optional content hash.
    pub sha256: Option<String>,
    /// Optional preview.
    pub preview: Option<String>,
}

/// View of a [`FileMetadata`].
pub struct FileMetadataV {
    pub id: Seq<char>,
    pub file_name: Seq<char>,
    pub size: u64,
    pub file_type: Seq<char>,
    pub sha256: Option<Seq<char>>,
    pub preview: Option<Seq<char>>,
}

impl DeepView for FileMetadata {
    type V = FileMetadataV;

    open spec fn deep_view(&self) -> FileMetadataV {
        FileMetadataV {
            id: self.id@,
            file_name: self.file_name@,
            size: self.size,
            file_type: self.file_type@,
            sha256: self.sha256.deep_view(),
            preview: self.preview.deep_view(),
        }
    }
}

impl FileMetadata {
    /// An exact copy.
    pub fn duplicate(&self) -> (r: FileMetadata)
        ensures
            r.deep_view() == self.deep_view(),
    {
        FileMetadata {
            id: self.id.clone(),
            file_name: self.file_name.clone(),
            size: self.size,
            file_type: self.file_type.clone(),
            sha256: match &self.sha256 {
                Some(h) => Some(h.clone()),
                None => None,
            },
            preview: match &self.preview {
                Some(p) => Some(p.clone()),
                None => None,
            },
        }
    }
}

/// Status of a session. Monotonic: once cancelled, a session never becomes
/// active again.
#[derive(Clone, Copy, Debug, PartialEq, Eq, Structural)]
pub enum SessionStatus {
    Active,
    Cancelled,
}

impl DeepView for SessionStatus {
    type V = SessionStatus;

    open spec fn deep_view(&self) -> SessionStatus {
        *self
    }
}

} // verus!
