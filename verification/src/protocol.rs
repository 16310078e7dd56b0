use crate::text::str_eq;
use vstd::prelude::*;

verus! {

pub const DISCOVERY_PORT: u16 = 45454;

pub const TCP_PORT: u16 = 45455;

pub const LAN_API_PORT: u16 = 45457;

pub const PRESENCE_INTERVAL_SECS: u64 = 2;

pub const LIBRARY_ANNOUNCE_INTERVAL_SECS: u64 = 600;

pub const DEVICE_TTL_SECS: u64 = 8;

pub const CHUNK_SIZE: usize = 1024 * 1024;

#[derive(Debug, Clone)]
pub struct DiscoveryPacket {
    pub app: String,
    pub version: u8,
    pub packet_type: String,
    pub device_id: String,
    pub device_name: String,
    pub tcp_port: u16,
    pub api_port: u16,
    pub library_version: i64,
    pub share_count: i64,
    pub manifest_hash: String,
    pub upload_tasks: i64,
    pub avatar_hash: Option<String>,
    pub known_peers: Vec<KnownPeerHint>,
}

impl DiscoveryPacket {
    /// Whether the packet comes from this application, in the first version of
    /// its protocol.
    pub fn is_quicklan(&self) -> (r: bool)
        ensures
            r == (self.app@ == "quicklan"@ && self.version == 1),
    {
        str_eq(self.app.as_str(), "quicklan") && self.version == 1
    }
}

#[derive(Debug, Clone)]
pub struct KnownPeerHint {
    pub device_id: String,
    pub device_name: String,
    pub ip: String,
    pub tcp_port: u16,
    pub api_port: u16,
}

#[derive(Debug, Clone)]
pub struct DeviceInfo {
    pub id: String,
    pub name: String,
    pub ip: String,
    pub tcp_port: u16,
    pub api_port: u16,
    pub online: bool,
    pub last_seen_ms: u128,
    pub share_count: i64,
    pub library_version: i64,
    pub manifest_hash: String,
    pub upload_tasks: i64,
    pub latency_ms: Option<u64>,
    pub note: Option<String>,
    pub avatar_hash: Option<String>,
    pub is_local: bool,
    pub is_known: bool,
    pub discovered_via: Option<String>,
}

#[derive(Debug, Clone)]
pub struct NetworkStatus {
    pub udp_port: u16,
    pub tcp_port: u16,
    pub api_port: u16,
    pub local_ips: Vec<String>,
    pub broadcast_targets: Vec<String>,
}

#[derive(Debug, Clone)]
pub struct SenderInfo {
    pub device_id: String,
    pub device_name: String,
}

#[derive(Debug, Clone)]
pub enum TcpHeader {
    QuickSend(FileHeader),
    SharedDownload(SharedDownloadRequest),
}

#[derive(Debug, Clone)]
pub struct FileHeader {
    pub transfer_id: String,
    pub batch_id: String,
    pub file_name: String,
    pub file_size: u64,
    pub sha256: String,
    pub sender: SenderInfo,
}

#[derive(Debug, Clone)]
pub struct SharedDownloadRequest {
    pub transfer_id: String,
    pub share_id: String,
    pub version: i64,
    pub file_hash: String,
    pub requester: SenderInfo,
    pub password: Option<String>,
}

#[derive(Debug, Clone)]
pub struct SharedDownloadResponse {
    pub ok: bool,
    pub message: Option<String>,
    pub name: Option<String>,
    pub size: Option<u64>,
    pub file_hash: Option<String>,
}

#[derive(Debug, Clone, Copy, PartialEq, Eq, Structural)]
pub enum TransferDirection {
    Sending,
    Receiving,
}

#[derive(Debug, Clone, Copy, PartialEq, Eq, Structural)]
pub enum TransferStatus {
    Pending,
    WaitingForReceiver,
    Transferring,
    Completed,
    Rejected,
    Failed,
}

#[derive(Debug, Clone)]
pub struct ShareItem {
    pub share_id: String,
    pub name: String,
    pub category: String,
    pub permission: String,
    pub owner_device_id: String,
    pub owner_name: String,
    pub latest_version: i64,
    pub file_hash: String,
    pub size: u64,
    pub created_at: i64,
    pub updated_at: i64,
    pub download_count: i64,
    pub replica_count: i64,
    pub is_local: bool,
    pub active: bool,
}

#[derive(Debug, Clone)]
pub struct ShareVersion {
    pub share_id: String,
    pub version: i64,
    pub file_hash: String,
    pub size: u64,
    pub created_at: i64,
}

#[derive(Debug, Clone)]
pub struct ReplicaNode {
    pub share_id: String,
    pub version: i64,
    pub file_hash: String,
    pub device_id: String,
    pub device_name: String,
    pub ip: String,
    pub tcp_port: u16,
    pub api_port: u16,
    pub online: bool,
    pub upload_tasks: i64,
    pub latency_ms: Option<u64>,
    pub is_local: bool,
}

#[derive(Debug, Clone)]
pub struct ManifestShare {
    pub share_id: String,
    pub name: String,
    pub category: String,
    pub permission: String,
    pub password_hash: Option<String>,
    pub owner_device_id: String,
    pub owner_name: String,
    pub latest_version: i64,
    pub versions: Vec<ShareVersion>,
    pub download_count: i64,
    pub created_at: i64,
    pub updated_at: i64,
}

#[derive(Debug, Clone)]
pub struct Manifest {
    pub device_id: String,
    pub device_name: String,
    pub library_version: i64,
    pub manifest_hash: String,
    pub shares: Vec<ManifestShare>,
}

#[derive(Debug, Clone)]
pub struct LibrarySettings {
    pub acceleration_enabled: bool,
    pub max_upload_speed: String,
    pub max_upload_tasks: i64,
    pub cache_limit_gb: i64,
}

} // verus!
