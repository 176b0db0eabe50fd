//! The records that devices keep and exchange, and their views.

use crate::text::{copy_opt_text, copy_texts, opt_text, texts};
use vstd::prelude::*;

verus! {

/// Name and version of the protocol, sent in every announcement and request.
pub const APP_PROTOCOL: &'static str = "pc-sharer-v2";

/// Port of the announcements.
pub const UDP_PORT: u16 = 53342;

/// Port of the transfers.
pub const TCP_PORT: u16 = 53343;

/// Time between two announcements.
pub const DISCOVERY_INTERVAL_MS: u64 = 1800;

/// Time after which a device that was not heard of again is forgotten.
pub const DEVICE_STALE_MS: u128 = 20_000;

/// Largest metadata payload of a frame.
pub const MAX_METADATA_BYTES: usize = 16_777_216;

/// Size of the buffer through which file contents are copied.
pub const COPY_BUFFER_BYTES: usize = 1_048_576;

/// Time in which an incoming transfer is to be accepted.
pub const INCOMING_DECISION_TIMEOUT_SECONDS: u64 = 300;

/// Number of transfers that are kept on disk.
pub const MAX_HISTORY_ITEMS: usize = 300;

/// The settings of this device.
#[derive(Debug)]
pub struct Config {
    pub device_id: String,
    pub device_name: String,
    pub inbox_dir: String,
    pub trusted_device_ids: Vec<String>,
}

/// The view of a [`Config`].
#[verifier::ext_equal]
pub struct ConfigView {
    pub device_id: Seq<char>,
    pub device_name: Seq<char>,
    pub inbox_dir: Seq<char>,
    pub trusted_device_ids: Seq<Seq<char>>,
}

impl View for Config {
    type V = ConfigView;

    open spec fn view(&self) -> ConfigView {
        ConfigView {
            device_id: self.device_id@,
            device_name: self.device_name@,
            inbox_dir: self.inbox_dir@,
            trusted_device_ids: texts(self.trusted_device_ids@),
        }
    }
}

impl Clone for Config {
    fn clone(&self) -> (r: Self)
        ensures
            r@ == self@,
    {
        Config {
            device_id: self.device_id.clone(),
            device_name: self.device_name.clone(),
            inbox_dir: self.inbox_dir.clone(),
            trusted_device_ids: copy_texts(&self.trusted_device_ids),
        }
    }
}

/// What the user is shown of this device.
#[derive(Debug)]
pub struct AppInfo {
    pub device_id: String,
    pub device_name: String,
    pub inbox_dir: String,
    pub local_ip: Option<String>,
    pub tcp_port: u16,
    pub udp_port: u16,
    pub trusted_device_ids: Vec<String>,
}

/// The view of an [`AppInfo`].
#[verifier::ext_equal]
pub struct AppInfoView {
    pub device_id: Seq<char>,
    pub device_name: Seq<char>,
    pub inbox_dir: Seq<char>,
    pub local_ip: Option<Seq<char>>,
    pub tcp_port: u16,
    pub udp_port: u16,
    pub trusted_device_ids: Seq<Seq<char>>,
}

impl View for AppInfo {
    type V = AppInfoView;

    open spec fn view(&self) -> AppInfoView {
        AppInfoView {
            device_id: self.device_id@,
            device_name: self.device_name@,
            inbox_dir: self.inbox_dir@,
            local_ip: opt_text(self.local_ip),
            tcp_port: self.tcp_port,
            udp_port: self.udp_port,
            trusted_device_ids: texts(self.trusted_device_ids@),
        }
    }
}

/// Another device on the network.
#[derive(Debug)]
pub struct DeviceSnapshot {
    pub id: String,
    pub name: String,
    pub ip: String,
    pub tcp_port: u16,
    pub platform: String,
    pub last_seen_ms: u128,
    pub is_manual: bool,
    pub is_trusted: bool,
}

/// The view of a [`DeviceSnapshot`].
#[verifier::ext_equal]
pub struct DeviceView {
    pub id: Seq<char>,
    pub name: Seq<char>,
    pub ip: Seq<char>,
    pub tcp_port: u16,
    pub platform: Seq<char>,
    pub last_seen_ms: u128,
    pub is_manual: bool,
    pub is_trusted: bool,
}

impl View for DeviceSnapshot {
    type V = DeviceView;

    open spec fn view(&self) -> DeviceView {
        DeviceView {
            id: self.id@,
            name: self.name@,
            ip: self.ip@,
            tcp_port: self.tcp_port,
            platform: self.platform@,
            last_seen_ms: self.last_seen_ms,
            is_manual: self.is_manual,
            is_trusted: self.is_trusted,
        }
    }
}

impl Clone for DeviceSnapshot {
    fn clone(&self) -> (r: Self)
        ensures
            r@ == self@,
    {
        DeviceSnapshot {
            id: self.id.clone(),
            name: self.name.clone(),
            ip: self.ip.clone(),
            tcp_port: self.tcp_port,
            platform: self.platform.clone(),
            last_seen_ms: self.last_seen_ms,
            is_manual: self.is_manual,
            is_trusted: self.is_trusted,
        }
    }
}

/// Which way the files of a transfer go.
#[derive(Debug, Clone, Copy, PartialEq, Eq, Structural)]
pub enum TransferDirection {
    Send,
    Receive,
}

/// How far a transfer has come.
#[derive(Debug, Clone, Copy, PartialEq, Eq, Structural)]
pub enum TransferStatus {
    Queued,
    Connecting,
    Pending,
    Sending,
    Receiving,
    Completed,
    Failed,
}

/// The record of one transfer.
#[derive(Debug)]
pub struct TransferSnapshot {
    pub id: String,
    pub direction: TransferDirection,
    pub peer_id: String,
    pub peer_name: String,
    pub peer_ip: Option<String>,
    pub peer_tcp_port: Option<u16>,
    pub title: String,
    pub status: TransferStatus,
    pub bytes_done: u64,
    pub total_bytes: u64,
    pub file_count: usize,
    pub current_file: Option<String>,
    pub saved_path: Option<String>,
    pub message: Option<String>,
    pub source_paths: Vec<String>,
    pub can_retry: bool,
    pub can_accept: bool,
    pub started_at_ms: u128,
    pub updated_at_ms: u128,
}

/// The view of a [`TransferSnapshot`].
#[verifier::ext_equal]
pub struct TransferView {
    pub id: Seq<char>,
    pub direction: TransferDirection,
    pub peer_id: Seq<char>,
    pub peer_name: Seq<char>,
    pub peer_ip: Option<Seq<char>>,
    pub peer_tcp_port: Option<u16>,
    pub title: Seq<char>,
    pub status: TransferStatus,
    pub bytes_done: u64,
    pub total_bytes: u64,
    pub file_count: usize,
    pub current_file: Option<Seq<char>>,
    pub saved_path: Option<Seq<char>>,
    pub message: Option<Seq<char>>,
    pub source_paths: Seq<Seq<char>>,
    pub can_retry: bool,
    pub can_accept: bool,
    pub started_at_ms: u128,
    pub updated_at_ms: u128,
}

impl View for TransferSnapshot {
    type V = TransferView;

    open spec fn view(&self) -> TransferView {
        TransferView {
            id: self.id@,
            direction: self.direction,
            peer_id: self.peer_id@,
            peer_name: self.peer_name@,
            peer_ip: opt_text(self.peer_ip),
            peer_tcp_port: self.peer_tcp_port,
            title: self.title@,
            status: self.status,
            bytes_done: self.bytes_done,
            total_bytes: self.total_bytes,
            file_count: self.file_count,
            current_file: opt_text(self.current_file),
            saved_path: opt_text(self.saved_path),
            message: opt_text(self.message),
            source_paths: texts(self.source_paths@),
            can_retry: self.can_retry,
            can_accept: self.can_accept,
            started_at_ms: self.started_at_ms,
            updated_at_ms: self.updated_at_ms,
        }
    }
}

impl Clone for TransferSnapshot {
    fn clone(&self) -> (r: Self)
        ensures
            r@ == self@,
    {
        TransferSnapshot {
            id: self.id.clone(),
            direction: self.direction,
            peer_id: self.peer_id.clone(),
            peer_name: self.peer_name.clone(),
            peer_ip: copy_opt_text(&self.peer_ip),
            peer_tcp_port: self.peer_tcp_port,
            title: self.title.clone(),
            status: self.status,
            bytes_done: self.bytes_done,
            total_bytes: self.total_bytes,
            file_count: self.file_count,
            current_file: copy_opt_text(&self.current_file),
            saved_path: copy_opt_text(&self.saved_path),
            message: copy_opt_text(&self.message),
            source_paths: copy_texts(&self.source_paths),
            can_retry: self.can_retry,
            can_accept: self.can_accept,
            started_at_ms: self.started_at_ms,
            updated_at_ms: self.updated_at_ms,
        }
    }
}

/// What a device broadcasts about itself.
#[derive(Debug)]
pub struct DiscoveryPacket {
    pub protocol: String,
    pub version: String,
    pub device_id: String,
    pub device_name: String,
    pub tcp_port: u16,
    pub platform: String,
}

/// The view of a [`DiscoveryPacket`].
#[verifier::ext_equal]
pub struct DiscoveryView {
    pub protocol: Seq<char>,
    pub version: Seq<char>,
    pub device_id: Seq<char>,
    pub device_name: Seq<char>,
    pub tcp_port: u16,
    pub platform: Seq<char>,
}

impl View for DiscoveryPacket {
    type V = DiscoveryView;

    open spec fn view(&self) -> DiscoveryView {
        DiscoveryView {
            protocol: self.protocol@,
            version: self.version@,
            device_id: self.device_id@,
            device_name: self.device_name@,
            tcp_port: self.tcp_port,
            platform: self.platform@,
        }
    }
}

/// One file of a transfer request.
#[derive(Debug)]
pub struct FileManifest {
    pub relative_path: String,
    pub size: u64,
}

/// The view of a [`FileManifest`].
#[verifier::ext_equal]
pub struct ManifestView {
    pub relative_path: Seq<char>,
    pub size: u64,
}

impl View for FileManifest {
    type V = ManifestView;

    open spec fn view(&self) -> ManifestView {
        ManifestView { relative_path: self.relative_path@, size: self.size }
    }
}

/// The views of a list of files of a request.
pub open spec fn manifests(s: Seq<FileManifest>) -> Seq<ManifestView> {
    s.map_values(|m: FileManifest| m@)
}

/// What the sender of a transfer asks of the receiver.
#[derive(Debug)]
pub struct TransferRequest {
    pub protocol: String,
    pub version: String,
    pub transfer_id: String,
    pub sender_id: String,
    pub sender_name: String,
    pub file_count: usize,
    pub total_bytes: u64,
    pub files: Vec<FileManifest>,
}

/// The view of a [`TransferRequest`].
#[verifier::ext_equal]
pub struct RequestView {
    pub protocol: Seq<char>,
    pub version: Seq<char>,
    pub transfer_id: Seq<char>,
    pub sender_id: Seq<char>,
    pub sender_name: Seq<char>,
    pub file_count: usize,
    pub total_bytes: u64,
    pub files: Seq<ManifestView>,
}

impl View for TransferRequest {
    type V = RequestView;

    open spec fn view(&self) -> RequestView {
        RequestView {
            protocol: self.protocol@,
            version: self.version@,
            transfer_id: self.transfer_id@,
            sender_id: self.sender_id@,
            sender_name: self.sender_name@,
            file_count: self.file_count,
            total_bytes: self.total_bytes,
            files: manifests(self.files@),
        }
    }
}

/// The answer of the receiver.
#[derive(Debug)]
pub struct TransferResponse {
    pub accepted: bool,
    pub message: Option<String>,
    pub offsets: Vec<u64>,
}

/// The view of a [`TransferResponse`].
#[verifier::ext_equal]
pub struct ResponseView {
    pub accepted: bool,
    pub message: Option<Seq<char>>,
    pub offsets: Seq<u64>,
}

impl View for TransferResponse {
    type V = ResponseView;

    open spec fn view(&self) -> ResponseView {
        ResponseView {
            accepted: self.accepted,
            message: opt_text(self.message),
            offsets: self.offsets@,
        }
    }
}

/// A file that is to be sent. `source` is the number under which its location
/// on disk is known to whoever reads it.
#[derive(Debug)]
pub struct LocalFileEntry {
    pub source: usize,
    pub relative_path: String,
    pub size: u64,
}

/// The view of a [`LocalFileEntry`].
#[verifier::ext_equal]
pub struct LocalFileView {
    pub source: usize,
    pub relative_path: Seq<char>,
    pub size: u64,
}

impl View for LocalFileEntry {
    type V = LocalFileView;

    open spec fn view(&self) -> LocalFileView {
        LocalFileView {
            source: self.source,
            relative_path: self.relative_path@,
            size: self.size,
        }
    }
}

impl Clone for LocalFileEntry {
    fn clone(&self) -> (r: Self)
        ensures
            r@ == self@,
    {
        LocalFileEntry {
            source: self.source,
            relative_path: self.relative_path.clone(),
            size: self.size,
        }
    }
}

/// The views of a list of files that are to be sent.
pub open spec fn local_files(s: Seq<LocalFileEntry>) -> Seq<LocalFileView> {
    s.map_values(|f: LocalFileEntry| f@)
}

/// A transfer that waits for the user to accept it.
#[derive(Debug)]
pub struct PendingIncoming {
    pub transfer: TransferSnapshot,
}

impl View for PendingIncoming {
    type V = TransferView;

    open spec fn view(&self) -> TransferView {
        self.transfer@
    }
}

// ---------------------------------------------------------------------------
// What the views show
// ---------------------------------------------------------------------------

/// The numbers that devices agree on, and the limits.
pub proof fn lemma_constants()
    ensures
        UDP_PORT == 53342,
        TCP_PORT == 53343,
        DISCOVERY_INTERVAL_MS == 1800,
        DEVICE_STALE_MS == 20_000,
        MAX_METADATA_BYTES == 16 * 1024 * 1024,
        COPY_BUFFER_BYTES == 1024 * 1024,
        INCOMING_DECISION_TIMEOUT_SECONDS == 300,
        MAX_HISTORY_ITEMS == 300,
        APP_PROTOCOL@ == "pc-sharer-v2"@,
{
}

/// The view of the settings, and of what the user is shown of them, has every
/// field.
pub proof fn lemma_config_views(c: Config, a: AppInfo)
    ensures
        c@.device_id == c.device_id@,
        c@.device_name == c.device_name@,
        c@.inbox_dir == c.inbox_dir@,
        c@.trusted_device_ids.len() == c.trusted_device_ids.len(),
        forall|i: int|
            0 <= i < c.trusted_device_ids.len() ==> #[trigger] c@.trusted_device_ids[i]
                == c.trusted_device_ids[i]@,
        a@.device_id == a.device_id@,
        a@.device_name == a.device_name@,
        a@.inbox_dir == a.inbox_dir@,
        a.local_ip matches Some(ip) ==> a@.local_ip == Some(ip@),
        a.local_ip is None ==> a@.local_ip is None,
        a@.tcp_port == a.tcp_port,
        a@.udp_port == a.udp_port,
        a@.trusted_device_ids.len() == a.trusted_device_ids.len(),
        forall|i: int|
            0 <= i < a.trusted_device_ids.len() ==> #[trigger] a@.trusted_device_ids[i]
                == a.trusted_device_ids[i]@,
{
}

/// The view of a device, and of what it announces, has every field.
pub proof fn lemma_device_views(d: DeviceSnapshot, p: DiscoveryPacket)
    ensures
        d@.id == d.id@,
        d@.name == d.name@,
        d@.ip == d.ip@,
        d@.tcp_port == d.tcp_port,
        d@.platform == d.platform@,
        d@.last_seen_ms == d.last_seen_ms,
        d@.is_manual == d.is_manual,
        d@.is_trusted == d.is_trusted,
        p@.protocol == p.protocol@,
        p@.version == p.version@,
        p@.device_id == p.device_id@,
        p@.device_name == p.device_name@,
        p@.tcp_port == p.tcp_port,
        p@.platform == p.platform@,
{
}

/// The view of the record of a transfer has every field.
pub proof fn lemma_transfer_view(t: TransferSnapshot, waiting: PendingIncoming)
    ensures
        t@.id == t.id@,
        t@.direction == t.direction,
        t@.peer_id == t.peer_id@,
        t@.peer_name == t.peer_name@,
        t.peer_ip matches Some(ip) ==> t@.peer_ip == Some(ip@),
        t.peer_ip is None ==> t@.peer_ip is None,
        t@.peer_tcp_port == t.peer_tcp_port,
        t@.title == t.title@,
        t@.status == t.status,
        t@.bytes_done == t.bytes_done,
        t@.total_bytes == t.total_bytes,
        t@.file_count == t.file_count,
        t.current_file matches Some(name) ==> t@.current_file == Some(name@),
        t.current_file is None ==> t@.current_file is None,
        t.saved_path matches Some(path) ==> t@.saved_path == Some(path@),
        t.saved_path is None ==> t@.saved_path is None,
        t.message matches Some(message) ==> t@.message == Some(message@),
        t.message is None ==> t@.message is None,
        t@.source_paths.len() == t.source_paths.len(),
        forall|i: int|
            0 <= i < t.source_paths.len() ==> #[trigger] t@.source_paths[i] == t.source_paths[i]@,
        t@.can_retry == t.can_retry,
        t@.can_accept == t.can_accept,
        t@.started_at_ms == t.started_at_ms,
        t@.updated_at_ms == t.updated_at_ms,
        waiting@ == waiting.transfer@,
{
}

/// The view of what sender and receiver tell each other has every field.
pub proof fn lemma_message_views(q: TransferRequest, a: TransferResponse, f: LocalFileEntry)
    ensures
        q@.protocol == q.protocol@,
        q@.version == q.version@,
        q@.transfer_id == q.transfer_id@,
        q@.sender_id == q.sender_id@,
        q@.sender_name == q.sender_name@,
        q@.file_count == q.file_count,
        q@.total_bytes == q.total_bytes,
        q@.files.len() == q.files.len(),
        forall|i: int|
            0 <= i < q.files.len() ==> (#[trigger] q@.files[i]).relative_path
                == q.files[i].relative_path@ && q@.files[i].size == q.files[i].size,
        a@.accepted == a.accepted,
        a.message matches Some(message) ==> a@.message == Some(message@),
        a.message is None ==> a@.message is None,
        a@.offsets == a.offsets@,
        f@.source == f.source,
        f@.relative_path == f.relative_path@,
        f@.size == f.size,
{
}

/// The views of a list of files are those of its files, one by one.
pub proof fn lemma_local_files(files: Seq<LocalFileEntry>)
    ensures
        local_files(files).len() == files.len(),
        forall|i: int| 0 <= i < files.len() ==> #[trigger] local_files(files)[i] == files[i]@,
{
}

} // verus!
