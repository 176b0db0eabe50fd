//! The state of the application: its settings, the devices it knows, its
//! transfers, and those that wait to be accepted.

use crate::collect::{
    all_files, by_relative_path, collect_files, first_error, request_title, titled,
    transfer_title, SourcePath,
};
use crate::config::lemma_trust_is_settled;
use crate::devices::{in_listing_order, refresh_devices, refreshed};
use crate::history::{history_to_keep, kept_on_disk, latest_first, list_latest_first};
use crate::ids::{fresh_id, id_or_fresh, is_random_uuid};
use crate::model::{
    local_files, Config, ConfigView, DeviceSnapshot, DeviceView, DiscoveryPacket, DiscoveryView,
    LocalFileEntry, LocalFileView, PendingIncoming, RequestView, ResponseView, TransferDirection,
    TransferRequest, TransferResponse, TransferSnapshot, TransferStatus, TransferView,
    APP_PROTOCOL, TCP_PORT,
};
use crate::order::{record_views, stably_sorted};
use crate::progress::{patched, stamped, TransferPatch};
use crate::receive::{plan_offsets, plans, ReceivePlan, ReceiveSession, ReceiveView};
use crate::registry::{entered, lists, Registry};
use crate::resume::{
    checked_total, file_sizes, manifest_sizes, resumed, sizes_of_files, total_size,
};
use crate::target::{manual_target, parse_manual_target, TargetView};
use crate::text::{decimal, push_decimal, same_text, texts};
use vstd::prelude::*;
use vstd::string::StringExecFns;

verus! {

/// The state of the application.
#[derive(Debug)]
pub struct RuntimeState {
    pub config: Config,
    pub devices: Registry<DeviceSnapshot>,
    pub transfers: Registry<TransferSnapshot>,
    pub pending_incoming: Registry<PendingIncoming>,
}

/// The view of a [`RuntimeState`].
#[verifier::ext_equal]
pub struct RuntimeView {
    pub config: ConfigView,
    pub devices: Map<Seq<char>, DeviceView>,
    pub transfers: Map<Seq<char>, TransferView>,
    pub pending_incoming: Map<Seq<char>, TransferView>,
}

impl View for RuntimeState {
    type V = RuntimeView;

    open spec fn view(&self) -> RuntimeView {
        RuntimeView {
            config: self.config@,
            devices: self.devices@,
            transfers: self.transfers@,
            pending_incoming: self.pending_incoming@,
        }
    }
}

// ---------------------------------------------------------------------------
// What the records hold
// ---------------------------------------------------------------------------

/// The id of a device that was added by hand.
pub open spec fn manual_id(host: Seq<char>, port: u16) -> Seq<char> {
    "manual:"@ + host + ":"@ + decimal(port as nat)
}

/// A device that is added by hand.
pub open spec fn manual_device(
    config: ConfigView,
    host: Seq<char>,
    port: u16,
    now_ms: u128,
) -> DeviceView {
    DeviceView {
        id: manual_id(host, port),
        name: "手动 "@ + host,
        ip: host,
        tcp_port: port,
        platform: "manual"@,
        last_seen_ms: now_ms,
        is_manual: true,
        is_trusted: config.trusts(manual_id(host, port)),
    }
}

/// A device that announced itself.
pub open spec fn announced_device(
    config: ConfigView,
    packet: DiscoveryView,
    ip: Seq<char>,
    now_ms: u128,
) -> DeviceView {
    DeviceView {
        id: packet.device_id,
        name: packet.device_name,
        ip,
        tcp_port: packet.tcp_port,
        platform: packet.platform,
        last_seen_ms: now_ms,
        is_manual: false,
        is_trusted: config.trusts(packet.device_id),
    }
}

/// What a device announces about itself.
pub open spec fn announced_by(
    config: ConfigView,
    version: Seq<char>,
    platform: Seq<char>,
) -> DiscoveryView {
    DiscoveryView {
        protocol: APP_PROTOCOL@,
        version,
        device_id: config.device_id,
        device_name: config.device_name,
        tcp_port: TCP_PORT,
        platform,
    }
}

/// Whether an announcement counts: it is of this protocol, and not this
/// device's own.
pub open spec fn counts(config: ConfigView, packet: DiscoveryView) -> bool {
    packet.protocol == APP_PROTOCOL@ && packet.device_id != config.device_id
}

/// A device that is known from the record of a transfer only.
pub open spec fn remembered_device(t: TransferView, ip: Seq<char>, now_ms: u128) -> DeviceView {
    DeviceView {
        id: t.peer_id,
        name: t.peer_name,
        ip,
        tcp_port: match t.peer_tcp_port {
            Some(port) => port,
            None => TCP_PORT,
        },
        platform: "history"@,
        last_seen_ms: now_ms,
        is_manual: true,
        is_trusted: false,
    }
}

/// The device to which a transfer is sent again: the one that is known under
/// the same id, or else the one that the record remembers.
pub open spec fn target_again(
    devices: Map<Seq<char>, DeviceView>,
    t: TransferView,
    now_ms: u128,
) -> Option<DeviceView> {
    if devices.contains_key(t.peer_id) {
        Some(devices[t.peer_id])
    } else {
        match t.peer_ip {
            Some(ip) => Some(remembered_device(t, ip, now_ms)),
            None => None,
        }
    }
}

/// The id under which a transfer is sent again: its own if it failed, so that
/// it can be resumed, else a new one.
pub open spec fn retry_id(t: TransferView, fresh_id: Seq<char>) -> Seq<char> {
    if t.status is Failed {
        t.id
    } else {
        fresh_id
    }
}

/// The record of a transfer that is about to be sent.
pub open spec fn queued_transfer(
    target: DeviceView,
    files: Seq<LocalFileView>,
    paths: Seq<Seq<char>>,
    transfer_id: Seq<char>,
    is_retry: bool,
    now_ms: u128,
) -> TransferView {
    TransferView {
        id: transfer_id,
        direction: TransferDirection::Send,
        peer_id: target.id,
        peer_name: target.name,
        peer_ip: Some(target.ip),
        peer_tcp_port: Some(target.tcp_port),
        title: titled(files.len(), files[0].relative_path, "空传输"@),
        status: TransferStatus::Queued,
        bytes_done: 0,
        total_bytes: total_size(file_sizes(files)) as u64,
        file_count: files.len() as usize,
        current_file: None,
        saved_path: None,
        message: if is_retry {
            Some("重试传输，接收端会尝试从 .part 文件续传"@)
        } else {
            None
        },
        source_paths: paths,
        can_retry: false,
        can_accept: false,
        started_at_ms: now_ms,
        updated_at_ms: now_ms,
    }
}

/// The record of a transfer that another device asks for. One that this device
/// trusts is received at once; any other waits to be accepted.
pub open spec fn incoming_transfer(
    config: ConfigView,
    request: RequestView,
    peer_ip: Seq<char>,
    now_ms: u128,
) -> TransferView {
    let trusted = config.trusts(request.sender_id);
    TransferView {
        id: request.transfer_id,
        direction: TransferDirection::Receive,
        peer_id: request.sender_id,
        peer_name: request.sender_name,
        peer_ip: Some(peer_ip),
        peer_tcp_port: Some(TCP_PORT),
        title: titled(request.files.len(), request.files[0].relative_path, "未命名传输"@),
        status: if trusted {
            TransferStatus::Receiving
        } else {
            TransferStatus::Pending
        },
        bytes_done: 0,
        total_bytes: request.total_bytes,
        file_count: request.file_count,
        current_file: None,
        saved_path: None,
        message: Some(
            if trusted {
                "来自 "@ + peer_ip + "，已在白名单中"@
            } else {
                "来自 "@ + peer_ip + "，等待接收确认"@
            },
        ),
        source_paths: Seq::empty(),
        can_retry: false,
        can_accept: !trusted,
        started_at_ms: now_ms,
        updated_at_ms: now_ms,
    }
}

/// The answer to a request that was not accepted.
pub open spec fn refusal() -> ResponseView {
    ResponseView { accepted: false, message: Some("接收端未确认或已拒绝"@), offsets: Seq::empty() }
}

/// What is sent, and to which device.
#[derive(Debug)]
pub struct SendPlan {
    pub target: DeviceSnapshot,
    pub files: Vec<LocalFileEntry>,
}

/// What is needed to send a transfer again.
#[derive(Debug)]
pub struct RetryPlan {
    pub source_paths: Vec<String>,
    pub target_id: String,
    pub transfer_id: String,
}

/// A request that was let in, and whether its sender is trusted.
#[derive(Debug)]
pub struct Admission {
    pub transfer: TransferSnapshot,
    pub trusted: bool,
}

/// A transfer that the user accepted, and whether the settings changed by it.
#[derive(Debug)]
pub struct Acceptance {
    pub transfer: TransferSnapshot,
    pub config_changed: bool,
}

// ---------------------------------------------------------------------------
// What changes the state
// ---------------------------------------------------------------------------

impl RuntimeView {
    /// The state at the start: the settings and the history that were kept, no
    /// devices, and nothing that waits.
    pub open spec fn at_start(config: ConfigView, history: Seq<TransferView>) -> RuntimeView {
        RuntimeView {
            config,
            devices: Map::empty(),
            transfers: entered::<TransferSnapshot>(history),
            pending_incoming: Map::empty(),
        }
    }

    /// The state after a record of a transfer was entered at a time.
    pub open spec fn with_transfer(self, t: TransferView, now_ms: u128) -> RuntimeView {
        RuntimeView { transfers: self.transfers.insert(t.id, stamped(t, now_ms)), ..self }
    }

    /// The state after a step of a transfer. A transfer that is not known takes
    /// no step.
    pub open spec fn with_patch(self, id: Seq<char>, patch: TransferPatch, now_ms: u128) -> RuntimeView {
        if self.transfers.contains_key(id) {
            self.with_transfer(patched(self.transfers[id], patch), now_ms)
        } else {
            self
        }
    }

    /// The state after a device was entered.
    pub open spec fn with_device(self, d: DeviceView) -> RuntimeView {
        RuntimeView { devices: self.devices.insert(d.id, d), ..self }
    }

    /// The state after a request was let in.
    pub open spec fn with_request(
        self,
        request: RequestView,
        peer_ip: Seq<char>,
        now_ms: u128,
        stored_at_ms: u128,
    ) -> RuntimeView {
        let t = incoming_transfer(self.config, request, peer_ip, now_ms);
        let stored = self.with_transfer(t, stored_at_ms);
        if self.config.trusts(request.sender_id) {
            stored
        } else {
            RuntimeView { pending_incoming: self.pending_incoming.insert(t.id, t), ..stored }
        }
    }

    /// The state after a transfer that waits was accepted, and its sender
    /// trusted if the user said so.
    pub open spec fn with_accepted(self, id: Seq<char>, trust_sender: bool) -> RuntimeView {
        RuntimeView {
            config: if trust_sender {
                self.config.with_trust(self.pending_incoming[id].peer_id, true)
            } else {
                self.config
            },
            ..self.without_pending(id)
        }
    }

    /// The state after a transfer no longer waits.
    pub open spec fn without_pending(self, id: Seq<char>) -> RuntimeView {
        RuntimeView { pending_incoming: self.pending_incoming.remove(id), ..self }
    }
}

impl RuntimeState {
    /// The tables hold each id once.
    pub open spec fn wf(&self) -> bool {
        self.devices.wf() && self.transfers.wf() && self.pending_incoming.wf()
    }

    /// The state at the start: the settings and the history that were kept, no
    /// devices, and nothing that waits.
    pub fn new(config: Config, history: Vec<TransferSnapshot>) -> (r: RuntimeState)
        ensures
            r.wf(),
            r@ == RuntimeView::at_start(config@, record_views(history@)),
    {
        RuntimeState {
            config,
            devices: Registry::new(),
            transfers: Registry::from_items(history),
            pending_incoming: Registry::new(),
        }
    }

    /// Forgets devices that are no longer there, and lists the others.
    pub fn snapshot_devices(&mut self, now_ms: u128) -> (r: Vec<DeviceSnapshot>)
        requires
            old(self).wf(),
        ensures
            final(self).wf(),
            final(self)@ == (RuntimeView {
                devices: refreshed(old(self)@.devices, old(self)@.config, now_ms),
                ..old(self)@
            }),
            lists::<DeviceSnapshot>(record_views(r@), final(self)@.devices),
            in_listing_order(record_views(r@)),
    {
        refresh_devices(&mut self.devices, &self.config, now_ms)
    }

    /// All transfers, latest first.
    pub fn list_transfers(&self) -> (r: Vec<TransferSnapshot>)
        requires
            self.wf(),
        ensures
            lists::<TransferSnapshot>(record_views(r@), self@.transfers),
            latest_first(record_views(r@)),
    {
        list_latest_first(&self.transfers)
    }

    /// The transfers that are kept on disk.
    pub fn persist_history(&self) -> (r: Vec<TransferSnapshot>)
        requires
            self.wf(),
        ensures
            kept_on_disk(record_views(r@), self@.transfers),
    {
        history_to_keep(&self.transfers)
    }

    /// Makes another directory the inbox.
    pub fn set_inbox_dir(&mut self, path: String)
        requires
            old(self).wf(),
        ensures
            final(self).wf(),
            final(self)@ == (RuntimeView {
                config: ConfigView { inbox_dir: path@, ..old(self)@.config },
                ..old(self)@
            }),
    {
        self.config.set_inbox_dir(path);
    }

    /// Trusts a device, or no longer trusts it.
    pub fn set_device_trusted(&mut self, device_id: &str, trusted: bool)
        requires
            old(self).wf(),
        ensures
            final(self).wf(),
            final(self)@ == (RuntimeView {
                config: old(self)@.config.with_trust(device_id@, trusted),
                ..old(self)@
            }),
    {
        self.config.set_trusted(device_id, trusted);
    }

    /// Adds a device that the user typed in.
    pub fn add_manual_device(&mut self, host: &str, port: Option<u16>, now_ms: u128) -> (r: Result<
        DeviceSnapshot,
        String,
    >)
        requires
            old(self).wf(),
        ensures
            final(self).wf(),
            ({
                let default_port = match port {
                    Some(p) => p,
                    None => TCP_PORT,
                };
                match manual_target(host@, default_port) {
                    TargetView::Empty => {
                        &&& r matches Err(e) && e@ == "请输入目标 IP"@
                        &&& final(self)@ == old(self)@
                    },
                    TargetView::BadPort => {
                        &&& r matches Err(e) && e@ == "端口格式不正确"@
                        &&& final(self)@ == old(self)@
                    },
                    TargetView::Target { host, port } => {
                        let d = manual_device(old(self)@.config, host, port, now_ms);
                        &&& r matches Ok(device) && device@ == d
                        &&& final(self)@ == old(self)@.with_device(d)
                    },
                }
            }),
    {
        let default_port: u16 = match port {
            Some(p) => p,
            None => TCP_PORT,
        };
        let (ip, tcp_port) = match parse_manual_target(host, default_port) {
            Ok(target) => target,
            Err(e) => {
                return Err(e);
            },
        };
        let mut id = "manual:".to_owned();
        id.append(&ip);
        id.append(":");
        push_decimal(&mut id, tcp_port as u128);
        let mut name = "手动 ".to_owned();
        name.append(&ip);
        let is_trusted: bool = self.config.is_trusted(&id);
        let device = DeviceSnapshot {
            id,
            name,
            ip,
            tcp_port,
            platform: "manual".to_owned(),
            last_seen_ms: now_ms,
            is_manual: true,
            is_trusted,
        };
        self.devices.insert(device.clone());
        Ok(device)
    }

    /// What this device announces about itself.
    pub fn announcement(&self, version: &str, platform: &str) -> (r: DiscoveryPacket)
        ensures
            r@ == announced_by(self@.config, version@, platform@),
    {
        DiscoveryPacket {
            protocol: APP_PROTOCOL.to_owned(),
            version: version.to_owned(),
            device_id: self.config.device_id.clone(),
            device_name: self.config.device_name.clone(),
            tcp_port: TCP_PORT,
            platform: platform.to_owned(),
        }
    }

    /// Takes note of an announcement, and says whether it counted.
    pub fn hear_announcement(&mut self, packet: DiscoveryPacket, ip: String, now_ms: u128) -> (r:
        bool)
        requires
            old(self).wf(),
        ensures
            final(self).wf(),
            r == counts(old(self)@.config, packet@),
            final(self)@ == (if r {
                old(self)@.with_device(
                    announced_device(old(self)@.config, packet@, ip@, now_ms),
                )
            } else {
                old(self)@
            }),
    {
        if !same_text(&packet.protocol, APP_PROTOCOL) || same_text(
            &packet.device_id,
            &self.config.device_id,
        ) {
            return false;
        }
        let is_trusted: bool = self.config.is_trusted(&packet.device_id);
        let device = DeviceSnapshot {
            id: packet.device_id,
            name: packet.device_name,
            ip,
            tcp_port: packet.tcp_port,
            platform: packet.platform,
            last_seen_ms: now_ms,
            is_manual: false,
            is_trusted,
        };
        self.devices.insert(device);
        true
    }

    /// The device that files are to be sent to.
    pub fn find_target(&self, device_id: &str) -> (r: Result<DeviceSnapshot, String>)
        requires
            self.wf(),
        ensures
            match r {
                Ok(d) => self@.devices.contains_key(device_id@) && d@
                    == self@.devices[device_id@],
                Err(e) => !self@.devices.contains_key(device_id@) && e@
                    == "目标电脑不在线或不存在"@,
            },
    {
        match self.devices.get(device_id) {
            Some(d) => Ok(d.clone()),
            None => Err("目标电脑不在线或不存在".to_owned()),
        }
    }

    /// The device to which a transfer is sent again.
    pub fn resolve_target_from_transfer(&self, transfer: &TransferSnapshot, now_ms: u128) -> (r:
        Result<DeviceSnapshot, String>)
        requires
            self.wf(),
        ensures
            match target_again(self@.devices, transfer@, now_ms) {
                Some(d) => r matches Ok(device) && device@ == d,
                None => r matches Err(e) && e@ == "目标电脑不在线，也没有历史 IP 可用"@,
            },
    {
        match self.devices.get(&transfer.peer_id) {
            Some(device) => {
                return Ok(device.clone());
            },
            None => {},
        }
        let ip = match &transfer.peer_ip {
            Some(ip) => ip.clone(),
            None => {
                return Err("目标电脑不在线，也没有历史 IP 可用".to_owned());
            },
        };
        let tcp_port: u16 = match transfer.peer_tcp_port {
            Some(port) => port,
            None => TCP_PORT,
        };
        Ok(
            DeviceSnapshot {
                id: transfer.peer_id.clone(),
                name: transfer.peer_name.clone(),
                ip,
                tcp_port,
                platform: "history".to_owned(),
                last_seen_ms: now_ms,
                is_manual: true,
                is_trusted: false,
            },
        )
    }

    /// Enters the record of a transfer, and gives back what was entered.
    pub fn update_transfer(&mut self, transfer: TransferSnapshot, now_ms: u128) -> (r:
        TransferSnapshot)
        requires
            old(self).wf(),
        ensures
            final(self).wf(),
            final(self)@ == old(self)@.with_transfer(transfer@, now_ms),
            r@ == stamped(transfer@, now_ms),
    {
        let mut transfer = transfer;
        transfer.updated_at_ms = now_ms;
        self.transfers.insert(transfer.clone());
        transfer
    }

    /// Takes a step of a transfer, and gives back its record, if it is known.
    pub fn patch_transfer(&mut self, transfer_id: &str, patch: TransferPatch, now_ms: u128) -> (r:
        Option<TransferSnapshot>)
        requires
            old(self).wf(),
        ensures
            final(self).wf(),
            final(self)@ == old(self)@.with_patch(transfer_id@, patch, now_ms),
            match r {
                Some(t) => {
                    &&& old(self)@.transfers.contains_key(transfer_id@)
                    &&& t@ == stamped(patched(old(self)@.transfers[transfer_id@], patch), now_ms)
                },
                None => !old(self)@.transfers.contains_key(transfer_id@),
            },
    {
        let mut transfer = match self.transfers.get(transfer_id) {
            Some(t) => t.clone(),
            None => {
                return None;
            },
        };
        transfer.apply(patch);
        Some(self.update_transfer(transfer, now_ms))
    }

    /// Marks a transfer as failed.
    pub fn mark_transfer_failed(&mut self, transfer_id: &str, message: String, now_ms: u128) -> (r:
        Option<TransferSnapshot>)
        requires
            old(self).wf(),
        ensures
            final(self).wf(),
            final(self)@ == old(self)@.with_patch(
                transfer_id@,
                TransferPatch::Failed { message },
                now_ms,
            ),
            match r {
                Some(t) => {
                    &&& old(self)@.transfers.contains_key(transfer_id@)
                    &&& t@ == stamped(
                        patched(
                            old(self)@.transfers[transfer_id@],
                            TransferPatch::Failed { message },
                        ),
                        now_ms,
                    )
                },
                None => !old(self)@.transfers.contains_key(transfer_id@),
            },
    {
        self.patch_transfer(transfer_id, TransferPatch::Failed { message }, now_ms)
    }

    /// Finds the device that files are to be sent to, and collects the files.
    /// There must be something to send.
    pub fn prepare_send(&self, sources: &Vec<SourcePath>, target_device_id: &str) -> (r: Result<
        SendPlan,
        String,
    >)
        requires
            self.wf(),
        ensures
            if !self@.devices.contains_key(target_device_id@) {
                r matches Err(e) && e@ == "目标电脑不在线或不存在"@
            } else {
                match first_error(sources@) {
                    Some(message) => r matches Err(e) && e@ == message,
                    None => if all_files(sources@).len() == 0 {
                        r matches Err(e) && e@ == "没有可发送的文件"@
                    } else {
                        r matches Ok(plan) && {
                            &&& plan.target@ == self@.devices[target_device_id@]
                            &&& plan.files.len() == all_files(sources@).len()
                            &&& stably_sorted(
                                all_files(sources@),
                                by_relative_path(),
                                local_files(plan.files@),
                            )
                        }
                    },
                }
            },
    {
        let target = match self.find_target(target_device_id) {
            Ok(target) => target,
            Err(e) => {
                return Err(e);
            },
        };
        let files = match collect_files(sources) {
            Ok(files) => files,
            Err(e) => {
                return Err(e);
            },
        };
        assert(local_files(files@).len() == all_files(sources@).len());
        if files.len() == 0 {
            return Err("没有可发送的文件".to_owned());
        }
        Ok(SendPlan { target, files })
    }

    /// Enters a transfer that is about to be sent under the given id.
    pub fn queue_send(
        &mut self,
        plan: &SendPlan,
        paths: Vec<String>,
        transfer_id: String,
        is_retry: bool,
        now_ms: u128,
        stored_at_ms: u128,
    ) -> (r: TransferSnapshot)
        requires
            old(self).wf(),
            total_size(file_sizes(local_files(plan.files@))) <= u64::MAX,
        ensures
            final(self).wf(),
            ({
                let queued = queued_transfer(
                    plan.target@,
                    local_files(plan.files@),
                    texts(paths@),
                    transfer_id@,
                    is_retry,
                    now_ms,
                );
                &&& r@ == stamped(queued, stored_at_ms)
                &&& final(self)@ == old(self)@.with_transfer(queued, stored_at_ms)
            }),
    {
        let target = &plan.target;
        let files = &plan.files;
        let sizes = sizes_of_files(files);
        let total_bytes: u64 = match checked_total(&sizes) {
            Some(n) => n,
            None => 0,
        };
        let message: Option<String> = if is_retry {
            Some("重试传输，接收端会尝试从 .part 文件续传".to_owned())
        } else {
            None
        };
        assert(files.len() > 0 ==> local_files(files@)[0] == files@[0]@);
        let transfer = TransferSnapshot {
            id: transfer_id,
            direction: TransferDirection::Send,
            peer_id: target.id.clone(),
            peer_name: target.name.clone(),
            peer_ip: Some(target.ip.clone()),
            peer_tcp_port: Some(target.tcp_port),
            title: transfer_title(files.as_slice()),
            status: TransferStatus::Queued,
            bytes_done: 0,
            total_bytes,
            file_count: files.len(),
            current_file: None,
            saved_path: None,
            message,
            source_paths: paths,
            can_retry: false,
            can_accept: false,
            started_at_ms: now_ms,
            updated_at_ms: now_ms,
        };
        self.update_transfer(transfer, stored_at_ms)
    }

    /// Enters a transfer that is about to be sent, under the given id or under
    /// a new one.
    pub fn start_send_paths(
        &mut self,
        plan: &SendPlan,
        paths: Vec<String>,
        transfer_id_override: Option<String>,
        is_retry: bool,
        now_ms: u128,
        stored_at_ms: u128,
    ) -> (r: TransferSnapshot)
        requires
            old(self).wf(),
            total_size(file_sizes(local_files(plan.files@))) <= u64::MAX,
        ensures
            final(self).wf(),
            match transfer_id_override {
                Some(id) => r@.id == id@,
                None => is_random_uuid(r@.id),
            },
            ({
                let queued = queued_transfer(
                    plan.target@,
                    local_files(plan.files@),
                    texts(paths@),
                    r@.id,
                    is_retry,
                    now_ms,
                );
                &&& r@ == stamped(queued, stored_at_ms)
                &&& final(self)@ == old(self)@.with_transfer(queued, stored_at_ms)
            }),
    {
        let transfer_id = id_or_fresh(transfer_id_override);
        self.queue_send(plan, paths, transfer_id, is_retry, now_ms, stored_at_ms)
    }

    /// Prepares to send a transfer again. One that failed keeps its id, so that
    /// it can be resumed; any other is sent under `fresh_id`.
    pub fn prepare_retry(&mut self, transfer_id: &str, now_ms: u128, fresh_id: String) -> (r:
        Result<RetryPlan, String>)
        requires
            old(self).wf(),
        ensures
            final(self).wf(),
            ({
                let known = old(self)@.transfers.contains_key(transfer_id@);
                let t = old(self)@.transfers[transfer_id@];
                let target = target_again(old(self)@.devices, t, now_ms);
                if !known {
                    &&& r matches Err(e) && e@ == "找不到历史记录"@
                    &&& final(self)@ == old(self)@
                } else if t.source_paths.len() == 0 {
                    &&& r matches Err(e) && e@ == "这条记录没有可重发的源文件路径"@
                    &&& final(self)@ == old(self)@
                } else {
                    match target {
                        None => {
                            &&& r matches Err(e) && e@ == "目标电脑不在线，也没有历史 IP 可用"@
                            &&& final(self)@ == old(self)@
                        },
                        Some(d) => {
                            &&& r matches Ok(plan) && {
                                &&& texts(plan.source_paths@) == t.source_paths
                                &&& plan.target_id@ == d.id
                                &&& plan.transfer_id@ == retry_id(t, fresh_id@)
                                &&& t.id == transfer_id@
                            }
                            &&& final(self)@ == old(self)@.with_device(d)
                        },
                    }
                }
            }),
    {
        proof {
            self.transfers.lemma_keys();
        }
        let transfer = match self.transfers.get(transfer_id) {
            Some(t) => t.clone(),
            None => {
                return Err("找不到历史记录".to_owned());
            },
        };
        assert(transfer@.source_paths.len() == transfer.source_paths.len());
        if transfer.source_paths.len() == 0 {
            return Err("这条记录没有可重发的源文件路径".to_owned());
        }
        let target = match self.resolve_target_from_transfer(&transfer, now_ms) {
            Ok(target) => target,
            Err(e) => {
                return Err(e);
            },
        };
        let target_id = target.id.clone();
        self.devices.insert(target);
        let transfer_id = if transfer.status == TransferStatus::Failed {
            transfer.id
        } else {
            fresh_id
        };
        Ok(RetryPlan { source_paths: transfer.source_paths, target_id, transfer_id })
    }

    /// Prepares to send a transfer again. One that failed keeps its id, any
    /// other gets a new one.
    pub fn retry_transfer(&mut self, transfer_id: &str, now_ms: u128) -> (r: Result<
        RetryPlan,
        String,
    >)
        requires
            old(self).wf(),
        ensures
            final(self).wf(),
            ({
                let known = old(self)@.transfers.contains_key(transfer_id@);
                let t = old(self)@.transfers[transfer_id@];
                let target = target_again(old(self)@.devices, t, now_ms);
                if !known {
                    &&& r matches Err(e) && e@ == "找不到历史记录"@
                    &&& final(self)@ == old(self)@
                } else if t.source_paths.len() == 0 {
                    &&& r matches Err(e) && e@ == "这条记录没有可重发的源文件路径"@
                    &&& final(self)@ == old(self)@
                } else {
                    match target {
                        None => {
                            &&& r matches Err(e) && e@ == "目标电脑不在线，也没有历史 IP 可用"@
                            &&& final(self)@ == old(self)@
                        },
                        Some(d) => {
                            &&& r matches Ok(plan) && {
                                &&& texts(plan.source_paths@) == t.source_paths
                                &&& plan.target_id@ == d.id
                                &&& t.status is Failed ==> plan.transfer_id@ == transfer_id@
                                &&& !(t.status is Failed) ==> is_random_uuid(plan.transfer_id@)
                            }
                            &&& final(self)@ == old(self)@.with_device(d)
                        },
                    }
                }
            }),
    {
        self.prepare_retry(transfer_id, now_ms, fresh_id())
    }

    /// Lets a request in. One of another protocol is an error.
    pub fn admit_request(
        &mut self,
        request: &TransferRequest,
        peer_ip: &str,
        now_ms: u128,
        stored_at_ms: u128,
    ) -> (r: Result<Admission, String>)
        requires
            old(self).wf(),
        ensures
            final(self).wf(),
            match r {
                Ok(admission) => {
                    &&& request@.protocol == APP_PROTOCOL@
                    &&& admission.trusted == old(self)@.config.trusts(request@.sender_id)
                    &&& admission.transfer@ == incoming_transfer(
                        old(self)@.config,
                        request@,
                        peer_ip@,
                        now_ms,
                    )
                    &&& final(self)@ == old(self)@.with_request(
                        request@,
                        peer_ip@,
                        now_ms,
                        stored_at_ms,
                    )
                },
                Err(e) => {
                    &&& request@.protocol != APP_PROTOCOL@
                    &&& e@ == "不支持的传输协议"@
                    &&& final(self)@ == old(self)@
                },
            },
    {
        if !same_text(&request.protocol, APP_PROTOCOL) {
            return Err("不支持的传输协议".to_owned());
        }
        let trusted: bool = self.config.is_trusted(&request.sender_id);
        let mut message = "来自 ".to_owned();
        message.append(peer_ip);
        if trusted {
            message.append("，已在白名单中");
        } else {
            message.append("，等待接收确认");
        }
        let source_paths: Vec<String> = Vec::new();
        assert(texts(source_paths@) =~= Seq::<Seq<char>>::empty());
        assert(request.files.len() > 0 ==> request@.files[0] == request.files@[0]@);
        let transfer = TransferSnapshot {
            id: request.transfer_id.clone(),
            direction: TransferDirection::Receive,
            peer_id: request.sender_id.clone(),
            peer_name: request.sender_name.clone(),
            peer_ip: Some(peer_ip.to_owned()),
            peer_tcp_port: Some(TCP_PORT),
            title: request_title(request.files.as_slice()),
            status: if trusted {
                TransferStatus::Receiving
            } else {
                TransferStatus::Pending
            },
            bytes_done: 0,
            total_bytes: request.total_bytes,
            file_count: request.file_count,
            current_file: None,
            saved_path: None,
            message: Some(message),
            source_paths,
            can_retry: false,
            can_accept: !trusted,
            started_at_ms: now_ms,
            updated_at_ms: now_ms,
        };
        let _ = self.update_transfer(transfer.clone(), stored_at_ms);
        if !trusted {
            self.pending_incoming.insert(PendingIncoming { transfer: transfer.clone() });
        }
        Ok(Admission { transfer, trusted })
    }

    /// Ends the wait for a decision about a transfer: without one that accepts
    /// it, the transfer waits no longer, and its sender gets the answer that is
    /// given back.
    pub fn conclude_wait(&mut self, transfer_id: &str, decision: Option<bool>) -> (r: Option<
        TransferResponse,
    >)
        requires
            old(self).wf(),
        ensures
            final(self).wf(),
            if may_begin(false, decision) {
                r is None && final(self)@ == old(self)@
            } else {
                &&& r matches Some(response) && response@ == refusal()
                &&& final(self)@ == old(self)@.without_pending(transfer_id@)
            },
    {
        match decision {
            Some(true) => None,
            _ => {
                let _ = self.pending_incoming.remove(transfer_id);
                Some(
                    TransferResponse {
                        accepted: false,
                        message: Some("接收端未确认或已拒绝".to_owned()),
                        offsets: Vec::new(),
                    },
                )
            },
        }
    }

    /// Accepts a transfer that waits, and trusts its sender if the user says
    /// so. A transfer that does not wait is an error.
    pub fn accept_incoming_transfer(&mut self, transfer_id: &str, trust_sender: bool) -> (r: Result<
        Acceptance,
        String,
    >)
        requires
            old(self).wf(),
        ensures
            final(self).wf(),
            match r {
                Ok(acceptance) => {
                    let t = old(self)@.pending_incoming[transfer_id@];
                    let config = old(self)@.config;
                    &&& old(self)@.pending_incoming.contains_key(transfer_id@)
                    &&& acceptance.transfer@ == t
                    &&& acceptance.config_changed == (trust_sender && !config.trusts(t.peer_id))
                    &&& final(self)@ == old(self)@.with_accepted(transfer_id@, trust_sender)
                },
                Err(e) => {
                    &&& !old(self)@.pending_incoming.contains_key(transfer_id@)
                    &&& e@ == "这条接收请求已经失效"@
                    &&& final(self)@ == old(self)@
                },
            },
    {
        let pending = match self.pending_incoming.remove(transfer_id) {
            Some(pending) => pending,
            None => {
                assert(self@.pending_incoming =~= old(self)@.pending_incoming);
                return Err("这条接收请求已经失效".to_owned());
            },
        };
        let mut config_changed: bool = false;
        if trust_sender && !self.config.is_trusted(&pending.transfer.peer_id) {
            self.config.set_trusted(&pending.transfer.peer_id, true);
            config_changed = true;
        }
        Ok(Acceptance { transfer: pending.transfer, config_changed })
    }

    /// Declines a transfer that waits. A transfer that does not wait is an
    /// error.
    pub fn decline_incoming_transfer(&mut self, transfer_id: &str) -> (r: Result<
        TransferSnapshot,
        String,
    >)
        requires
            old(self).wf(),
        ensures
            final(self).wf(),
            match r {
                Ok(t) => {
                    &&& old(self)@.pending_incoming.contains_key(transfer_id@)
                    &&& t@ == old(self)@.pending_incoming[transfer_id@]
                    &&& final(self)@ == old(self)@.without_pending(transfer_id@)
                },
                Err(e) => {
                    &&& !old(self)@.pending_incoming.contains_key(transfer_id@)
                    &&& e@ == "这条接收请求已经失效"@
                    &&& final(self)@ == old(self)@
                },
            },
    {
        match self.pending_incoming.remove(transfer_id) {
            Some(pending) => Ok(pending.transfer),
            None => {
                assert(self@.pending_incoming =~= old(self)@.pending_incoming);
                Err("这条接收请求已经失效".to_owned())
            },
        }
    }
}

/// Whether a transfer may begin: its sender is trusted, or the user accepted it.
pub open spec fn may_begin(trusted: bool, decision: Option<bool>) -> bool {
    trusted || decision == Some(true)
}

/// Begins to receive a request that was let in, if its sender is trusted or the
/// user accepted it.
pub fn begin_receiving(
    admission: &Admission,
    decision: Option<bool>,
    request: TransferRequest,
    plan: Vec<ReceivePlan>,
) -> (r: Option<ReceiveSession>)
    requires
        plan.len() == request.files.len(),
        resumed(plan_offsets(plans(plan@)), manifest_sizes(request@.files)) <= u64::MAX,
    ensures
        r is Some <==> may_begin(admission.trusted, decision),
        r matches Some(session) ==> {
            &&& session.wf()
            &&& session@ == ReceiveView::started(
                request@.files,
                plans(plan@),
                request@.total_bytes,
            )
        },
{
    let accepted: bool = match decision {
        Some(answer) => answer,
        None => false,
    };
    if admission.trusted || accepted {
        Some(ReceiveSession::start(request, plan))
    } else {
        None
    }
}

// ---------------------------------------------------------------------------
// What the operations are for
// ---------------------------------------------------------------------------

/// A transfer is sent again to the device as it is known now, and the devices
/// stay as they are. Only where the device is not known is it made of the
/// address and the port on record, and without an address there is none.
pub proof fn lemma_retry_prefers_the_known_device(s: RuntimeView, t: TransferView, now_ms: u128)
    requires
        s.devices.contains_key(t.peer_id) ==> s.devices[t.peer_id].id == t.peer_id,
    ensures
        s.devices.contains_key(t.peer_id) ==> {
            &&& target_again(s.devices, t, now_ms) == Some(s.devices[t.peer_id])
            &&& s.with_device(s.devices[t.peer_id]) == s
        },
        !s.devices.contains_key(t.peer_id) && t.peer_ip is None ==> target_again(
            s.devices,
            t,
            now_ms,
        ) is None,
        !s.devices.contains_key(t.peer_id) ==> (t.peer_ip matches Some(ip) ==> {
            &&& target_again(s.devices, t, now_ms) matches Some(d) && {
                &&& d.id == t.peer_id
                &&& d.name == t.peer_name
                &&& d.ip == ip
                &&& t.peer_tcp_port matches Some(port) ==> d.tcp_port == port
                &&& t.peer_tcp_port is None ==> d.tcp_port == 53343
                &&& d.platform == "history"@
                &&& d.last_seen_ms == now_ms
                &&& d.is_manual
                &&& !d.is_trusted
            }
        }),
{
    if s.devices.contains_key(t.peer_id) {
        assert(s.devices.insert(t.peer_id, s.devices[t.peer_id]) =~= s.devices);
    }
}

/// A transfer that failed is sent again under its own id, any other under the
/// new one.
pub proof fn lemma_retry_id(t: TransferView, fresh_id: Seq<char>)
    ensures
        t.status == TransferStatus::Failed ==> retry_id(t, fresh_id) == t.id,
        t.status != TransferStatus::Failed ==> retry_id(t, fresh_id) == fresh_id,
{
}

/// A device that is added by hand has the host and the port that were typed,
/// never goes silent, and is trusted as the settings say of its id.
pub proof fn lemma_manual_device(config: ConfigView, host: Seq<char>, port: u16, now_ms: u128)
    ensures
        ({
            let d = manual_device(config, host, port, now_ms);
            &&& d.id == "manual:"@ + host + ":"@ + decimal(port as nat)
            &&& d.name == "手动 "@ + host
            &&& d.ip == host
            &&& d.tcp_port == port
            &&& d.platform == "manual"@
            &&& d.last_seen_ms == now_ms
            &&& d.is_manual
            &&& d.is_trusted == config.trusted_device_ids.contains(d.id)
        }),
{
}

/// A device that announced itself is known by what it said, by the address it
/// was heard from and by when, and is trusted as the settings say of its id.
pub proof fn lemma_announced_device(
    config: ConfigView,
    packet: DiscoveryView,
    ip: Seq<char>,
    now_ms: u128,
)
    ensures
        ({
            let d = announced_device(config, packet, ip, now_ms);
            &&& d.id == packet.device_id
            &&& d.name == packet.device_name
            &&& d.ip == ip
            &&& d.tcp_port == packet.tcp_port
            &&& d.platform == packet.platform
            &&& d.last_seen_ms == now_ms
            &&& !d.is_manual
            &&& d.is_trusted == config.trusted_device_ids.contains(packet.device_id)
        }),
        packet.protocol != "pc-sharer-v2"@ ==> !counts(config, packet),
        packet.device_id == config.device_id ==> !counts(config, packet),
        packet.protocol == "pc-sharer-v2"@ && packet.device_id != config.device_id ==> counts(
            config,
            packet,
        ),
{
}

/// A device announces who it is, and the port on which it takes transfers.
pub proof fn lemma_announcement(config: ConfigView, version: Seq<char>, platform: Seq<char>)
    ensures
        ({
            let p = announced_by(config, version, platform);
            &&& p.protocol == "pc-sharer-v2"@
            &&& p.version == version
            &&& p.device_id == config.device_id
            &&& p.device_name == config.device_name
            &&& p.tcp_port == 53343
            &&& p.platform == platform
        }),
{
}

/// The record of a transfer that is about to be sent tells whom it goes to, what
/// it is made of and where that comes from, and nothing of it is sent yet.
pub proof fn lemma_queued_transfer(
    target: DeviceView,
    files: Seq<LocalFileView>,
    paths: Seq<Seq<char>>,
    id: Seq<char>,
    is_retry: bool,
    now_ms: u128,
)
    requires
        total_size(file_sizes(files)) <= u64::MAX,
        0 < files.len() <= usize::MAX,
    ensures
        ({
            let t = queued_transfer(target, files, paths, id, is_retry, now_ms);
            &&& t.id == id
            &&& t.direction == TransferDirection::Send
            &&& t.status == TransferStatus::Queued
            &&& t.peer_id == target.id
            &&& t.peer_name == target.name
            &&& t.peer_ip == Some(target.ip)
            &&& t.peer_tcp_port == Some(target.tcp_port)
            &&& files.len() == 1 ==> t.title == files[0].relative_path
            &&& files.len() > 1 ==> t.title == files[0].relative_path + " 等 "@ + decimal(files.len())
                + " 个文件"@
            &&& t.bytes_done == 0
            &&& t.total_bytes == total_size(file_sizes(files))
            &&& t.file_count == files.len()
            &&& t.current_file is None
            &&& t.saved_path is None
            &&& t.message is Some == is_retry
            &&& is_retry ==> t.message == Some("重试传输，接收端会尝试从 .part 文件续传"@)
            &&& t.source_paths == paths
            &&& !t.can_retry
            &&& !t.can_accept
            &&& t.started_at_ms == now_ms
            &&& t.updated_at_ms == now_ms
        }),
{
}

/// The record of a transfer that is asked for tells who asks and for what. It
/// waits to be accepted unless its sender is among those that are trusted.
pub proof fn lemma_incoming_transfer(
    config: ConfigView,
    request: RequestView,
    peer_ip: Seq<char>,
    now_ms: u128,
)
    ensures
        ({
            let t = incoming_transfer(config, request, peer_ip, now_ms);
            let trusted = config.trusted_device_ids.contains(request.sender_id);
            &&& t.id == request.transfer_id
            &&& t.direction == TransferDirection::Receive
            &&& t.peer_id == request.sender_id
            &&& t.peer_name == request.sender_name
            &&& t.peer_ip == Some(peer_ip)
            &&& t.peer_tcp_port == Some(53343u16)
            &&& request.files.len() == 0 ==> t.title == "未命名传输"@
            &&& request.files.len() == 1 ==> t.title == request.files[0].relative_path
            &&& request.files.len() > 1 ==> t.title == request.files[0].relative_path + " 等 "@
                + decimal(request.files.len()) + " 个文件"@
            &&& trusted ==> t.status == TransferStatus::Receiving && t.message == Some(
                "来自 "@ + peer_ip + "，已在白名单中"@,
            )
            &&& !trusted ==> t.status == TransferStatus::Pending && t.message == Some(
                "来自 "@ + peer_ip + "，等待接收确认"@,
            )
            &&& t.can_accept == !trusted
            &&& t.bytes_done == 0
            &&& t.total_bytes == request.total_bytes
            &&& t.file_count == request.file_count
            &&& t.current_file is None
            &&& t.saved_path is None
            &&& t.source_paths.len() == 0
            &&& !t.can_retry
            &&& t.started_at_ms == now_ms
            &&& t.updated_at_ms == now_ms
        }),
{
}

/// A refusal is not an acceptance, says why, and asks for nothing.
pub proof fn lemma_refusal()
    ensures
        !refusal().accepted,
        refusal().message == Some("接收端未确认或已拒绝"@),
        refusal().offsets.len() == 0,
{
}

/// A transfer begins for a trusted sender and for one that the user accepted,
/// and for no other.
pub proof fn lemma_may_begin(trusted: bool, decision: Option<bool>)
    ensures
        trusted ==> may_begin(trusted, decision),
        decision == Some(true) ==> may_begin(trusted, decision),
        !trusted && decision == Some(false) ==> !may_begin(trusted, decision),
        !trusted && decision is None ==> !may_begin(trusted, decision),
{
}

/// What is entered is found again under its id, and nothing else changes: for
/// the record of a transfer, which is stamped, and for a device.
pub proof fn lemma_what_is_entered_is_found(
    s: RuntimeView,
    t: TransferView,
    d: DeviceView,
    now_ms: u128,
    other: Seq<char>,
)
    ensures
        ({
            let r = s.with_transfer(t, now_ms);
            &&& r.transfers.contains_key(t.id)
            &&& r.transfers[t.id] == (TransferView { updated_at_ms: now_ms, ..t })
            &&& other != t.id ==> r.transfers.contains_key(other) == s.transfers.contains_key(other)
            &&& other != t.id && s.transfers.contains_key(other) ==> r.transfers[other]
                == s.transfers[other]
            &&& r.config == s.config
            &&& r.devices == s.devices
            &&& r.pending_incoming == s.pending_incoming
        }),
        ({
            let r = s.with_device(d);
            &&& r.devices.contains_key(d.id)
            &&& r.devices[d.id] == d
            &&& other != d.id ==> r.devices.contains_key(other) == s.devices.contains_key(other)
            &&& other != d.id && s.devices.contains_key(other) ==> r.devices[other]
                == s.devices[other]
            &&& r.config == s.config
            &&& r.transfers == s.transfers
            &&& r.pending_incoming == s.pending_incoming
        }),
{
}

/// A step of a known transfer is found in its record, stamped with its time.
pub proof fn lemma_step_is_recorded(
    s: RuntimeView,
    id: Seq<char>,
    patch: TransferPatch,
    now_ms: u128,
)
    requires
        s.transfers.contains_key(id),
        s.transfers[id].id == id,
    ensures
        s.with_patch(id, patch, now_ms).transfers.contains_key(id),
        s.with_patch(id, patch, now_ms).transfers[id] == (TransferView {
            updated_at_ms: now_ms,
            ..patched(s.transfers[id], patch)
        }),
{
}

/// A request that is let in has a record, which is stamped, and waits exactly if
/// its sender is not among those that are trusted. Settings, devices and other
/// transfers stay as they are.
pub proof fn lemma_request_is_recorded(
    s: RuntimeView,
    request: RequestView,
    peer_ip: Seq<char>,
    now_ms: u128,
    stored_at_ms: u128,
    other: Seq<char>,
)
    requires
        other != request.transfer_id,
    ensures
        ({
            let r = s.with_request(request, peer_ip, now_ms, stored_at_ms);
            let id = request.transfer_id;
            let t = incoming_transfer(s.config, request, peer_ip, now_ms);
            &&& r.transfers.contains_key(id)
            &&& r.transfers[id] == (TransferView { updated_at_ms: stored_at_ms, ..t })
            &&& !s.config.trusted_device_ids.contains(request.sender_id)
                ==> r.pending_incoming.contains_key(id) && r.pending_incoming[id] == t
            &&& s.config.trusted_device_ids.contains(request.sender_id) ==> r.pending_incoming
                == s.pending_incoming
            &&& r.pending_incoming.contains_key(other) == s.pending_incoming.contains_key(other)
            &&& s.pending_incoming.contains_key(other) ==> r.pending_incoming[other]
                == s.pending_incoming[other]
            &&& r.transfers.contains_key(other) == s.transfers.contains_key(other)
            &&& s.transfers.contains_key(other) ==> r.transfers[other] == s.transfers[other]
            &&& r.config == s.config
            &&& r.devices == s.devices
        }),
{
}

/// A transfer that is accepted waits no longer, and its sender is trusted from
/// then on if the user said so, and only then. Records and devices stay as they
/// are.
pub proof fn lemma_accepted(s: RuntimeView, id: Seq<char>, trust_sender: bool, x: Seq<char>)
    requires
        s.pending_incoming.contains_key(id),
    ensures
        ({
            let r = s.with_accepted(id, trust_sender);
            let peer = s.pending_incoming[id].peer_id;
            &&& r.pending_incoming == s.pending_incoming.remove(id)
            &&& r.transfers == s.transfers
            &&& r.devices == s.devices
            &&& !trust_sender ==> r.config == s.config
            &&& trust_sender ==> r.config.trusted_device_ids.contains(x) == (x == peer
                || s.config.trusted_device_ids.contains(x))
            &&& r.config.device_id == s.config.device_id
            &&& r.config.device_name == s.config.device_name
            &&& r.config.inbox_dir == s.config.inbox_dir
            &&& s.without_pending(id) == (RuntimeView {
                pending_incoming: s.pending_incoming.remove(id),
                ..s
            })
        }),
{
    lemma_trust_is_settled(s.config, s.pending_incoming[id].peer_id, true, x);
}

/// At the start the settings and the history are those that were kept, no
/// device is known, and nothing waits.
pub proof fn lemma_at_start(config: ConfigView, history: Seq<TransferView>)
    ensures
        RuntimeView::at_start(config, history).config == config,
        RuntimeView::at_start(config, history).devices.dom() =~= Set::<Seq<char>>::empty(),
        RuntimeView::at_start(config, history).pending_incoming.dom() =~= Set::<
            Seq<char>,
        >::empty(),
        RuntimeView::at_start(config, history).transfers == entered::<TransferSnapshot>(history),
{
}

/// The view of the state has the settings and all three tables.
pub proof fn lemma_state_view(s: RuntimeState)
    ensures
        s@.config == s.config@,
        s@.devices == s.devices@,
        s@.transfers == s.transfers@,
        s@.pending_incoming == s.pending_incoming@,
{
}

} // verus!
