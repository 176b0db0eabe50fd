//! The steps by which the record of a transfer changes.

use crate::model::{TransferDirection, TransferSnapshot, TransferStatus, TransferView};
use crate::text::{decimal, opt_text, push_decimal};
use crate::units::{bytes_text, format_bytes};
use vstd::prelude::*;
use vstd::string::StringExecFns;

verus! {

/// A step of a transfer.
#[derive(Debug)]
pub enum TransferPatch {
    /// The sender connects to the receiver.
    Connecting { ip: String, port: u16 },
    /// The receiver accepted, and this much is there already.
    Sending { bytes_done: u64 },
    /// The sender begins a file.
    SendingFile { name: String },
    /// This much is there.
    BytesDone { bytes_done: u64 },
    /// All is sent.
    Sent { total_bytes: u64 },
    /// The user declined, or did not answer in time.
    Refused,
    /// The receiver begins a file.
    ReceivingFile { name: String },
    /// All is received.
    Received { total_bytes: u64, saved_path: Option<String> },
    /// Something went wrong.
    Failed { message: String },
}

impl TransferPatch {
    /// Whether the history is written after the step: not after those that only
    /// show how far a transfer has come.
    pub open spec fn is_kept(self) -> bool {
        !(self is SendingFile || self is ReceivingFile || self is BytesDone)
    }

    /// Whether the history is written after the step.
    pub fn persists(&self) -> (r: bool)
        ensures
            r == self.is_kept(),
    {
        match self {
            TransferPatch::SendingFile { .. } => false,
            TransferPatch::ReceivingFile { .. } => false,
            TransferPatch::BytesDone { .. } => false,
            _ => true,
        }
    }
}

/// An address as it is written.
pub open spec fn address(ip: Seq<char>, port: u16) -> Seq<char> {
    ip + ":"@ + decimal(port as nat)
}

/// Writes an address.
pub fn address_text(ip: &str, port: u16) -> (r: String)
    ensures
        r@ == address(ip@, port),
{
    let mut text = ip.to_owned();
    text.append(":");
    push_decimal(&mut text, port as u128);
    text
}

/// What the user is told where a transfer does not begin at the start.
pub open spec fn continued(bytes_done: u64, doing: Seq<char>) -> Option<Seq<char>> {
    if bytes_done > 0 {
        Some("已从 "@ + bytes_text(bytes_done as nat) + doing)
    } else {
        None
    }
}

/// Tells the user where a transfer does not begin at the start.
pub fn continued_text(bytes_done: u64, doing: &str) -> (r: Option<String>)
    ensures
        opt_text(r) == continued(bytes_done, doing@),
{
    if bytes_done > 0 {
        let mut text = "已从 ".to_owned();
        text.append(&format_bytes(bytes_done));
        text.append(doing);
        Some(text)
    } else {
        None
    }
}

/// The record of a transfer after a step.
pub open spec fn patched(t: TransferView, patch: TransferPatch) -> TransferView {
    match patch {
        TransferPatch::Connecting { ip, port } => TransferView {
            status: TransferStatus::Connecting,
            can_retry: false,
            message: Some("连接 "@ + address(ip@, port)),
            ..t
        },
        TransferPatch::Sending { bytes_done } => TransferView {
            status: TransferStatus::Sending,
            bytes_done,
            message: continued(bytes_done, " 继续传输"@),
            ..t
        },
        TransferPatch::SendingFile { name } => TransferView { current_file: Some(name@), ..t },
        TransferPatch::BytesDone { bytes_done } => TransferView { bytes_done, ..t },
        TransferPatch::Sent { total_bytes } => TransferView {
            status: TransferStatus::Completed,
            bytes_done: total_bytes,
            current_file: None,
            message: Some("发送完成"@),
            can_retry: true,
            ..t
        },
        TransferPatch::Refused => TransferView {
            status: TransferStatus::Failed,
            can_accept: false,
            message: Some("已拒绝或确认超时"@),
            ..t
        },
        TransferPatch::ReceivingFile { name } => TransferView {
            current_file: Some(name@),
            message: None,
            ..t
        },
        TransferPatch::Received { total_bytes, saved_path } => TransferView {
            status: TransferStatus::Completed,
            bytes_done: total_bytes,
            current_file: None,
            saved_path: opt_text(saved_path),
            message: Some("接收完成"@),
            ..t
        },
        TransferPatch::Failed { message } => TransferView {
            status: TransferStatus::Failed,
            message: Some(message@),
            current_file: None,
            can_retry: t.direction is Send && t.source_paths.len() > 0,
            ..t
        },
    }
}

/// The record of a transfer whose files are about to come, with this much of
/// them there already.
pub open spec fn receiving_from(t: TransferView, bytes_done: u64) -> TransferView {
    TransferView {
        status: TransferStatus::Receiving,
        bytes_done,
        can_accept: false,
        message: continued(bytes_done, " 继续接收"@),
        ..t
    }
}

/// The record of a transfer that changed at a time.
pub open spec fn stamped(t: TransferView, now_ms: u128) -> TransferView {
    TransferView { updated_at_ms: now_ms, ..t }
}

impl TransferSnapshot {
    /// Marks a transfer as one whose files are about to come.
    pub fn receive_from(&mut self, bytes_done: u64)
        ensures
            final(self)@ == receiving_from(old(self)@, bytes_done),
    {
        self.status = TransferStatus::Receiving;
        self.bytes_done = bytes_done;
        self.can_accept = false;
        self.message = continued_text(bytes_done, " 继续接收");
    }

    /// Takes a step.
    pub fn apply(&mut self, patch: TransferPatch)
        ensures
            final(self)@ == patched(old(self)@, patch),
    {
        match patch {
            TransferPatch::Connecting { ip, port } => {
                let mut message = "连接 ".to_owned();
                message.append(&address_text(&ip, port));
                self.status = TransferStatus::Connecting;
                self.can_retry = false;
                self.message = Some(message);
            },
            TransferPatch::Sending { bytes_done } => {
                self.status = TransferStatus::Sending;
                self.bytes_done = bytes_done;
                self.message = continued_text(bytes_done, " 继续传输");
            },
            TransferPatch::SendingFile { name } => {
                self.current_file = Some(name);
            },
            TransferPatch::BytesDone { bytes_done } => {
                self.bytes_done = bytes_done;
            },
            TransferPatch::Sent { total_bytes } => {
                self.status = TransferStatus::Completed;
                self.bytes_done = total_bytes;
                self.current_file = None;
                self.message = Some("发送完成".to_owned());
                self.can_retry = true;
            },
            TransferPatch::Refused => {
                self.status = TransferStatus::Failed;
                self.can_accept = false;
                self.message = Some("已拒绝或确认超时".to_owned());
            },
            TransferPatch::ReceivingFile { name } => {
                self.current_file = Some(name);
                self.message = None;
            },
            TransferPatch::Received { total_bytes, saved_path } => {
                self.status = TransferStatus::Completed;
                self.bytes_done = total_bytes;
                self.current_file = None;
                self.saved_path = saved_path;
                self.message = Some("接收完成".to_owned());
            },
            TransferPatch::Failed { message } => {
                self.status = TransferStatus::Failed;
                self.message = Some(message);
                self.current_file = None;
                self.can_retry = self.direction == TransferDirection::Send
                    && self.source_paths.len() > 0;
            },
        }
    }
}

/// A step changes neither whose transfer it is nor what it is about.
pub proof fn lemma_patch_keeps_identity(t: TransferView, patch: TransferPatch)
    ensures
        patched(t, patch).id == t.id,
        patched(t, patch).direction == t.direction,
        patched(t, patch).peer_id == t.peer_id,
        patched(t, patch).peer_name == t.peer_name,
        patched(t, patch).peer_ip == t.peer_ip,
        patched(t, patch).peer_tcp_port == t.peer_tcp_port,
        patched(t, patch).title == t.title,
        patched(t, patch).total_bytes == t.total_bytes,
        patched(t, patch).file_count == t.file_count,
        patched(t, patch).source_paths == t.source_paths,
        patched(t, patch).started_at_ms == t.started_at_ms,
{
}

/// After the last step of a transfer, sent or received, the record is completed
/// and shows all bytes of that step, and no file is current any more.
pub proof fn lemma_last_step_completes(
    t: TransferView,
    total_bytes: u64,
    saved_path: Option<String>,
)
    ensures
        ({
            let sent = patched(t, TransferPatch::Sent { total_bytes });
            &&& sent.status == TransferStatus::Completed
            &&& sent.bytes_done == total_bytes
            &&& sent.current_file is None
            &&& sent.message == Some("发送完成"@)
            &&& sent.can_retry
            &&& sent.can_accept == t.can_accept
            &&& sent.saved_path == t.saved_path
        }),
        ({
            let received = patched(t, TransferPatch::Received { total_bytes, saved_path });
            &&& received.status == TransferStatus::Completed
            &&& received.bytes_done == total_bytes
            &&& received.current_file is None
            &&& received.message == Some("接收完成"@)
            &&& received.can_retry == t.can_retry
            &&& received.can_accept == t.can_accept
            &&& saved_path matches Some(path) ==> received.saved_path == Some(path@)
            &&& saved_path is None ==> received.saved_path is None
        }),
{
}

/// Steps on the way show what they say and leave the rest of the record: the
/// name of the current file, the number of bytes, or that and the status.
pub proof fn lemma_steps_on_the_way(t: TransferView, name: String, bytes_done: u64)
    ensures
        patched(t, TransferPatch::SendingFile { name }) == (TransferView {
            current_file: Some(name@),
            ..t
        }),
        patched(t, TransferPatch::ReceivingFile { name }) == (TransferView {
            current_file: Some(name@),
            message: None,
            ..t
        }),
        patched(t, TransferPatch::BytesDone { bytes_done }) == (TransferView { bytes_done, ..t }),
        ({
            let r = patched(t, TransferPatch::Sending { bytes_done });
            &&& r.status == TransferStatus::Sending
            &&& r.bytes_done == bytes_done
            &&& r.message is Some == (bytes_done > 0)
            &&& r == (TransferView { status: r.status, bytes_done, message: r.message, ..t })
        }),
        ({
            let r = receiving_from(t, bytes_done);
            &&& r.status == TransferStatus::Receiving
            &&& r.bytes_done == bytes_done
            &&& !r.can_accept
            &&& r.message is Some == (bytes_done > 0)
            &&& r == (TransferView {
                status: r.status,
                bytes_done,
                can_accept: false,
                message: r.message,
                ..t
            })
        }),
{
}

/// A connection is announced with the address it goes to, and a transfer that
/// does not begin at the start with the number of bytes that are there.
pub proof fn lemma_steps_are_told(t: TransferView, ip: String, port: u16, bytes_done: u64)
    ensures
        patched(t, TransferPatch::Connecting { ip, port }) == (TransferView {
            status: TransferStatus::Connecting,
            can_retry: false,
            message: Some("连接 "@ + ip@ + ":"@ + decimal(port as nat)),
            ..t
        }),
        address(ip@, port) == ip@ + ":"@ + decimal(port as nat),
        bytes_done > 0 ==> {
            &&& patched(t, TransferPatch::Sending { bytes_done }).message == Some(
                "已从 "@ + bytes_text(bytes_done as nat) + " 继续传输"@,
            )
            &&& receiving_from(t, bytes_done).message == Some(
                "已从 "@ + bytes_text(bytes_done as nat) + " 继续接收"@,
            )
        },
{
    assert("连接 "@ + (ip@ + ":"@ + decimal(port as nat)) =~= "连接 "@ + ip@ + ":"@ + decimal(
        port as nat,
    ));
}

/// A transfer that fails or is refused shows as failed, and keeps the bytes that
/// were counted. Only a send whose sources are known can be tried again after a
/// failure; a refused transfer can no longer be accepted.
pub proof fn lemma_failure_is_shown(t: TransferView, message: String)
    ensures
        ({
            let r = patched(t, TransferPatch::Failed { message });
            &&& r.status == TransferStatus::Failed
            &&& r.bytes_done == t.bytes_done
            &&& r.message == Some(message@)
            &&& r.current_file is None
            &&& r.can_retry == (t.direction == TransferDirection::Send && t.source_paths.len() > 0)
            &&& r.can_accept == t.can_accept
            &&& r.saved_path == t.saved_path
        }),
        ({
            let r = patched(t, TransferPatch::Refused);
            &&& r.status == TransferStatus::Failed
            &&& r.bytes_done == t.bytes_done
            &&& r.message == Some("已拒绝或确认超时"@)
            &&& r.current_file == t.current_file
            &&& r.can_retry == t.can_retry
            &&& !r.can_accept
        }),
{
}

/// The number of bytes of a record goes down with no step but one that states a
/// smaller number itself, and a record is stamped with the time and nothing
/// else.
pub proof fn lemma_bytes_of_a_record(t: TransferView, patch: TransferPatch, now_ms: u128)
    ensures
        patched(t, patch).bytes_done == (match patch {
            TransferPatch::Sending { bytes_done } => bytes_done,
            TransferPatch::BytesDone { bytes_done } => bytes_done,
            TransferPatch::Sent { total_bytes } => total_bytes,
            TransferPatch::Received { total_bytes, .. } => total_bytes,
            _ => t.bytes_done,
        }),
        stamped(t, now_ms).updated_at_ms == now_ms,
        stamped(t, now_ms) == (TransferView { updated_at_ms: now_ms, ..t }),
        patched(t, patch).updated_at_ms == t.updated_at_ms,
{
}

/// The history is written after every step but those that only show how far a
/// transfer has come.
pub proof fn lemma_what_is_written(patch: TransferPatch)
    ensures
        patch.is_kept() == (match patch {
            TransferPatch::Connecting { .. } => true,
            TransferPatch::Sending { .. } => true,
            TransferPatch::SendingFile { .. } => false,
            TransferPatch::BytesDone { .. } => false,
            TransferPatch::Sent { .. } => true,
            TransferPatch::Refused => true,
            TransferPatch::ReceivingFile { .. } => false,
            TransferPatch::Received { .. } => true,
            TransferPatch::Failed { .. } => true,
        }),
{
}

} // verus!
