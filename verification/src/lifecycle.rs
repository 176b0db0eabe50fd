//! What holds across several operations on the state: who is received at once,
//! what a refusal and a failure lead to, and which devices are known.

use crate::config::{
    first_settings, lemma_trust_is_settled, load_outcome, LoadView, StoredView,
};
use crate::devices::refreshed;
use crate::model::{ConfigView, DeviceView, RequestView, TransferView, DEVICE_STALE_MS};
use crate::progress::{lemma_patch_keeps_identity, TransferPatch};
use crate::send::refusal_text;
use crate::state::{
    announced_by, announced_device, counts, incoming_transfer, manual_id, may_begin, refusal,
    retry_id, target_again, RuntimeView,
};
use crate::text::{decimal, is_digit, lemma_decimal_injective, lemma_decimal_spells};
use vstd::prelude::*;

verus! {

/// Settings come back: new ones are to be written, and once they are what is
/// stored, the next start has the same settings, whatever name and inbox would
/// be given to new ones, and writes none. Either start knows no devices, and
/// nothing waits.
pub proof fn lemma_settings_come_back(
    device_name: Seq<char>,
    inbox_dir: Seq<char>,
    first: LoadView,
    later_name: Seq<char>,
    later_inbox: Seq<char>,
    second: LoadView,
    history: Seq<TransferView>,
)
    requires
        load_outcome(StoredView::Absent, device_name, inbox_dir, first),
        load_outcome(
            StoredView::Stored { config: first->config },
            later_name,
            later_inbox,
            second,
        ),
    ensures
        first matches LoadView::Loaded { config, is_new } && {
            &&& is_new
            &&& first_settings(config, device_name, inbox_dir)
            &&& second == (LoadView::Loaded { config, is_new: false })
            &&& RuntimeView::at_start(config, history).config == config
            &&& RuntimeView::at_start(config, history).devices == Map::<
                Seq<char>,
                DeviceView,
            >::empty()
            &&& RuntimeView::at_start(config, history).pending_incoming == Map::<
                Seq<char>,
                TransferView,
            >::empty()
        },
{
}

/// Settings that are stored but cannot be had are an error, so that none are
/// written in their place.
pub proof fn lemma_bad_settings_are_kept(
    found: StoredView,
    device_name: Seq<char>,
    inbox_dir: Seq<char>,
    r: LoadView,
)
    requires
        load_outcome(found, device_name, inbox_dir, r),
    ensures
        (r is Failed) == (found is Unreadable || found is Invalid),
        (r matches LoadView::Loaded { is_new, .. } && is_new) == (found is Absent),
        found matches StoredView::Invalid { error } ==> r->message == "解析配置失败: "@ + error,
        found matches StoredView::Unreadable { error } ==> r->message == "读取配置失败: "@ + error,
{
}

/// Devices that are trusted are received at once; a request of any other device
/// waits to be accepted.
pub proof fn lemma_only_unknown_senders_wait(
    s: RuntimeView,
    request: RequestView,
    peer_ip: Seq<char>,
    now_ms: u128,
    stored_at_ms: u128,
)
    ensures
        ({
            let after = s.with_request(request, peer_ip, now_ms, stored_at_ms);
            let t = after.transfers[request.transfer_id];
            if s.config.trusts(request.sender_id) {
                &&& t.status is Receiving
                &&& !t.can_accept
                &&& after.pending_incoming == s.pending_incoming
            } else {
                &&& t.status is Pending
                &&& t.can_accept
                &&& after.pending_incoming.contains_key(request.transfer_id)
                &&& after.pending_incoming[request.transfer_id].peer_id == request.sender_id
            }
        }),
{
}

/// Nothing is received from an unknown sender unless the user accepts it: with
/// any other decision the transfer does not begin, and once the wait has ended
/// it can no longer be accepted, and the sender is refused.
pub proof fn lemma_unknown_senders_need_consent(
    s: RuntimeView,
    request: RequestView,
    peer_ip: Seq<char>,
    now_ms: u128,
    stored_at_ms: u128,
    decision: Option<bool>,
)
    requires
        !s.config.trusts(request.sender_id),
        decision != Some(true),
    ensures
        !may_begin(s.config.trusts(request.sender_id), decision),
        ({
            let waiting = s.with_request(request, peer_ip, now_ms, stored_at_ms);
            let ended = waiting.without_pending(request.transfer_id);
            &&& waiting.pending_incoming.contains_key(request.transfer_id)
            &&& !ended.pending_incoming.contains_key(request.transfer_id)
            &&& ended.transfers[request.transfer_id].status is Pending
        }),
        !refusal().accepted,
{
}

/// A sender that is trusted when a transfer is accepted is received at once from
/// then on, and nothing changes for other senders.
pub proof fn lemma_trust_given_on_accept(
    s: RuntimeView,
    id: Seq<char>,
    request: RequestView,
    peer_ip: Seq<char>,
    now_ms: u128,
)
    requires
        s.pending_incoming.contains_key(id),
    ensures
        ({
            let after = s.with_accepted(id, true);
            let t = incoming_transfer(after.config, request, peer_ip, now_ms);
            &&& request.sender_id == s.pending_incoming[id].peer_id ==> t.status is Receiving
            &&& request.sender_id != s.pending_incoming[id].peer_id ==> t == incoming_transfer(
                s.config,
                request,
                peer_ip,
                now_ms,
            )
        }),
{
    lemma_trust_is_settled(
        s.config,
        s.pending_incoming[id].peer_id,
        true,
        request.sender_id,
    );
}

/// A transfer that was accepted, declined or given up waits no longer, and
/// others that wait are not affected.
pub proof fn lemma_decided_once(s: RuntimeView, id: Seq<char>, trust_sender: bool, other: Seq<char>)
    ensures
        !s.with_accepted(id, trust_sender).pending_incoming.contains_key(id),
        !s.without_pending(id).pending_incoming.contains_key(id),
        other != id ==> {
            &&& s.with_accepted(id, trust_sender).pending_incoming.contains_key(other)
                == s.pending_incoming.contains_key(other)
            &&& s.without_pending(id).pending_incoming.contains_key(other)
                == s.pending_incoming.contains_key(other)
        },
{
}

/// A refused transfer fails on both sides: the receiver no longer offers to
/// accept it, and the sender is told that it was refused.
pub proof fn lemma_refusal_fails_both_sides(
    receiver: RuntimeView,
    id: Seq<char>,
    now_ms: u128,
)
    requires
        receiver.transfers.contains_key(id),
        receiver.transfers[id].id == id,
    ensures
        ({
            let after = receiver.without_pending(id).with_patch(
                id,
                TransferPatch::Refused,
                now_ms,
            );
            &&& after.transfers[id].status is Failed
            &&& !after.transfers[id].can_accept
            &&& !after.pending_incoming.contains_key(id)
        }),
        !refusal().accepted,
        refusal_text(refusal()) == "接收端未确认或已拒绝"@,
{
}

/// A send that fails can be sent again, under the same id and from the same
/// paths, to the device it went to, whether or not that device is still known.
pub proof fn lemma_failed_send_can_be_resumed(
    s: RuntimeView,
    id: Seq<char>,
    message: String,
    now_ms: u128,
    retried_at_ms: u128,
    fresh_id: Seq<char>,
)
    requires
        s.transfers.contains_key(id),
        s.transfers[id].id == id,
        s.transfers[id].direction is Send,
        s.transfers[id].source_paths.len() > 0,
        s.transfers[id].peer_ip is Some,
    ensures
        ({
            let after = s.with_patch(id, TransferPatch::Failed { message }, now_ms);
            let t = after.transfers[id];
            &&& after.transfers.contains_key(id)
            &&& t.status is Failed
            &&& t.can_retry
            &&& t.source_paths == s.transfers[id].source_paths
            &&& retry_id(t, fresh_id) == id
            &&& target_again(after.devices, t, retried_at_ms) is Some
        }),
{
}

/// A transfer is sent again to the device it went to, which is known then.
pub proof fn lemma_resend_goes_to_the_same_device(
    s: RuntimeView,
    t: TransferView,
    d: DeviceView,
    now_ms: u128,
)
    requires
        s.devices.contains_key(t.peer_id) ==> s.devices[t.peer_id].id == t.peer_id,
        target_again(s.devices, t, now_ms) == Some(d),
    ensures
        d.id == t.peer_id,
        s.with_device(d).devices.contains_key(t.peer_id),
        s.with_device(d).devices[t.peer_id] == d,
{
}

/// A transfer that did not fail is sent again as a new transfer, and its own
/// record stays.
pub proof fn lemma_resend_is_a_new_transfer(
    s: RuntimeView,
    id: Seq<char>,
    d: DeviceView,
    t: TransferView,
    fresh_id: Seq<char>,
    now_ms: u128,
)
    requires
        s.transfers.contains_key(id),
        !(s.transfers[id].status is Failed),
        t.id == retry_id(s.transfers[id], fresh_id),
        fresh_id != id,
    ensures
        ({
            let after = s.with_device(d).with_transfer(t, now_ms);
            &&& after.transfers.contains_key(id)
            &&& after.transfers[id] == s.transfers[id]
            &&& after.transfers.contains_key(fresh_id)
        }),
{
}

/// A step of a transfer changes no other record, no device, no setting, and
/// nothing that waits, and a transfer that is not known takes no step.
pub proof fn lemma_patch_is_local(
    s: RuntimeView,
    id: Seq<char>,
    patch: TransferPatch,
    now_ms: u128,
    other: Seq<char>,
)
    requires
        s.transfers.contains_key(id) ==> s.transfers[id].id == id,
        other != id,
    ensures
        ({
            let after = s.with_patch(id, patch, now_ms);
            &&& after.config == s.config
            &&& after.devices == s.devices
            &&& after.pending_incoming == s.pending_incoming
            &&& after.transfers.dom() =~= s.transfers.dom()
            &&& s.transfers.contains_key(other) ==> after.transfers[other] == s.transfers[other]
            &&& !s.transfers.contains_key(id) ==> after == s
        }),
{
    if s.transfers.contains_key(id) {
        lemma_patch_keeps_identity(s.transfers[id], patch);
    }
}

/// Whether every transfer that waits is a known one that can be accepted.
pub open spec fn waiting_are_known(s: RuntimeView) -> bool {
    forall|k: Seq<char>| #[trigger]
        s.pending_incoming.contains_key(k) ==> {
            &&& s.transfers.contains_key(k)
            &&& s.pending_incoming[k].id == k
            &&& s.pending_incoming[k].status is Pending
            &&& s.pending_incoming[k].can_accept
        }
}

/// Every transfer that waits is a known one that can be accepted, whatever is
/// done: settings or devices changed, a record entered, a step taken, a request
/// let in, a transfer accepted, or a wait ended.
pub proof fn lemma_waiting_stay_known(
    s: RuntimeView,
    config: ConfigView,
    devices: Map<Seq<char>, DeviceView>,
    t: TransferView,
    id: Seq<char>,
    patch: TransferPatch,
    request: RequestView,
    peer_ip: Seq<char>,
    trust_sender: bool,
    now_ms: u128,
    stored_at_ms: u128,
)
    requires
        waiting_are_known(s),
    ensures
        waiting_are_known(s.with_transfer(t, now_ms)),
        waiting_are_known(s.with_patch(id, patch, now_ms)),
        waiting_are_known((RuntimeView { config, devices, ..s })),
        waiting_are_known(s.with_request(request, peer_ip, now_ms, stored_at_ms)),
        waiting_are_known(s.with_accepted(id, trust_sender)),
        waiting_are_known(s.without_pending(id)),
{
}

/// Devices that the user added stay; others are forgotten once they have been
/// silent for too long; and marks of trust follow the settings.
pub proof fn lemma_who_is_still_there(
    devices: Map<Seq<char>, DeviceView>,
    config: ConfigView,
    now_ms: u128,
    id: Seq<char>,
)
    requires
        devices.contains_key(id),
        devices[id].id == id,
    ensures
        ({
            let after = refreshed(devices, config, now_ms);
            &&& devices[id].is_manual ==> after.contains_key(id)
            &&& !devices[id].is_manual ==> after.contains_key(id) == (now_ms
                <= devices[id].last_seen_ms + DEVICE_STALE_MS)
            &&& after.contains_key(id) ==> {
                &&& after[id].is_trusted == config.trusts(id)
                &&& after[id].ip == devices[id].ip
                &&& after[id].tcp_port == devices[id].tcp_port
            }
        }),
{
}

/// Looking a second time at the same moment changes nothing more.
pub proof fn lemma_refresh_is_idempotent(
    devices: Map<Seq<char>, DeviceView>,
    config: ConfigView,
    now_ms: u128,
)
    ensures
        refreshed(refreshed(devices, config, now_ms), config, now_ms) == refreshed(
            devices,
            config,
            now_ms,
        ),
{
    assert(refreshed(refreshed(devices, config, now_ms), config, now_ms) =~= refreshed(
        devices,
        config,
        now_ms,
    ));
}

/// What a device announces counts for every other device and not for itself,
/// and whoever hears it knows the device until it has been silent for too long.
pub proof fn lemma_announcement_is_heard(
    speaker: ConfigView,
    version: Seq<char>,
    platform: Seq<char>,
    s: RuntimeView,
    ip: Seq<char>,
    heard_at_ms: u128,
    now_ms: u128,
)
    ensures
        ({
            let packet = announced_by(speaker, version, platform);
            let d = announced_device(s.config, packet, ip, heard_at_ms);
            let known = refreshed(s.with_device(d).devices, s.config, now_ms);
            &&& counts(s.config, packet) == (speaker.device_id != s.config.device_id)
            &&& now_ms <= heard_at_ms + DEVICE_STALE_MS ==> {
                &&& known.contains_key(speaker.device_id)
                &&& known[speaker.device_id] == d
            }
            &&& now_ms > heard_at_ms + DEVICE_STALE_MS ==> !known.contains_key(speaker.device_id)
        }),
{
}

/// Devices that were added by hand for different hosts or ports are different
/// devices.
pub proof fn lemma_manual_devices_differ(
    host: Seq<char>,
    port: u16,
    other_host: Seq<char>,
    other_port: u16,
)
    requires
        host != other_host || port != other_port,
    ensures
        manual_id(host, port) != manual_id(other_host, other_port),
{
    reveal_strlit("manual:");
    reveal_strlit(":");
    let a = manual_id(host, port);
    let b = manual_id(other_host, other_port);
    let d = decimal(port as nat);
    let e = decimal(other_port as nat);
    lemma_decimal_spells(port as nat);
    lemma_decimal_spells(other_port as nat);
    if a == b {
        let n = a.len();
        assert(a[n - 1 - d.len()] == ':');
        assert(b[n - 1 - e.len()] == ':');
        if d.len() < e.len() {
            assert(b[n - 1 - d.len()] == e[e.len() - 1 - d.len()]);
            assert(is_digit(e[e.len() - 1 - d.len()]));
        } else if e.len() < d.len() {
            assert(a[n - 1 - e.len()] == d[d.len() - 1 - e.len()]);
            assert(is_digit(d[d.len() - 1 - e.len()]));
        }
        assert(d =~= a.subrange(n - d.len(), n as int));
        assert(e =~= b.subrange(n - e.len(), n as int));
        assert(host =~= a.subrange(7, n - 1 - d.len()));
        assert(other_host =~= b.subrange(7, n - 1 - e.len()));
        lemma_decimal_injective(port as nat, other_port as nat);
    }
}

} // verus!
