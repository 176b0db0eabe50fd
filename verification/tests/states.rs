use pc_sharer::collect::{Found, SourcePath};
use pc_sharer::model::{
    Config, DiscoveryPacket, FileManifest, TransferDirection, TransferRequest, TransferSnapshot,
    TransferStatus, DEVICE_STALE_MS, MAX_HISTORY_ITEMS,
};
use pc_sharer::paths::{InboxPath, Platform};
use pc_sharer::progress::TransferPatch;
use pc_sharer::receive::build_receive_plan;
use pc_sharer::send::SendSession;
use pc_sharer::state::{begin_receiving, RuntimeState, SendPlan};

fn config(trusted: &[&str]) -> Config {
    Config {
        device_id: "me".to_string(),
        device_name: "desk".to_string(),
        inbox_dir: "/in".to_string(),
        trusted_device_ids: trusted.iter().map(|id| id.to_string()).collect(),
    }
}

fn state(trusted: &[&str]) -> RuntimeState {
    RuntimeState::new(config(trusted), Vec::new())
}

fn packet(device_id: &str) -> DiscoveryPacket {
    DiscoveryPacket {
        protocol: "pc-sharer-v2".to_string(),
        version: "2.0.0".to_string(),
        device_id: device_id.to_string(),
        device_name: format!("name of {device_id}"),
        tcp_port: 4000,
        platform: "linux".to_string(),
    }
}

fn request(transfer_id: &str, sender_id: &str) -> TransferRequest {
    TransferRequest {
        protocol: "pc-sharer-v2".to_string(),
        version: "2.0.0".to_string(),
        transfer_id: transfer_id.to_string(),
        sender_id: sender_id.to_string(),
        sender_name: "sender".to_string(),
        file_count: 2,
        total_bytes: 30,
        files: vec![
            FileManifest { relative_path: "a".to_string(), size: 10 },
            FileManifest { relative_path: "b".to_string(), size: 20 },
        ],
    }
}

fn sources() -> Vec<SourcePath> {
    vec![SourcePath {
        shown: "/src/a.txt".to_string(),
        found: Found::File { source: 0, name: Some("a.txt".to_string()), size: 12 },
    }]
}

fn paths() -> Vec<String> {
    vec!["/src/a.txt".to_string()]
}

fn hear(s: &mut RuntimeState, id: &str, now: u128) -> bool {
    s.hear_announcement(packet(id), "10.0.0.9".to_string(), now)
}

fn queue(s: &mut RuntimeState, device: &str, id: Option<&str>, is_retry: bool) -> TransferSnapshot {
    let plan: SendPlan = s.prepare_send(&sources(), device).unwrap();
    s.start_send_paths(&plan, paths(), id.map(|i| i.to_string()), is_retry, 5, 6)
}

fn ids(items: &[TransferSnapshot]) -> Vec<String> {
    items.iter().map(|t| t.id.clone()).collect()
}

fn record<'a>(s: &'a RuntimeState, id: &str) -> &'a TransferSnapshot {
    s.transfers.get(id).unwrap()
}

#[test]
fn a_new_state_has_the_kept_history() {
    let mut s = state(&[]);
    hear(&mut s, "p", 0);
    let first = queue(&mut s, "p", Some("t1"), false);
    let mut later = first.clone();
    later.title = "later".to_string();
    let s = RuntimeState::new(config(&[]), vec![first, later]);
    assert_eq!(s.list_transfers().len(), 1);
    assert_eq!(record(&s, "t1").title, "later");
    assert_eq!(s.config.device_id, "me");
}

#[test]
fn a_manual_device_is_added() {
    let mut s = state(&["manual:10.0.0.7:81"]);
    let d = s.add_manual_device(" 10.0.0.7:81 ", None, 77).unwrap();
    assert_eq!(d.id, "manual:10.0.0.7:81");
    assert_eq!(d.name, "手动 10.0.0.7");
    assert_eq!((d.ip.as_str(), d.tcp_port, d.platform.as_str()), ("10.0.0.7", 81, "manual"));
    assert_eq!((d.last_seen_ms, d.is_manual, d.is_trusted), (77, true, true));
    assert_eq!(s.find_target("manual:10.0.0.7:81").unwrap().ip, "10.0.0.7");
    assert_eq!(s.add_manual_device("box", Some(9), 0).unwrap().id, "manual:box:9");
    assert_eq!(s.add_manual_device("box", None, 0).unwrap().tcp_port, 53343);
}

#[test]
fn a_manual_device_needs_a_good_target() {
    let mut s = state(&[]);
    assert_eq!(s.add_manual_device("  ", None, 0).unwrap_err(), "请输入目标 IP");
    assert_eq!(s.add_manual_device("box:x", None, 0).unwrap_err(), "端口格式不正确");
    assert!(s.snapshot_devices(0).is_empty());
}

#[test]
fn an_announcement_is_heard_by_others() {
    let mut s = state(&["p"]);
    let speaker = RuntimeState::new(
        Config { device_id: "p".to_string(), ..config(&[]) },
        Vec::new(),
    );
    let said = speaker.announcement("2.0.0", "linux");
    assert_eq!((said.tcp_port, said.platform.as_str()), (53343, "linux"));
    assert_eq!((said.device_name.as_str(), said.version.as_str()), ("desk", "2.0.0"));
    assert!(s.hear_announcement(said, "10.0.0.9".to_string(), 100));
    let d = s.find_target("p").unwrap();
    assert_eq!((d.ip.as_str(), d.is_manual, d.is_trusted), ("10.0.0.9", false, true));
    assert_eq!(d.last_seen_ms, 100);
}

#[test]
fn own_and_foreign_announcements_do_not_count() {
    let mut s = state(&[]);
    let own = s.announcement("2.0.0", "linux");
    assert!(!s.hear_announcement(own, "10.0.0.1".to_string(), 0));
    let mut foreign = packet("p");
    foreign.protocol = "pc-sharer-v1".to_string();
    assert!(!s.hear_announcement(foreign, "10.0.0.9".to_string(), 0));
    assert!(s.snapshot_devices(0).is_empty());
}

#[test]
fn silent_devices_are_forgotten_and_manual_ones_stay() {
    let mut s = state(&[]);
    hear(&mut s, "p", 1000);
    s.add_manual_device("box", None, 0).unwrap();
    assert_eq!(s.snapshot_devices(1000 + DEVICE_STALE_MS).len(), 2);
    assert_eq!(s.snapshot_devices(0).len(), 2);
    let left = s.snapshot_devices(1001 + DEVICE_STALE_MS);
    assert_eq!(left.len(), 1);
    assert_eq!(left[0].id, "manual:box:53343");
    assert!(s.find_target("p").is_err());
    assert_eq!(s.snapshot_devices(1001 + DEVICE_STALE_MS).len(), 1);
}

#[test]
fn marks_of_trust_follow_the_settings() {
    let mut s = state(&[]);
    hear(&mut s, "p", 0);
    hear(&mut s, "q", 0);
    s.set_device_trusted("p", true);
    s.set_device_trusted("p", true);
    assert_eq!(s.config.trusted_device_ids, vec!["p"]);
    let marks: Vec<(String, bool)> =
        s.snapshot_devices(0).into_iter().map(|d| (d.id, d.is_trusted)).collect();
    assert_eq!(marks, vec![("p".to_string(), true), ("q".to_string(), false)]);
    s.set_device_trusted("q", true);
    s.set_device_trusted("p", false);
    s.set_device_trusted("p", false);
    assert_eq!(s.config.trusted_device_ids, vec!["q"]);
    assert!(!s.snapshot_devices(0)[0].is_trusted);
}

#[test]
fn discovered_devices_are_listed_before_manual_ones() {
    let mut s = state(&[]);
    s.add_manual_device("a", None, 0).unwrap();
    for (id, name) in [("1", "zeta"), ("2", "Eta"), ("3", "beta")] {
        let mut said = packet(id);
        said.device_name = name.to_string();
        s.hear_announcement(said, "10.0.0.9".to_string(), 0);
    }
    let listed: Vec<String> = s.snapshot_devices(0).into_iter().map(|d| d.id).collect();
    assert_eq!(listed, vec!["3", "2", "1", "manual:a:53343"]);
}

#[test]
fn another_inbox_is_set() {
    let mut s = state(&[]);
    s.set_inbox_dir("/other".to_string());
    assert_eq!(s.config.inbox_dir, "/other");
    assert_eq!(s.config.device_id, "me");
}

#[test]
fn a_send_is_queued() {
    let mut s = state(&[]);
    hear(&mut s, "p", 0);
    let t = queue(&mut s, "p", None, false);
    assert_eq!(t.id.len(), 36);
    assert_eq!((t.direction, t.status), (TransferDirection::Send, TransferStatus::Queued));
    assert_eq!((t.peer_id.as_str(), t.peer_name.as_str()), ("p", "name of p"));
    assert_eq!((t.peer_ip.clone(), t.peer_tcp_port), (Some("10.0.0.9".to_string()), Some(4000)));
    assert_eq!((t.title.as_str(), t.file_count, t.total_bytes), ("a.txt", 1, 12));
    assert_eq!((t.started_at_ms, t.updated_at_ms, t.message.clone()), (5, 6, None));
    assert_eq!(record(&s, &t.id).source_paths, paths());
    let again = queue(&mut s, "p", Some("t1"), true);
    assert_eq!(again.id, "t1");
    assert_eq!(again.message, Some("重试传输，接收端会尝试从 .part 文件续传".to_string()));
}

#[test]
fn a_send_needs_a_target_and_files() {
    let mut s = state(&[]);
    assert_eq!(s.prepare_send(&sources(), "p").unwrap_err(), "目标电脑不在线或不存在");
    hear(&mut s, "p", 0);
    assert_eq!(s.prepare_send(&Vec::new(), "p").unwrap_err(), "没有可发送的文件");
    let gone = vec![SourcePath { shown: "/gone".to_string(), found: Found::Missing }];
    assert_eq!(s.prepare_send(&gone, "p").unwrap_err(), "路径不存在: /gone");
    assert_eq!(s.prepare_send(&gone, "q").unwrap_err(), "目标电脑不在线或不存在");
}

#[test]
fn steps_are_recorded_and_stamped() {
    let mut s = state(&[]);
    hear(&mut s, "p", 0);
    queue(&mut s, "p", Some("t1"), false);
    queue(&mut s, "p", Some("t2"), false);
    let t = s.patch_transfer("t1", TransferPatch::BytesDone { bytes_done: 3 }, 90).unwrap();
    assert_eq!((t.bytes_done, t.updated_at_ms), (3, 90));
    assert_eq!(record(&s, "t1").bytes_done, 3);
    assert_eq!(record(&s, "t2").updated_at_ms, 6);
    assert!(s.patch_transfer("t9", TransferPatch::Refused, 91).is_none());
    assert_eq!(ids(&s.list_transfers()), vec!["t1", "t2"]);
    s.mark_transfer_failed("t2", "broken".to_string(), 95).unwrap();
    assert_eq!(ids(&s.list_transfers()), vec!["t2", "t1"]);
    assert!(s.mark_transfer_failed("t9", "broken".to_string(), 95).is_none());
}

#[test]
fn a_failed_send_is_retried_under_its_id() {
    let mut s = state(&[]);
    hear(&mut s, "p", 0);
    queue(&mut s, "p", Some("t1"), false);
    s.mark_transfer_failed("t1", "broken".to_string(), 7);
    assert!(record(&s, "t1").can_retry);
    let plan = s.prepare_retry("t1", 8, "new".to_string()).unwrap();
    assert_eq!((plan.transfer_id.as_str(), plan.target_id.as_str()), ("t1", "p"));
    assert_eq!(plan.source_paths, paths());
    assert_eq!(s.retry_transfer("t1", 8).unwrap().transfer_id, "t1");
}

#[test]
fn a_completed_send_is_sent_again_as_a_new_transfer() {
    let mut s = state(&[]);
    hear(&mut s, "p", 0);
    queue(&mut s, "p", Some("t1"), false);
    s.patch_transfer("t1", TransferPatch::Sent { total_bytes: 12 }, 7);
    let plan = s.prepare_retry("t1", 8, "new".to_string()).unwrap();
    assert_eq!(plan.transfer_id, "new");
    let fresh = s.retry_transfer("t1", 8).unwrap().transfer_id;
    assert_eq!(fresh.len(), 36);
    queue(&mut s, &plan.target_id, Some(&plan.transfer_id), true);
    assert_eq!(record(&s, "t1").status, TransferStatus::Completed);
    assert_eq!(record(&s, "new").status, TransferStatus::Queued);
}

#[test]
fn a_retry_remembers_a_forgotten_device() {
    let mut s = state(&["p"]);
    hear(&mut s, "p", 0);
    queue(&mut s, "p", Some("t1"), false);
    assert!(s.snapshot_devices(1_000_000).is_empty());
    let plan = s.prepare_retry("t1", 1_000_001, "new".to_string()).unwrap();
    let d = s.find_target(&plan.target_id).unwrap();
    assert_eq!((d.ip.as_str(), d.tcp_port, d.platform.as_str()), ("10.0.0.9", 4000, "history"));
    assert_eq!((d.is_manual, d.is_trusted, d.last_seen_ms), (true, false, 1_000_001));
    assert_eq!(d.name, "name of p");
}

#[test]
fn not_every_record_can_be_retried() {
    let mut s = state(&[]);
    assert_eq!(s.retry_transfer("t1", 0).unwrap_err(), "找不到历史记录");
    s.admit_request(&request("r1", "p"), "10.0.0.9", 1, 2).unwrap();
    assert_eq!(s.retry_transfer("r1", 0).unwrap_err(), "这条记录没有可重发的源文件路径");
    let mut old = record(&s, "r1").clone();
    old.source_paths = paths();
    old.peer_ip = None;
    s.update_transfer(old.clone(), 3);
    assert_eq!(s.retry_transfer("r1", 0).unwrap_err(), "目标电脑不在线，也没有历史 IP 可用");
    old.peer_ip = Some("10.0.0.3".to_string());
    old.peer_tcp_port = None;
    let d = s.resolve_target_from_transfer(&old, 4).unwrap();
    assert_eq!((d.ip.as_str(), d.tcp_port), ("10.0.0.3", 53343));
}

#[test]
fn an_unknown_sender_has_to_wait() {
    let mut s = state(&[]);
    let a = s.admit_request(&request("r1", "p"), "10.0.0.9", 1, 2).unwrap();
    assert!(!a.trusted);
    assert_eq!((a.transfer.status, a.transfer.can_accept), (TransferStatus::Pending, true));
    assert_eq!(a.transfer.message, Some("来自 10.0.0.9，等待接收确认".to_string()));
    assert_eq!((a.transfer.title.as_str(), a.transfer.total_bytes), ("a 等 2 个文件", 30));
    assert_eq!((a.transfer.started_at_ms, a.transfer.updated_at_ms), (1, 1));
    assert_eq!(a.transfer.peer_tcp_port, Some(53343));
    assert_eq!(record(&s, "r1").updated_at_ms, 2);
    assert!(s.pending_incoming.get("r1").is_some());
}

#[test]
fn a_trusted_sender_is_received_at_once() {
    let mut s = state(&["p"]);
    let a = s.admit_request(&request("r1", "p"), "10.0.0.9", 1, 2).unwrap();
    assert!(a.trusted);
    assert_eq!((a.transfer.status, a.transfer.can_accept), (TransferStatus::Receiving, false));
    assert_eq!(a.transfer.message, Some("来自 10.0.0.9，已在白名单中".to_string()));
    assert_eq!(a.transfer.direction, TransferDirection::Receive);
    assert!(s.pending_incoming.get("r1").is_none());
}

#[test]
fn a_request_of_another_protocol_is_not_let_in() {
    let mut s = state(&["p"]);
    let mut other = request("r1", "p");
    other.protocol = "pc-sharer-v1".to_string();
    let error = s.admit_request(&other, "10.0.0.9", 1, 2).unwrap_err();
    assert_eq!(error, "不支持的传输协议");
    assert!(s.list_transfers().is_empty());
}

#[test]
fn an_accepted_transfer_waits_no_longer() {
    let mut s = state(&[]);
    s.admit_request(&request("r1", "p"), "10.0.0.9", 1, 2).unwrap();
    let a = s.accept_incoming_transfer("r1", false).unwrap();
    assert_eq!((a.transfer.id.as_str(), a.config_changed), ("r1", false));
    assert!(s.config.trusted_device_ids.is_empty());
    let error = s.accept_incoming_transfer("r1", true).unwrap_err();
    assert_eq!(error, "这条接收请求已经失效");
    assert!(s.config.trusted_device_ids.is_empty());
}

#[test]
fn trust_given_on_accept_lasts() {
    let mut s = state(&[]);
    s.admit_request(&request("r1", "p"), "10.0.0.9", 1, 2).unwrap();
    s.admit_request(&request("r2", "p"), "10.0.0.9", 1, 2).unwrap();
    assert!(s.accept_incoming_transfer("r1", true).unwrap().config_changed);
    assert!(!s.accept_incoming_transfer("r2", true).unwrap().config_changed);
    assert_eq!(s.config.trusted_device_ids, vec!["p"]);
    assert!(s.admit_request(&request("r3", "p"), "10.0.0.9", 1, 2).unwrap().trusted);
    assert!(!s.admit_request(&request("r4", "q"), "10.0.0.9", 1, 2).unwrap().trusted);
}

#[test]
fn a_declined_transfer_waits_no_longer() {
    let mut s = state(&[]);
    s.admit_request(&request("r1", "p"), "10.0.0.9", 1, 2).unwrap();
    assert_eq!(s.decline_incoming_transfer("r1").unwrap().peer_id, "p");
    assert_eq!(s.decline_incoming_transfer("r1").unwrap_err(), "这条接收请求已经失效");
}

#[test]
fn a_refusal_fails_both_sides() {
    let mut s = state(&[]);
    s.admit_request(&request("r1", "p"), "10.0.0.9", 1, 2).unwrap();
    let response = s.conclude_wait("r1", Some(false)).unwrap();
    s.patch_transfer("r1", TransferPatch::Refused, 9);
    assert!(!response.accepted);
    assert!(response.offsets.is_empty());
    let error = SendSession::start(Vec::new(), 0, &response).unwrap_err();
    assert_eq!(error, "接收端未确认或已拒绝");
    assert_eq!(record(&s, "r1").status, TransferStatus::Failed);
    assert!(!record(&s, "r1").can_accept);
    assert!(s.accept_incoming_transfer("r1", false).is_err());
}

#[test]
fn the_latest_transfers_are_kept_on_disk() {
    let mut s = state(&[]);
    hear(&mut s, "p", 0);
    let first = queue(&mut s, "p", Some("t0"), false);
    for i in 0..MAX_HISTORY_ITEMS + 5 {
        let mut t = first.clone();
        t.id = format!("t{i}");
        s.update_transfer(t, 1000 + (i as u128 * 7) % 305);
    }
    let kept = s.persist_history();
    assert_eq!(kept.len(), MAX_HISTORY_ITEMS);
    assert!(kept.windows(2).all(|w| w[0].updated_at_ms >= w[1].updated_at_ms));
    assert_eq!(kept[0].updated_at_ms, 1304);
    assert_eq!(kept[MAX_HISTORY_ITEMS - 1].updated_at_ms, 1005);
}

#[test]
fn a_kept_history_is_read_back() {
    let mut s = state(&[]);
    hear(&mut s, "p", 0);
    queue(&mut s, "p", Some("t1"), false);
    queue(&mut s, "p", Some("t2"), false);
    s.patch_transfer("t1", TransferPatch::Sent { total_bytes: 12 }, 44);
    let again = RuntimeState::new(config(&[]), s.persist_history());
    assert_eq!(ids(&again.list_transfers()), vec!["t1", "t2"]);
    assert_eq!(record(&again, "t1").status, TransferStatus::Completed);
    assert_eq!(record(&again, "t1").updated_at_ms, 44);
}

#[test]
fn only_a_decision_to_accept_ends_a_wait_well() {
    let mut s = state(&[]);
    s.admit_request(&request("r1", "p"), "10.0.0.9", 1, 2).unwrap();
    s.accept_incoming_transfer("r1", false).unwrap();
    assert!(s.conclude_wait("r1", Some(true)).is_none());
    s.admit_request(&request("r2", "p"), "10.0.0.9", 1, 2).unwrap();
    let late = s.conclude_wait("r2", None).unwrap();
    assert_eq!((late.accepted, late.message), (false, Some("接收端未确认或已拒绝".to_string())));
    assert!(s.pending_incoming.get("r2").is_none());
    assert!(s.accept_incoming_transfer("r2", false).is_err());
}

#[test]
fn manual_devices_for_other_ports_are_other_devices() {
    let mut s = state(&[]);
    s.add_manual_device("box:1", None, 0).unwrap();
    s.add_manual_device("box:12", None, 0).unwrap();
    s.add_manual_device("box:1", None, 0).unwrap();
    assert_eq!(s.snapshot_devices(0).len(), 2);
}

fn begins(trusted: &[&str], decision: Option<bool>) -> bool {
    let mut s = state(trusted);
    let asked = request("r1", "p");
    let admission = s.admit_request(&asked, "10.0.0.9", 1, 2).unwrap();
    let none = |_: &InboxPath| None;
    let plan = build_receive_plan("/in", &asked, Platform::Other, &none);
    match begin_receiving(&admission, decision, asked, plan) {
        Some(session) => {
            assert_eq!((session.total_bytes, session.files.len(), session.index), (30, 2, 0));
            assert!(session.response().accepted);
            true
        }
        None => false,
    }
}

#[test]
fn nothing_begins_without_consent() {
    assert!(!begins(&[], None));
    assert!(!begins(&[], Some(false)));
    assert!(begins(&[], Some(true)));
    assert!(begins(&["p"], None));
    assert!(!begins(&["q"], None));
}
