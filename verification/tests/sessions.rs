use pc_sharer::model::{
    Config, FileManifest, LocalFileEntry, TransferDirection, TransferRequest, TransferResponse,
    TransferSnapshot, TransferStatus, COPY_BUFFER_BYTES,
};
use pc_sharer::paths::{InboxPath, Platform};
use pc_sharer::progress::{address_text, TransferPatch};
use pc_sharer::receive::{build_receive_plan, ReceiveAction, ReceiveSession};
use pc_sharer::resume::{checked_resumed, checked_total, normalized_offsets};
use pc_sharer::send::{transfer_request, SendJob, SendSession};

fn config() -> Config {
    Config {
        device_id: "me".to_string(),
        device_name: "desk".to_string(),
        inbox_dir: "/in".to_string(),
        trusted_device_ids: Vec::new(),
    }
}

fn files(list: &[(&str, u64)]) -> Vec<LocalFileEntry> {
    list.iter()
        .enumerate()
        .map(|(source, f)| LocalFileEntry { source, relative_path: f.0.to_string(), size: f.1 })
        .collect()
}

fn name_of(path: &InboxPath) -> String {
    let mut all = path.relative.folders.clone();
    all.push(path.relative.file_name.clone());
    all.join("/")
}

type Disk = std::collections::BTreeMap<String, Vec<u8>>;

/// Sends `sent` to an inbox in memory. The connection breaks after `limit`
/// bytes. Gives back whether all files came through.
fn transfer(sent: &[(&str, Vec<u8>)], inbox: &mut Disk, limit: usize) -> bool {
    let list: Vec<(&str, u64)> = sent.iter().map(|f| (f.0, f.1.len() as u64)).collect();
    let total = list.iter().map(|f| f.1).sum();
    let request: TransferRequest = transfer_request("t1", &config(), &files(&list), total, "2.0.0");
    let plan = {
        let disk = &*inbox;
        let stat = |p: &InboxPath| disk.get(&name_of(p)).map(|c| c.len() as u64);
        build_receive_plan("/in", &request, Platform::Other, &stat)
    };
    let mut receiver = ReceiveSession::start(request, plan);
    let response = receiver.response();
    let mut sender = SendSession::start(files(&list), total, &response).unwrap();
    let mut stream: Vec<u8> = Vec::new();
    while let Some(SendJob { index, offset }) = sender.next_file() {
        let rest = &sent[index].1[offset as usize..];
        stream.extend_from_slice(rest);
        sender.sent(rest.len() as u64);
    }
    assert_eq!(sender.bytes_done, total);
    stream.truncate(limit);
    let mut at = 0;
    loop {
        let action = receiver.next_action();
        if action == ReceiveAction::Finish {
            break;
        }
        let final_name = name_of(&receiver.plan[receiver.index].final_path);
        let temp_name = name_of(&receiver.plan[receiver.index].temp_path);
        match action {
            ReceiveAction::LookUp => {
                receiver.looked_up(inbox.contains_key(&final_name), &final_name);
            }
            ReceiveAction::Open { append } => {
                if !append {
                    inbox.insert(temp_name, Vec::new());
                }
                receiver.opened();
            }
            ReceiveAction::Read { size } => {
                if at + size > stream.len() {
                    return false;
                }
                inbox.get_mut(&temp_name).unwrap().extend_from_slice(&stream[at..at + size]);
                at += size;
                receiver.stored();
            }
            ReceiveAction::Save => {
                let contents = inbox.remove(&temp_name).unwrap();
                inbox.insert(final_name.clone(), contents);
                receiver.saved(&final_name);
            }
            ReceiveAction::Finish => unreachable!(),
        }
    }
    assert_eq!(at, stream.len());
    assert_eq!(receiver.bytes_done, total);
    true
}

fn bytes(len: usize, seed: u8) -> Vec<u8> {
    (0..len).map(|i| (i as u64 * 31 + seed as u64 + (i as u64 >> 8)) as u8).collect()
}

fn saved_path(session: &ReceiveSession) -> Option<String> {
    match session.finished("/in") {
        TransferPatch::Received { saved_path, .. } => saved_path,
        _ => panic!("not the last step"),
    }
}

fn record() -> TransferSnapshot {
    TransferSnapshot {
        id: "t1".to_string(),
        direction: TransferDirection::Send,
        peer_id: "p".to_string(),
        peer_name: "peer".to_string(),
        peer_ip: Some("10.0.0.9".to_string()),
        peer_tcp_port: Some(53343),
        title: "a".to_string(),
        status: TransferStatus::Queued,
        bytes_done: 0,
        total_bytes: 5000,
        file_count: 1,
        current_file: None,
        saved_path: None,
        message: None,
        source_paths: vec!["/src/a".to_string()],
        can_retry: true,
        can_accept: true,
        started_at_ms: 1,
        updated_at_ms: 1,
    }
}

#[test]
fn files_arrive_as_they_were() {
    let sent = [
        ("d/a", bytes(3 * COPY_BUFFER_BYTES + 17, 1)),
        ("d/b", Vec::new()),
        ("c", bytes(COPY_BUFFER_BYTES, 2)),
        ("e", bytes(1, 3)),
    ];
    let mut inbox = Disk::new();
    assert!(transfer(&sent, &mut inbox, usize::MAX));
    assert_eq!(inbox.len(), 4);
    for (name, contents) in &sent {
        assert!(inbox[*name] == *contents, "{name}");
    }
}

#[test]
fn an_interrupted_transfer_is_resumed() {
    let sent = [("a", bytes(COPY_BUFFER_BYTES + 5, 1)), ("b", bytes(3 * COPY_BUFFER_BYTES, 2))];
    let mut inbox = Disk::new();
    assert!(!transfer(&sent, &mut inbox, 2 * COPY_BUFFER_BYTES + 100));
    assert_eq!(inbox["b.t1.part"].len(), COPY_BUFFER_BYTES);
    assert!(!transfer(&sent, &mut inbox, COPY_BUFFER_BYTES));
    assert_eq!(inbox["b.t1.part"].len(), 2 * COPY_BUFFER_BYTES);
    assert!(transfer(&sent, &mut inbox, usize::MAX));
    assert!(inbox["a"] == sent[0].1);
    assert!(inbox["b"] == sent[1].1);
    assert_eq!(inbox.len(), 2);
}

#[test]
fn a_second_transfer_changes_nothing() {
    let sent = [("a", bytes(100, 1)), ("b", Vec::new())];
    let mut inbox = Disk::new();
    assert!(transfer(&sent, &mut inbox, usize::MAX));
    let before = inbox.clone();
    assert!(transfer(&sent, &mut inbox, 0));
    assert_eq!(inbox, before);
}

#[test]
fn a_file_that_is_there_is_not_written_over() {
    let sent = [("a.txt", bytes(100, 1))];
    let mut inbox = Disk::new();
    inbox.insert("a.txt".to_string(), bytes(7, 9));
    assert!(transfer(&sent, &mut inbox, usize::MAX));
    assert_eq!(inbox["a.txt"], bytes(7, 9));
    assert_eq!(inbox["a (1).txt"], bytes(100, 1));
}

#[test]
fn a_request_tells_of_all_files() {
    let list = files(&[("d/a", 3), ("b", 4)]);
    let request = transfer_request("t9", &config(), &list, 7, "2.0.0");
    assert_eq!(request.protocol, "pc-sharer-v2");
    assert_eq!(request.version, "2.0.0");
    assert_eq!(request.transfer_id, "t9");
    assert_eq!((request.sender_id.as_str(), request.sender_name.as_str()), ("me", "desk"));
    assert_eq!((request.file_count, request.total_bytes), (2, 7));
    assert_eq!(request.files[0].relative_path, "d/a");
    assert_eq!(request.files[1].size, 4);
}

#[test]
fn a_refusal_is_an_error() {
    let told = TransferResponse { accepted: false, message: Some("no".to_string()), offsets: vec![] };
    assert_eq!(SendSession::start(files(&[("a", 1)]), 1, &told).unwrap_err(), "no");
    let silent = TransferResponse { accepted: false, message: None, offsets: vec![] };
    assert_eq!(SendSession::start(files(&[("a", 1)]), 1, &silent).unwrap_err(), "接收端拒绝了这次传输");
}

#[test]
fn what_the_receiver_has_is_not_sent() {
    let list = files(&[("a", 5), ("b", 5), ("c", 0), ("d", 5), ("e", 5)]);
    let response = TransferResponse { accepted: true, message: None, offsets: vec![5, 2, 0, 9] };
    let mut session = SendSession::start(list, 20, &response).unwrap();
    assert_eq!(session.bytes_done, 5 + 2 + 5);
    let job = SendJob { index: 1, offset: 2 };
    assert!(matches!(session.begun(), TransferPatch::Sending { bytes_done: 12 }));
    assert_eq!(session.next_file(), Some(job));
    assert!(matches!(session.file_begun(&job), TransferPatch::SendingFile { name } if name == "b"));
    assert!(matches!(session.sent(3), Some(TransferPatch::BytesDone { bytes_done: 15 })));
    assert_eq!(session.next_file(), Some(SendJob { index: 4, offset: 0 }));
    session.sent(5);
    assert_eq!(session.next_file(), None);
    assert_eq!(session.next_file(), None);
    assert_eq!(session.bytes_done, 20);
    assert!(matches!(session.finished(), TransferPatch::Sent { total_bytes: 20 }));
}

#[test]
fn offsets_are_cut_or_filled_up() {
    assert_eq!(normalized_offsets(&[1, 2, 3], 2), vec![1, 2]);
    assert_eq!(normalized_offsets(&[1], 3), vec![1, 0, 0]);
    assert_eq!(normalized_offsets(&[], 0), Vec::<u64>::new());
    assert_eq!(normalized_offsets(&[4, 5], 2), vec![4, 5]);
}

#[test]
fn sums_are_checked() {
    assert_eq!(checked_total(&vec![1, 2, 3]), Some(6));
    assert_eq!(checked_total(&vec![u64::MAX, 0]), Some(u64::MAX));
    assert_eq!(checked_total(&vec![u64::MAX, 1]), None);
    assert_eq!(checked_resumed(&vec![5, 2], &vec![3, 9, 9]), Some(5));
    assert_eq!(checked_resumed(&vec![u64::MAX, 1], &vec![u64::MAX, 1]), None);
}

#[test]
fn a_single_file_is_shown_where_it_was_saved() {
    let request = TransferRequest {
        protocol: "pc-sharer-v2".to_string(),
        version: "2.0.0".to_string(),
        transfer_id: "t".to_string(),
        sender_id: "s".to_string(),
        sender_name: "n".to_string(),
        file_count: 1,
        total_bytes: 0,
        files: vec![FileManifest { relative_path: "a".to_string(), size: 0 }],
    };
    let none = |_: &InboxPath| None;
    let plan = build_receive_plan("/in", &request, Platform::Other, &none);
    let mut session = ReceiveSession::start(request, plan);
    assert_eq!(session.next_action(), ReceiveAction::LookUp);
    session.looked_up(false, "/in/a");
    assert_eq!(session.next_action(), ReceiveAction::Open { append: false });
    assert!(matches!(session.opened(), TransferPatch::ReceivingFile { name } if name == "a"));
    assert_eq!(session.next_action(), ReceiveAction::Save);
    session.saved("/in/a");
    assert_eq!(session.next_action(), ReceiveAction::Finish);
    assert_eq!(saved_path(&session), Some("/in/a".to_string()));
}

#[test]
fn several_files_are_shown_by_the_inbox() {
    let list = files(&[("a", 0), ("b", 0)]);
    let request = transfer_request("t", &config(), &list, 0, "2.0.0");
    let none = |_: &InboxPath| None;
    let plan = build_receive_plan("/in", &request, Platform::Other, &none);
    let mut session = ReceiveSession::start(request, plan);
    session.looked_up(true, "/in/a");
    assert_eq!(session.first_saved, Some("/in/a".to_string()));
    assert_eq!(session.next_action(), ReceiveAction::LookUp);
    session.looked_up(true, "/in/b");
    assert_eq!(session.first_saved, Some("/in/a".to_string()));
    assert_eq!(session.next_action(), ReceiveAction::Finish);
    assert_eq!(saved_path(&session), Some("/in".to_string()));
}

#[test]
fn a_file_comes_in_chunks() {
    let size = COPY_BUFFER_BYTES as u64 + 3;
    let list = files(&[("a", size)]);
    let request = transfer_request("t", &config(), &list, size, "2.0.0");
    let part = |p: &InboxPath| {
        if p.relative.file_name == "a.t.part" { Some(1) } else { None }
    };
    let plan = build_receive_plan("/in", &request, Platform::Other, &part);
    let mut session = ReceiveSession::start(request, plan);
    assert_eq!(session.response().offsets, vec![1]);
    assert!(session.response().accepted);
    session.looked_up(false, "/in/a");
    assert_eq!(session.next_action(), ReceiveAction::Open { append: true });
    session.opened();
    assert_eq!(session.next_action(), ReceiveAction::Read { size: COPY_BUFFER_BYTES });
    let done = COPY_BUFFER_BYTES as u64 + 1;
    assert!(matches!(session.stored(), TransferPatch::BytesDone { bytes_done } if bytes_done == done));
    assert_eq!(session.next_action(), ReceiveAction::Read { size: 2 });
    session.stored();
    assert_eq!(session.next_action(), ReceiveAction::Save);
    assert_eq!(session.bytes_done, size);
}

#[test]
fn the_history_is_not_written_for_every_chunk() {
    let name = || "a".to_string();
    assert!(!TransferPatch::BytesDone { bytes_done: 1 }.persists());
    assert!(!TransferPatch::SendingFile { name: name() }.persists());
    assert!(!TransferPatch::ReceivingFile { name: name() }.persists());
    assert!(TransferPatch::Connecting { ip: name(), port: 1 }.persists());
    assert!(TransferPatch::Sending { bytes_done: 1 }.persists());
    assert!(TransferPatch::Sent { total_bytes: 1 }.persists());
    assert!(TransferPatch::Refused.persists());
    assert!(TransferPatch::Received { total_bytes: 1, saved_path: None }.persists());
    assert!(TransferPatch::Failed { message: name() }.persists());
}

#[test]
fn a_record_follows_a_send() {
    let mut t = record();
    t.apply(TransferPatch::Connecting { ip: "10.0.0.9".to_string(), port: 53343 });
    assert_eq!(t.status, TransferStatus::Connecting);
    assert_eq!(t.message, Some("连接 10.0.0.9:53343".to_string()));
    assert!(!t.can_retry);
    t.apply(TransferPatch::Sending { bytes_done: 2048 });
    assert_eq!(t.status, TransferStatus::Sending);
    assert_eq!(t.message, Some("已从 2.0 KB 继续传输".to_string()));
    t.apply(TransferPatch::Sending { bytes_done: 0 });
    assert_eq!(t.message, None);
    t.apply(TransferPatch::SendingFile { name: "a".to_string() });
    assert_eq!(t.current_file, Some("a".to_string()));
    t.apply(TransferPatch::BytesDone { bytes_done: 4000 });
    assert_eq!(t.bytes_done, 4000);
    t.apply(TransferPatch::Sent { total_bytes: 5000 });
    assert_eq!(t.status, TransferStatus::Completed);
    assert_eq!((t.bytes_done, t.current_file.clone(), t.can_retry), (5000, None, true));
    assert_eq!(t.message, Some("发送完成".to_string()));
}

#[test]
fn a_record_follows_a_receipt() {
    let mut t = record();
    t.receive_from(1024 * 1024);
    assert_eq!(t.status, TransferStatus::Receiving);
    assert_eq!(t.message, Some("已从 1.0 MB 继续接收".to_string()));
    assert_eq!((t.bytes_done, t.can_accept), (1024 * 1024, false));
    t.receive_from(0);
    assert_eq!(t.message, None);
    t.message = Some("x".to_string());
    t.apply(TransferPatch::ReceivingFile { name: "b".to_string() });
    assert_eq!((t.current_file.clone(), t.message.clone()), (Some("b".to_string()), None));
    t.apply(TransferPatch::Received { total_bytes: 5000, saved_path: Some("/in/b".to_string()) });
    assert_eq!(t.status, TransferStatus::Completed);
    assert_eq!(t.message, Some("接收完成".to_string()));
    assert_eq!((t.saved_path, t.current_file), (Some("/in/b".to_string()), None));
}

#[test]
fn only_a_send_with_sources_can_be_retried() {
    let failed = || TransferPatch::Failed { message: "broken".to_string() };
    let mut send = record();
    send.can_retry = false;
    send.apply(failed());
    assert_eq!((send.status, send.can_retry), (TransferStatus::Failed, true));
    assert_eq!(send.message, Some("broken".to_string()));
    let mut bare = record();
    bare.source_paths.clear();
    bare.apply(failed());
    assert!(!bare.can_retry);
    let mut receipt = record();
    receipt.direction = TransferDirection::Receive;
    receipt.apply(failed());
    assert!(!receipt.can_retry);
}

#[test]
fn a_refused_record_can_no_longer_be_accepted() {
    let mut t = record();
    t.apply(TransferPatch::Refused);
    assert_eq!((t.status, t.can_accept), (TransferStatus::Failed, false));
    assert_eq!(t.message, Some("已拒绝或确认超时".to_string()));
}

#[test]
fn an_address_has_a_colon() {
    assert_eq!(address_text("10.0.0.9", 80), "10.0.0.9:80");
}

#[test]
fn what_is_sent_and_what_is_left_make_up_all_files() {
    let list = files(&[("a", 5), ("b", 7), ("c", 4)]);
    let response = TransferResponse { accepted: true, message: None, offsets: vec![2, 7, 0] };
    let mut session = SendSession::start(list, 16, &response).unwrap();
    assert_eq!(session.bytes_done + 3 + 4, 16);
    assert_eq!(session.next_file(), Some(SendJob { index: 0, offset: 2 }));
    session.sent(1);
    assert_eq!(session.bytes_done + 2 + 4, 16);
    session.sent(2);
    assert_eq!(session.next_file(), Some(SendJob { index: 2, offset: 0 }));
    assert_eq!(session.bytes_done + 4, 16);
    session.sent(4);
    assert_eq!(session.next_file(), None);
    assert_eq!(session.bytes_done, 16);
}

#[test]
fn a_file_ends_where_nothing_more_is_read() {
    let response = TransferResponse { accepted: true, message: None, offsets: vec![0] };
    let mut session = SendSession::start(files(&[("a", 5)]), 5, &response).unwrap();
    session.next_file();
    assert!(session.sent(5).is_some());
    assert!(session.sent(0).is_none());
    assert_eq!(session.bytes_done, 5);
}

#[test]
fn files_at_other_paths_are_as_before() {
    let sent = [("a", bytes(10, 1)), ("b", bytes(20, 2))];
    let mut inbox = Disk::new();
    inbox.insert("b".to_string(), bytes(20, 7));
    inbox.insert("c".to_string(), bytes(3, 8));
    inbox.insert("a.t1.part".to_string(), sent[0].1[..4].to_vec());
    assert!(transfer(&sent, &mut inbox, usize::MAX));
    assert_eq!(inbox["a"], sent[0].1);
    assert_eq!(inbox["b"], bytes(20, 7));
    assert_eq!(inbox["c"], bytes(3, 8));
    assert_eq!(inbox.len(), 3);
}
