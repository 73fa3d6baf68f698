use request_service::client::{Client, HeaderField};
use request_service::config::{Action, Version};
use request_service::error::ErrorCode;
use request_service::info::State;
use request_service::manager::{coalesce_progress, ClientManager, EventKey};
use request_service::notify::{EachFileStatus, NotifyData, SubscribeType, WaitingCause};
use request_service::progress::Progress;
use request_service::reason::Reason;
use request_service::strmap::StringMap;

fn le32(x: u32) -> [u8; 4] {
    x.to_le_bytes()
}

fn field(name: &str, values: &[&str]) -> HeaderField {
    HeaderField {
        name: name.to_string(),
        values: values.iter().map(|v| v.as_bytes().to_vec()).collect(),
    }
}

#[test]
fn faults_message() {
    let mut client = Client::new(77);
    assert_eq!(client.message_id, 1);
    let m = client.handle_send_faults(0x01020304, SubscribeType::FaultOccur, Reason::Dns);
    let mut want = Vec::new();
    want.extend_from_slice(&0x43434646u32.to_le_bytes());
    want.extend_from_slice(&le32(1));
    want.extend_from_slice(&2u16.to_le_bytes());
    want.extend_from_slice(&24u16.to_le_bytes());
    want.extend_from_slice(&le32(0x01020304));
    want.extend_from_slice(&le32(8));
    want.extend_from_slice(&le32(23));
    assert_eq!(m, want);
    assert_eq!(&m[0..4], &[0x46, 0x46, 0x43, 0x43]);
    assert_eq!(client.message_id, 2);
    assert_eq!(client.pid, 77);
}

#[test]
fn waiting_message() {
    let mut client = Client::new(1);
    client.message_id = u32::MAX;
    let m = client.handle_send_waiting_notify(9, WaitingCause::Network);
    let mut want = Vec::new();
    want.extend_from_slice(&0x43434646u32.to_le_bytes());
    want.extend_from_slice(&le32(u32::MAX));
    want.extend_from_slice(&3u16.to_le_bytes());
    want.extend_from_slice(&20u16.to_le_bytes());
    want.extend_from_slice(&le32(9));
    want.extend_from_slice(&le32(1));
    assert_eq!(m, want);
    assert_eq!(client.message_id, 0);
}

#[test]
fn message_ids_rise() {
    let mut client = Client::new(1);
    for id in 1..5u32 {
        let m = client.handle_send_waiting_notify(9, WaitingCause::User);
        assert_eq!(&m[4..8], &id.to_le_bytes());
    }
}

#[test]
fn response_message() {
    let mut client = Client::new(1);
    let headers = vec![field("content-type", &["text/plain"]), field("x", &["a", "b", ""])];
    let m = client.handle_send_response(5, "HTTP/1.1", 200, "OK", &headers);
    let mut want = Vec::new();
    want.extend_from_slice(&0x43434646u32.to_le_bytes());
    want.extend_from_slice(&le32(1));
    want.extend_from_slice(&0u16.to_le_bytes());
    want.extend_from_slice(&0u16.to_le_bytes());
    want.extend_from_slice(&le32(5));
    want.extend_from_slice(b"HTTP/1.1\0");
    want.extend_from_slice(&le32(200));
    want.extend_from_slice(b"OK\0");
    want.extend_from_slice(b"content-type:text/plain\n");
    want.extend_from_slice(b"x:a,b,\n");
    let len = want.len() as u16;
    want[10..12].copy_from_slice(&len.to_le_bytes());
    assert_eq!(m, want);
}

#[test]
fn response_headers_are_capped() {
    let mut client = Client::new(1);
    let big = "v".repeat(5000);
    let headers = vec![
        field("a", &[&big]),
        field("b", &[&big]),
        field("c", &["small"]),
    ];
    let m = client.handle_send_response(5, "HTTP/1.1", 200, "OK", &headers);
    // the second field would pass the limit: it and all behind it are dropped
    let text = String::from_utf8_lossy(&m).to_string();
    assert!(text.contains("a:vvv"));
    assert!(!text.contains("b:"));
    assert!(!text.contains("c:small"));
    assert_eq!(m.len(), 12 + 4 + 9 + 4 + 3 + 1 + 1 + 5000 + 1);
    let said = u16::from_le_bytes([m[10], m[11]]);
    assert_eq!(said as usize, m.len());

    let exact = "v".repeat(8191);
    let m = client.handle_send_response(5, "", 1, "", &vec![field("a", &[&exact])]);
    // the field fits the limit of the fields, but the message is cut at the limit
    assert_eq!(m.len(), 8192);
    assert_eq!(u16::from_le_bytes([m[10], m[11]]), 8192);
    let over = "v".repeat(8192);
    let m = client.handle_send_response(5, "", 1, "", &vec![field("a", &[&over])]);
    assert_eq!(m.len(), 12 + 4 + 1 + 4 + 1);
}

fn notify_data(version: Version) -> NotifyData {
    let mut extras = StringMap::new();
    extras.insert("etag".to_string(), "abc".to_string());
    let progress =
        Progress::restore(State::Running, 1, vec![10, -1], vec![10, 7], extras).unwrap();
    NotifyData {
        bundle: "com.example".to_string(),
        progress,
        action: Action::Upload,
        version,
        each_file_status: vec![EachFileStatus {
            path: "/a".to_string(),
            reason: Reason::IoError,
            message: "Io Error".to_string(),
        }],
        task_id: 42,
        uid: 7,
    }
}

fn notify_bytes(version: Version, path: &[u8]) -> Vec<u8> {
    let mut want = Vec::new();
    want.extend_from_slice(&0x43434646u32.to_le_bytes());
    want.extend_from_slice(&le32(1));
    want.extend_from_slice(&1u16.to_le_bytes());
    want.extend_from_slice(&0u16.to_le_bytes());
    want.extend_from_slice(&le32(4));
    want.extend_from_slice(&le32(42));
    want.extend_from_slice(&le32(0x20));
    want.extend_from_slice(&le32(1));
    want.extend_from_slice(&7u64.to_le_bytes());
    want.extend_from_slice(&17u64.to_le_bytes());
    want.extend_from_slice(&le32(2));
    want.extend_from_slice(&10i64.to_le_bytes());
    want.extend_from_slice(&(-1i64).to_le_bytes());
    want.extend_from_slice(&le32(1));
    want.extend_from_slice(b"etag\0abc\0");
    want.extend_from_slice(&le32(1));
    want.extend_from_slice(&le32(version.repr() as u32));
    want.extend_from_slice(&le32(1));
    want.extend_from_slice(path);
    want.push(0);
    want.extend_from_slice(&le32(18));
    want.extend_from_slice(b"Io Error\0");
    let len = want.len() as u16;
    want[10..12].copy_from_slice(&len.to_le_bytes());
    want
}

#[test]
fn notify_message() {
    let mut client = Client::new(1);
    let m = client.handle_send_notify_data(SubscribeType::Progress, &notify_data(Version::API10));
    assert_eq!(m, notify_bytes(Version::API10, b""));
    let mut client = Client::new(1);
    let m = client.handle_send_notify_data(SubscribeType::Progress, &notify_data(Version::API9));
    assert_eq!(m, notify_bytes(Version::API9, b"/a"));
}

#[test]
fn notify_extras_are_capped() {
    let mut extras = StringMap::new();
    extras.insert("a".to_string(), "v".repeat(5000));
    extras.insert("b".to_string(), "v".repeat(3189));
    extras.insert("c".to_string(), "v".to_string());
    let progress = Progress::restore(State::Running, 0, vec![1], vec![0], extras).unwrap();
    let mut data = notify_data(Version::API10);
    data.progress = progress;
    data.each_file_status.clear();
    let mut client = Client::new(1);
    let m = client.handle_send_notify_data(SubscribeType::Completed, &data);
    // 5001 and 3190 bytes make 8191, which is below the limit; the third pair is not
    let fixed = 12 + 4 * 4 + 8 + 8 + 4 + 8 + 4 + 4 + 4 + 4;
    assert_eq!(m.len(), fixed + (1 + 1 + 5000 + 1) + (1 + 1 + 3189 + 1));
    let count_at = 12 + 4 * 4 + 8 + 8 + 4 + 8;
    assert_eq!(&m[count_at..count_at + 4], &le32(2));
}

#[test]
fn kinds_and_causes() {
    assert_eq!(SubscribeType::Completed.repr(), 0);
    assert_eq!(SubscribeType::Failed.repr(), 1);
    assert_eq!(SubscribeType::HeaderReceive.repr(), 2);
    assert_eq!(SubscribeType::Pause.repr(), 3);
    assert_eq!(SubscribeType::Progress.repr(), 4);
    assert_eq!(SubscribeType::Remove.repr(), 5);
    assert_eq!(SubscribeType::Resume.repr(), 6);
    assert_eq!(WaitingCause::TaskQueue.repr(), 0);
    assert_eq!(WaitingCause::of_reason(Reason::RunningTaskMeetLimits), WaitingCause::TaskQueue);
    assert_eq!(WaitingCause::of_reason(Reason::NetworkOffline), WaitingCause::Network);
    assert_eq!(WaitingCause::of_reason(Reason::UnsupportedNetworkType), WaitingCause::Network);
    assert_eq!(WaitingCause::of_reason(Reason::AppBackgroundOrTerminate), WaitingCause::AppState);
    assert_eq!(WaitingCause::of_reason(Reason::UserOperation), WaitingCause::User);
}

fn key(kind: SubscribeType, task_id: u32) -> EventKey {
    EventKey { kind, task_id }
}

#[test]
fn progress_events_are_coalesced() {
    let events = vec![
        key(SubscribeType::Progress, 1),
        key(SubscribeType::Progress, 2),
        key(SubscribeType::Pause, 1),
        key(SubscribeType::Progress, 1),
        key(SubscribeType::Resume, 1),
        key(SubscribeType::Progress, 1),
        key(SubscribeType::Completed, 2),
    ];
    assert_eq!(coalesce_progress(&events), vec![1, 2, 4, 5, 6]);
    assert!(coalesce_progress(&vec![]).is_empty());
    assert_eq!(coalesce_progress(&vec![key(SubscribeType::Progress, 1)]), vec![0]);
    let only: Vec<EventKey> = (0..5).map(|_| key(SubscribeType::Progress, 3)).collect();
    assert_eq!(coalesce_progress(&only), vec![4]);
}

#[test]
fn subscriptions() {
    let mut m = ClientManager::new();
    assert!(!m.has_channel(100));
    assert_eq!(m.handle_subscribe(1, 100), ErrorCode::ChannelNotOpen);
    assert_eq!(m.route(1), None);
    assert_eq!(m.handle_open_channel(100, false), Err(ErrorCode::Other));
    assert_eq!(m.handle_open_channel(100, true), Ok(()));
    assert_eq!(m.handle_open_channel(100, false), Ok(()));
    assert!(m.has_channel(100));
    assert_eq!(m.route(1), None);
    assert_eq!(m.handle_subscribe(1, 100), ErrorCode::ErrOk);
    assert_eq!(m.route(1), Some(100));
    assert_eq!(m.route(2), None);

    m.handle_open_channel(200, true).unwrap();
    assert_eq!(m.handle_subscribe(1, 200), ErrorCode::ErrOk);
    assert_eq!(m.route(1), Some(200));

    assert_eq!(m.handle_unsubscribe(1), ErrorCode::ErrOk);
    assert_eq!(m.route(1), None);
    assert_eq!(m.handle_unsubscribe(1), ErrorCode::Other);

    m.handle_subscribe(3, 100);
    m.handle_task_finished(3);
    assert_eq!(m.route(3), None);

    m.handle_subscribe(4, 100);
    assert!(m.handle_process_terminated(100));
    assert!(!m.handle_process_terminated(100));
    assert_eq!(m.route(4), None);
    assert_eq!(m.handle_unsubscribe(4), ErrorCode::Other);
}
