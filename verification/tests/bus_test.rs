use request_service::client::{Client, ClientEvent};
use request_service::config::{Action, Version};
use request_service::error::ErrorCode;
use request_service::info::State;
use request_service::manager::{ClientManager, Handled};
use request_service::notify::{NotifyData, SubscribeType, WaitingCause};
use request_service::progress::Progress;
use request_service::reason::Reason;
use request_service::strmap::StringMap;

fn data_of(task_id: u32, processed: usize) -> NotifyData {
    NotifyData {
        bundle: "b".to_string(),
        progress: Progress::restore(State::Running, 0, vec![100], vec![processed], StringMap::new())
            .unwrap(),
        action: Action::Download,
        version: Version::API10,
        each_file_status: Vec::new(),
        task_id,
        uid: 1,
    }
}

fn progress(task_id: u32, processed: usize) -> ClientEvent {
    ClientEvent::SendNotifyData(SubscribeType::Progress, data_of(task_id, processed))
}

fn id_of(message: &[u8]) -> u32 {
    u32::from_le_bytes([message[4], message[5], message[6], message[7]])
}

fn kind_of(message: &[u8]) -> u16 {
    u16::from_le_bytes([message[8], message[9]])
}

#[test]
fn batch_is_sent_in_order_with_the_last_progress_of_each_task() {
    let batch = vec![
        progress(1, 10),
        ClientEvent::SendWaitNotify(1, WaitingCause::Network),
        progress(2, 5),
        progress(1, 20),
        ClientEvent::SendNotifyData(SubscribeType::Completed, data_of(1, 100)),
        ClientEvent::SendFaults(2, SubscribeType::Failed, Reason::Dns),
        progress(1, 30),
        ClientEvent::Subscribe(1, 2, 3, 4),
    ];
    let mut sender = Client::new(9);
    let (messages, closed) = sender.run(&batch);
    assert!(!closed);
    // The events are told in the order of the batch; of the progress
    // events of task 1 only the last is told.
    assert_eq!(messages.len(), 5);
    let kinds: Vec<u16> = messages.iter().map(|m| kind_of(m)).collect();
    assert_eq!(kinds, vec![3, 1, 1, 2, 1]);
    let ids: Vec<u32> = messages.iter().map(|m| id_of(m)).collect();
    assert_eq!(ids, vec![1, 2, 3, 4, 5]);
    assert_eq!(sender.message_id, 6);

    let mut one = Client::new(9);
    assert_eq!(messages[0], one.handle_send_waiting_notify(1, WaitingCause::Network));
    assert_eq!(messages[1], one.handle_send_notify_data(SubscribeType::Progress, &data_of(2, 5)));
    assert_eq!(messages[2], one.handle_send_notify_data(SubscribeType::Completed, &data_of(1, 100)));
    assert_eq!(messages[3], one.handle_send_faults(2, SubscribeType::Failed, Reason::Dns));
    assert_eq!(messages[4], one.handle_send_notify_data(SubscribeType::Progress, &data_of(1, 30)));
}

#[test]
fn fault_follows_the_event_of_the_failure() {
    let batch = vec![
        progress(7, 10),
        ClientEvent::SendNotifyData(SubscribeType::Failed, data_of(7, 10)),
        ClientEvent::SendFaults(7, SubscribeType::Failed, Reason::Dns),
    ];
    let mut sender = Client::new(9);
    let (messages, closed) = sender.run(&batch);
    assert!(!closed);
    let kinds: Vec<u16> = messages.iter().map(|m| kind_of(m)).collect();
    assert_eq!(kinds, vec![1, 1, 2]);
    let mut one = Client::new(9);
    assert_eq!(messages[0], one.handle_send_notify_data(SubscribeType::Progress, &data_of(7, 10)));
    assert_eq!(messages[1], one.handle_send_notify_data(SubscribeType::Failed, &data_of(7, 10)));
    assert_eq!(messages[2], one.handle_send_faults(7, SubscribeType::Failed, Reason::Dns));
}

#[test]
fn shutdown_ends_the_batch() {
    let batch = vec![
        progress(1, 10),
        ClientEvent::SendWaitNotify(1, WaitingCause::Network),
        ClientEvent::Shutdown,
        ClientEvent::SendFaults(2, SubscribeType::Failed, Reason::Dns),
    ];
    let mut sender = Client::new(9);
    let (messages, closed) = sender.run(&batch);
    assert!(closed);
    assert_eq!(messages.len(), 2);
    assert_eq!(kind_of(&messages[0]), 1);
    assert_eq!(kind_of(&messages[1]), 3);
    assert_eq!(sender.message_id, 3);

    let (messages, closed) = sender.run(&Vec::new());
    assert!(!closed && messages.is_empty());
    assert_eq!(sender.message_id, 3);
}

#[test]
fn event_that_cannot_be_written_is_left_out() {
    let mut bad = data_of(1, 10);
    bad.progress =
        Progress::restore(State::Running, 3, vec![100], vec![10], StringMap::new()).unwrap();
    let batch = vec![
        ClientEvent::SendNotifyData(SubscribeType::Pause, bad),
        ClientEvent::SendNotifyData(SubscribeType::Resume, data_of(1, 10)),
    ];
    let mut sender = Client::new(9);
    let (messages, closed) = sender.run(&batch);
    assert!(!closed);
    assert_eq!(messages.len(), 1);
    assert_eq!(id_of(&messages[0]), 1);
    assert_eq!(sender.message_id, 2);
}

#[test]
fn manager_takes_up_events() {
    let mut m = ClientManager::new();
    assert_eq!(m.run(&ClientEvent::Subscribe(1, 100, 0, 0), true), Handled::Answered(ErrorCode::ChannelNotOpen));
    assert_eq!(m.run(&ClientEvent::OpenChannel(100), false), Handled::Answered(ErrorCode::Other));
    assert!(!m.has_channel(100));
    assert_eq!(m.run(&ClientEvent::OpenChannel(100), true), Handled::Answered(ErrorCode::ErrOk));
    assert_eq!(m.run(&ClientEvent::OpenChannel(100), false), Handled::Answered(ErrorCode::ErrOk));
    assert!(m.has_channel(100));
    assert_eq!(m.run(&progress(1, 10), false), Handled::Nothing);
    assert_eq!(m.run(&ClientEvent::Subscribe(1, 100, 0, 0), false), Handled::Answered(ErrorCode::ErrOk));
    assert_eq!(m.run(&progress(1, 10), false), Handled::Forward(100));
    assert_eq!(m.run(&progress(2, 10), false), Handled::Nothing);
    assert_eq!(
        m.run(&ClientEvent::SendFaults(1, SubscribeType::Failed, Reason::Dns), false),
        Handled::Forward(100)
    );
    assert_eq!(m.run(&ClientEvent::SendWaitNotify(1, WaitingCause::Network), false), Handled::Forward(100));
    assert_eq!(
        m.run(&ClientEvent::SendResponse(1, "HTTP/1.1".to_string(), 200, "OK".to_string(), Vec::new()), false),
        Handled::Forward(100)
    );
    assert_eq!(m.run(&ClientEvent::Shutdown, false), Handled::Nothing);

    assert_eq!(m.run(&ClientEvent::Unsubscribe(1), false), Handled::Answered(ErrorCode::ErrOk));
    assert_eq!(m.run(&ClientEvent::Unsubscribe(1), false), Handled::Answered(ErrorCode::Other));
    assert_eq!(m.run(&progress(1, 10), false), Handled::Nothing);

    assert_eq!(m.run(&ClientEvent::Subscribe(1, 100, 0, 0), false), Handled::Answered(ErrorCode::ErrOk));
    assert_eq!(m.run(&ClientEvent::TaskFinished(1), false), Handled::Nothing);
    assert_eq!(m.route(1), None);

    assert_eq!(m.run(&ClientEvent::Subscribe(2, 100, 0, 0), false), Handled::Answered(ErrorCode::ErrOk));
    assert_eq!(m.run(&ClientEvent::Terminate(100), false), Handled::Closed(100));
    assert_eq!(m.run(&ClientEvent::Terminate(100), false), Handled::Answered(ErrorCode::ErrOk));
    assert!(!m.has_channel(100));
    // The subscription outlives the channel, and leads nowhere.
    assert_eq!(m.run(&progress(2, 10), false), Handled::Nothing);
    assert_eq!(m.run(&ClientEvent::Unsubscribe(2), false), Handled::Answered(ErrorCode::Other));
}
