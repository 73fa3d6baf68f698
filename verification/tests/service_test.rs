use request_service::client::{send_message, Acknowledgement};
use request_service::config::{Action, Mode, NetworkInfo, NetworkState, NetworkType, Version};
use request_service::error::ErrorCode;
use request_service::info::State;
use request_service::network_manager::{get_account, NetworkManager};
use request_service::notify::{
    notify_header_receive, publishes_state, state_change_notify, SubscribeType,
};
use request_service::parcel::MsgParcel;
use request_service::reason::Reason;
use request_service::scheduler::{sys_event, CancelOutcome, NewTask, Scheduler};
use request_service::qos::TaskQosInfo;
use request_service::service::{
    get_task, notification_disabled, touch_reply, write_construct_reply, write_control_reply,
};
use request_service::task_manager::start_inner;
use request_service::utils::{numbers_to_string, split_string};

fn wifi() -> NetworkState {
    NetworkState::Online(NetworkInfo {
        network_type: NetworkType::Wifi,
        is_metered: false,
        is_roaming: false,
    })
}

#[test]
fn notification_is_turned_off_for_the_system_only() {
    assert_eq!(notification_disabled(true, true, true, Mode::BackGround), Ok(true));
    assert_eq!(notification_disabled(true, true, true, Mode::FrontEnd), Ok(false));
    assert_eq!(notification_disabled(true, true, false, Mode::BackGround), Err(ErrorCode::Permission));
    assert_eq!(notification_disabled(true, false, false, Mode::BackGround), Ok(false));
    assert_eq!(notification_disabled(false, true, false, Mode::BackGround), Ok(false));
}

#[test]
fn answers_are_written() {
    let mut reply = MsgParcel::new();
    write_construct_reply(
        &mut reply,
        &vec![(ErrorCode::ErrOk, 7), (ErrorCode::TaskEnqueueErr, 0)],
    );
    assert_eq!(reply.read_i32(), Ok(0));
    assert_eq!(reply.read_i32(), Ok(0));
    assert_eq!(reply.read_u32(), Ok(7));
    assert_eq!(reply.read_i32(), Ok(21900004));
    assert_eq!(reply.read_u32(), Ok(0));
    assert_eq!(reply.readable(), 0);

    let mut reply = MsgParcel::new();
    write_control_reply(&mut reply, &vec![ErrorCode::TaskNotFound, ErrorCode::TaskStateErr]);
    assert_eq!(reply.read_i32(), Ok(0));
    assert_eq!(reply.read_i32(), Ok(21900006));
    assert_eq!(reply.read_i32(), Ok(21900007));
    assert!(reply.read_i32().is_err());

    assert_eq!(touch_reply(Some(true)), Some(ErrorCode::ErrOk));
    assert_eq!(touch_reply(Some(false)), Some(ErrorCode::TaskNotFound));
    assert_eq!(touch_reply(None), None);
    assert_eq!(get_task(None), Err(ErrorCode::TaskNotFound));
    assert_eq!(get_task(Some(State::Removed)), Err(ErrorCode::TaskStateErr));
    assert_eq!(get_task(Some(State::Failed)), Ok(()));
}

fn entry(task_id: u32) -> NewTask {
    NewTask {
        qos: TaskQosInfo {
            uid: 1,
            task_id,
            action: Action::Download,
            mode: Mode::BackGround,
            state: State::Initialized,
            priority: 0,
            ctime: 0,
            network: request_service::config::NetworkConfig::Any,
            metered: false,
            roaming: false,
        },
        files: 1,
    }
}

#[test]
fn cancelled_transfer() {
    let mut s = Scheduler::new(wifi(), 1, 0);
    assert_eq!(s.task_cancel(1, true, 0), CancelOutcome::Unknown);
    s.construct(entry(1), 0).unwrap();
    s.start(1, 1).unwrap();
    s.reschedule(2);
    assert!(s.is_running(1));
    assert_eq!(s.task_cancel(1, true, 3), CancelOutcome::Restarted(true));
    assert!(s.is_running(1));
    assert_eq!(s.show(1).unwrap().qos.state, State::Running);
    assert_eq!(s.task_cancel(1, false, 4), CancelOutcome::Restarted(false));
    assert!(!s.is_running(1));
    assert_eq!(s.show(1).unwrap().qos.state, State::Waiting);
    assert_eq!(s.show(1).unwrap().reason, Reason::RunningTaskMeetLimits);
    assert_eq!(s.task_cancel(1, true, 5), CancelOutcome::Idle);

    s.reschedule(6);
    s.task_finished(1, Some(Reason::Dns), 7);
    assert_eq!(s.task_cancel(1, true, 8), CancelOutcome::Failed(Reason::Dns));
    s.remove(1, 9).unwrap();
    assert_eq!(s.task_cancel(1, true, 10), CancelOutcome::Dropped);
    assert!(!s.is_running(1));
}

#[test]
fn report_of_a_failure() {
    let r = sys_event(Action::Upload, 5, 2, Reason::ProtocolError);
    assert_eq!(r.action, "UPLOAD");
    assert_eq!(r.total_files, 5);
    assert_eq!(r.failed_files, 3);
    assert_eq!(r.succeeded_files, 2);
    assert_eq!(r.reason, 17);
    let r = sys_event(Action::Download, 1, 9, Reason::Dns);
    assert_eq!(r.action, "DOWNLOAD");
    assert_eq!(r.failed_files, 0);
    assert_eq!(r.succeeded_files, 1);
    assert_eq!(sys_event(Action::Any, 0, 0, Reason::Default).action, "UNKNOWN");
}

#[test]
fn events_of_a_state() {
    assert!(state_change_notify(State::Initialized, 10).is_empty());
    assert!(state_change_notify(State::Running, 0).is_empty());
    assert!(state_change_notify(State::Retrying, 0).is_empty());
    assert_eq!(state_change_notify(State::Running, 1), vec![SubscribeType::Progress]);
    assert_eq!(
        state_change_notify(State::Completed, 0),
        vec![SubscribeType::Progress, SubscribeType::Completed]
    );
    assert_eq!(
        state_change_notify(State::Failed, 5),
        vec![SubscribeType::Progress, SubscribeType::Failed]
    );
    assert_eq!(
        state_change_notify(State::Paused, 5),
        vec![SubscribeType::Progress, SubscribeType::Pause]
    );
    assert_eq!(
        state_change_notify(State::Waiting, 5),
        vec![SubscribeType::Progress, SubscribeType::Pause]
    );
    assert_eq!(
        state_change_notify(State::Removed, 5),
        vec![SubscribeType::Progress, SubscribeType::Remove]
    );
    assert_eq!(state_change_notify(State::Stopped, 5), vec![SubscribeType::Progress]);
    assert!(publishes_state(State::Completed));
    assert!(publishes_state(State::Failed));
    assert!(!publishes_state(State::Removed));
    assert!(notify_header_receive(Version::API9, Action::Upload));
    assert!(!notify_header_receive(Version::API10, Action::Upload));
    assert!(!notify_header_receive(Version::API9, Action::Download));
}

#[test]
fn answer_of_a_client() {
    assert_eq!(send_message(24, false, None), Acknowledgement::NotSent);
    assert_eq!(send_message(24, true, None), Acknowledgement::TimedOut);
    assert_eq!(send_message(24, true, Some(24u32.to_le_bytes())), Acknowledgement::Done);
    assert_eq!(send_message(24, true, Some(25u32.to_le_bytes())), Acknowledgement::BadLength);
    assert_eq!(send_message(70000, true, Some(70000u32.to_le_bytes())), Acknowledgement::Done);
}

#[test]
fn state_in_which_a_task_starts() {
    assert_eq!(start_inner(State::Initialized, Reason::Default), Some(State::Running));
    assert_eq!(start_inner(State::Paused, Reason::UserOperation), Some(State::Running));
    assert_eq!(start_inner(State::Waiting, Reason::NetworkOffline), Some(State::Retrying));
    assert_eq!(start_inner(State::Waiting, Reason::UnsupportedNetworkType), Some(State::Retrying));
    assert_eq!(start_inner(State::Waiting, Reason::RunningTaskMeetLimits), Some(State::Running));
    assert_eq!(start_inner(State::Completed, Reason::Default), None);
    assert_eq!(start_inner(State::Running, Reason::Default), None);
}

#[test]
fn network_and_accounts() {
    let mut m = NetworkManager::new();
    assert!(!m.is_online());
    assert_eq!(m.query_network(), NetworkState::Offline);
    assert!(m.notify_network(wifi()));
    assert!(!m.notify_network(wifi()));
    assert!(m.is_online());
    let (front, active) = m.query_active_accounts();
    assert_eq!(front, 0);
    assert_eq!(active.len(), 1);
    assert!(active.contains(&0));
    m.update_accounts(100, Some(vec![101, 102, 100]));
    let (front, active) = m.query_active_accounts();
    assert_eq!(front, 100);
    assert_eq!(active.len(), 3);
    assert!(active.contains(&100) && active.contains(&101) && active.contains(&102));
    assert_eq!(get_account(20_010_044), 100);
    assert_eq!(get_account(199_999), 0);
}

#[test]
fn numbers_are_written_as_a_list() {
    assert_eq!(numbers_to_string(&vec![]), "[]");
    assert_eq!(numbers_to_string(&vec![1042003]), "[1042003]");
    assert_eq!(numbers_to_string(&vec![-1, 0, 7]), "[-1, 0, 7]");
    assert_eq!(numbers_to_string(&vec![i64::MIN, i64::MAX]), format!("{:?}", vec![i64::MIN, i64::MAX]));
    let numbers = vec![10i64, -1, 1 << 40];
    let items = split_string(&numbers_to_string(&numbers));
    let back: Vec<i64> = items.iter().map(|s| s.parse().unwrap()).collect();
    assert_eq!(back, numbers);
}
