use request_service::command::{
    control, open_channel, pause, search, start, unsubscribe, Verb,
};
use request_service::config::{
    Action, ConfigBuilder, FileSpec, Mode, NetworkConfig, NetworkInfo, NetworkState, NetworkType,
};
use request_service::construct::{construct, construct_one, construct_tasks, Rights};
use request_service::error::ErrorCode;
use request_service::info::State;
use request_service::manager::ClientManager;
use request_service::notification_bar::NotificationDb;
use request_service::parcel::{IpcStatusCode, MsgParcel};
use request_service::qos::TaskQosInfo;
use request_service::reason::Reason;
use request_service::scheduler::{NewTask, Scheduler, SchedulerEvent};
use request_service::serialize::{serialize, Caller};
use request_service::service::{read_optional_text, SearchEntry};

fn online() -> NetworkState {
    NetworkState::Online(NetworkInfo {
        network_type: NetworkType::Wifi,
        is_metered: false,
        is_roaming: false,
    })
}

fn task(uid: u64, task_id: u32) -> NewTask {
    NewTask {
        qos: TaskQosInfo {
            uid,
            task_id,
            action: Action::Download,
            mode: Mode::BackGround,
            state: State::Initialized,
            priority: 0,
            ctime: 0,
            network: NetworkConfig::Any,
            metered: false,
            roaming: false,
        },
        files: 1,
    }
}

fn scheduler_with(tasks: &[(u64, u32)]) -> Scheduler {
    let mut s = Scheduler::new(online(), 1, 0);
    for (uid, id) in tasks {
        s.construct(task(*uid, *id), 0).unwrap();
    }
    s
}

fn ids_message(ids: &[&str]) -> MsgParcel {
    let mut data = MsgParcel::new();
    data.write_u32(ids.len() as u32);
    for id in ids {
        data.write_text(&id.to_string());
    }
    data
}

fn codes(reply: &mut MsgParcel) -> Vec<i32> {
    let mut v = Vec::new();
    while let Ok(code) = reply.read_i32() {
        v.push(code);
    }
    v
}

#[test]
fn start_needs_a_permission() {
    let mut s = scheduler_with(&[(7, 1)]);
    let mut data = ids_message(&["1"]);
    let mut reply = MsgParcel::new();
    let r = start(&mut s, &mut data, &mut reply, false, false, 7, 5);
    assert_eq!(r, Err(IpcStatusCode::Failed));
    assert_eq!(codes(&mut reply), vec![201]);
    assert_eq!(data.readable(), 2);
    assert_eq!(s.show(1).unwrap().qos.state, State::Initialized);

    let mut reply = MsgParcel::new();
    assert_eq!(start(&mut s, &mut data, &mut reply, false, true, 7, 5), Ok(()));
    assert_eq!(codes(&mut reply), vec![0, 0]);
    assert_eq!(s.show(1).unwrap().qos.state, State::Waiting);
}

#[test]
fn start_of_one_task() {
    let mut s = scheduler_with(&[(7, 1), (8, 2)]);
    let mut reply = MsgParcel::new();
    assert_eq!(start(&mut s, &mut ids_message(&["1"]), &mut reply, true, false, 7, 5), Ok(()));
    assert_eq!(codes(&mut reply), vec![0, 0]);
    let e = s.show(1).unwrap();
    assert_eq!(e.qos.state, State::Waiting);
    assert_eq!(e.reason, Reason::RunningTaskMeetLimits);
    assert_eq!(e.mtime, 5);
    assert_eq!(
        s.take_events(),
        vec![
            SchedulerEvent::StateChanged {
                task_id: 1,
                state: State::Waiting,
                reason: Reason::RunningTaskMeetLimits
            },
            SchedulerEvent::Reschedule,
        ]
    );

    // The task of another application is not found, unless the caller
    // may manage the tasks of others.
    let mut reply = MsgParcel::new();
    assert_eq!(start(&mut s, &mut ids_message(&["2"]), &mut reply, true, false, 7, 6), Ok(()));
    assert_eq!(codes(&mut reply), vec![0, 21900006]);
    assert_eq!(s.show(2).unwrap().qos.state, State::Initialized);
    let mut reply = MsgParcel::new();
    assert_eq!(start(&mut s, &mut ids_message(&["2"]), &mut reply, true, true, 7, 6), Ok(()));
    assert_eq!(codes(&mut reply), vec![0, 0]);
    assert_eq!(s.show(2).unwrap().qos.state, State::Waiting);

    // A text that is no number, and a task that is not there.
    let mut reply = MsgParcel::new();
    assert_eq!(start(&mut s, &mut ids_message(&["one"]), &mut reply, true, true, 7, 6), Ok(()));
    assert_eq!(codes(&mut reply), vec![0, 21900006]);
    let mut reply = MsgParcel::new();
    assert_eq!(start(&mut s, &mut ids_message(&["3"]), &mut reply, true, true, 7, 6), Ok(()));
    assert_eq!(codes(&mut reply), vec![0, 21900006]);

    // A task that waits is not started again.
    let mut reply = MsgParcel::new();
    assert_eq!(start(&mut s, &mut ids_message(&["1"]), &mut reply, true, false, 7, 7), Ok(()));
    assert_eq!(codes(&mut reply), vec![0, 21900007]);
}

#[test]
fn start_of_many_tasks() {
    let mut s = scheduler_with(&[(7, 1), (8, 2), (7, 3)]);
    let mut data = ids_message(&["1", "x", "2", "3", "9"]);
    data.write_u32(99);
    let mut reply = MsgParcel::new();
    assert_eq!(start(&mut s, &mut data, &mut reply, true, false, 7, 5), Ok(()));
    assert_eq!(codes(&mut reply), vec![0, 0, 21900006, 21900006, 0, 21900006]);
    assert_eq!(data.read_u32(), Ok(99));
    assert_eq!(s.show(1).unwrap().qos.state, State::Waiting);
    assert_eq!(s.show(2).unwrap().qos.state, State::Initialized);
    assert_eq!(s.show(3).unwrap().qos.state, State::Waiting);
}

#[test]
fn a_task_named_twice_gets_its_last_result_twice() {
    let mut s = scheduler_with(&[(7, 1), (7, 2)]);
    let mut reply = MsgParcel::new();
    let mut data = ids_message(&["1", "2", "1"]);
    assert_eq!(start(&mut s, &mut data, &mut reply, true, false, 7, 5), Ok(()));
    assert_eq!(codes(&mut reply), vec![0, 21900007, 0, 21900007]);
    assert_eq!(s.show(1).unwrap().qos.state, State::Waiting);
    assert_eq!(s.show(2).unwrap().qos.state, State::Waiting);
}

#[test]
fn start_of_no_task() {
    let mut s = scheduler_with(&[(7, 1)]);
    let mut reply = MsgParcel::new();
    assert_eq!(start(&mut s, &mut ids_message(&[]), &mut reply, true, false, 7, 5), Ok(()));
    assert_eq!(codes(&mut reply), vec![0]);
}

#[test]
fn message_that_cannot_be_read() {
    let mut s = scheduler_with(&[(7, 1), (7, 2)]);

    // No count.
    let mut data = MsgParcel::new();
    data.write_text(&"1".to_string());
    let mut reply = MsgParcel::new();
    assert!(start(&mut s, &mut data, &mut reply, true, false, 7, 5).is_err());
    assert_eq!(reply.readable(), 0);
    assert_eq!(data.readable(), 1);

    // Fewer ids than counted: nothing is started.
    let mut data = MsgParcel::new();
    data.write_u32(3);
    data.write_text(&"1".to_string());
    data.write_text(&"2".to_string());
    let mut reply = MsgParcel::new();
    assert!(start(&mut s, &mut data, &mut reply, true, false, 7, 5).is_err());
    assert_eq!(reply.readable(), 0);
    assert_eq!(data.readable(), 0);
    assert_eq!(s.show(1).unwrap().qos.state, State::Initialized);
    assert_eq!(s.show(2).unwrap().qos.state, State::Initialized);

    // One id counted, none there.
    let mut data = MsgParcel::new();
    data.write_u32(1);
    data.write_u32(1);
    let mut reply = MsgParcel::new();
    assert!(start(&mut s, &mut data, &mut reply, true, false, 7, 5).is_err());
    assert_eq!(reply.readable(), 0);
    assert_eq!(data.readable(), 1);

    // Too many.
    let mut data = MsgParcel::new();
    data.write_u32(501);
    let mut reply = MsgParcel::new();
    assert!(start(&mut s, &mut data, &mut reply, true, false, 7, 5).is_err());
    assert_eq!(codes(&mut reply), vec![13499999]);
    let mut data = MsgParcel::new();
    data.write_u32(500);
    let mut reply = MsgParcel::new();
    assert!(start(&mut s, &mut data, &mut reply, true, false, 7, 5).is_err());
    assert_eq!(reply.readable(), 0);
}

#[test]
fn other_commands_on_tasks() {
    let mut s = scheduler_with(&[(7, 1), (7, 2)]);
    let mut reply = MsgParcel::new();
    assert_eq!(control(&mut s, &mut ids_message(&["1", "2"]), &mut reply, Verb::Pause, false, 7, 5), Ok(()));
    assert_eq!(codes(&mut reply), vec![0, 0, 0]);
    assert_eq!(s.show(1).unwrap().qos.state, State::Paused);
    assert_eq!(s.show(1).unwrap().reason, Reason::UserOperation);

    let mut reply = MsgParcel::new();
    assert_eq!(control(&mut s, &mut ids_message(&["1"]), &mut reply, Verb::Pause, false, 7, 6), Ok(()));
    assert_eq!(codes(&mut reply), vec![0, 21900007]);

    let mut reply = MsgParcel::new();
    assert_eq!(control(&mut s, &mut ids_message(&["1"]), &mut reply, Verb::Resume, false, 7, 7), Ok(()));
    assert_eq!(codes(&mut reply), vec![0, 0]);
    assert_eq!(s.show(1).unwrap().qos.state, State::Waiting);

    let mut reply = MsgParcel::new();
    assert_eq!(control(&mut s, &mut ids_message(&["1", "2"]), &mut reply, Verb::Stop, false, 7, 8), Ok(()));
    assert_eq!(codes(&mut reply), vec![0, 0, 0]);
    assert_eq!(s.show(1).unwrap().qos.state, State::Stopped);
    assert_eq!(s.show(2).unwrap().qos.state, State::Stopped);

    let mut reply = MsgParcel::new();
    assert_eq!(control(&mut s, &mut ids_message(&["1", "1"]), &mut reply, Verb::Remove, false, 7, 9), Ok(()));
    assert_eq!(codes(&mut reply), vec![0, 21900006, 21900006]);
    assert_eq!(s.show(1).unwrap().qos.state, State::Removed);
    let mut reply = MsgParcel::new();
    assert_eq!(control(&mut s, &mut ids_message(&["2"]), &mut reply, Verb::Remove, false, 7, 9), Ok(()));
    assert_eq!(codes(&mut reply), vec![0, 0]);
}

#[test]
fn pause_of_one_task_behind_a_version() {
    let mut s = scheduler_with(&[(7, 1), (8, 2)]);
    let message = |version: u32, id: &str| {
        let mut data = MsgParcel::new();
        data.write_u32(version);
        data.write_text(&id.to_string());
        data
    };
    // The legacy version needs the permission to use the network.
    let mut reply = MsgParcel::new();
    let mut data = message(1, "1");
    assert!(pause(&mut s, &mut data, &mut reply, false, 7, 5).is_err());
    assert_eq!(codes(&mut reply), vec![201]);
    assert_eq!(data.readable(), 1);
    assert_eq!(s.show(1).unwrap().qos.state, State::Initialized);

    let mut reply = MsgParcel::new();
    assert_eq!(pause(&mut s, &mut message(2, "1"), &mut reply, false, 7, 5), Ok(()));
    assert_eq!(codes(&mut reply), vec![0]);
    assert_eq!(s.show(1).unwrap().qos.state, State::Paused);

    let mut reply = MsgParcel::new();
    assert!(pause(&mut s, &mut message(1, "1"), &mut reply, true, 7, 5).is_err());
    assert_eq!(codes(&mut reply), vec![21900007]);
    let mut reply = MsgParcel::new();
    assert!(pause(&mut s, &mut message(2, "2"), &mut reply, true, 7, 5).is_err());
    assert_eq!(codes(&mut reply), vec![21900006]);
    let mut reply = MsgParcel::new();
    assert!(pause(&mut s, &mut message(2, "two"), &mut reply, true, 7, 5).is_err());
    assert_eq!(codes(&mut reply), vec![21900006]);
    let mut reply = MsgParcel::new();
    let mut data = MsgParcel::new();
    data.write_u32(2);
    assert!(pause(&mut s, &mut data, &mut reply, true, 7, 5).is_err());
    assert_eq!(reply.readable(), 0);
}

#[test]
fn subscription_is_ended_by_the_owner() {
    let s = scheduler_with(&[(7, 1), (8, 2)]);
    let mut clients = ClientManager::new();
    clients.handle_open_channel(100, true).unwrap();
    assert_eq!(clients.handle_subscribe(1, 100), ErrorCode::ErrOk);
    assert_eq!(clients.handle_subscribe(2, 100), ErrorCode::ErrOk);
    let message = |id: &str| {
        let mut data = MsgParcel::new();
        data.write_text(&id.to_string());
        data
    };

    let mut reply = MsgParcel::new();
    assert!(unsubscribe(&s, &mut clients, &mut message("2"), &mut reply, 7).is_err());
    assert_eq!(codes(&mut reply), vec![21900006]);
    assert_eq!(clients.route(2), Some(100));

    let mut reply = MsgParcel::new();
    assert_eq!(unsubscribe(&s, &mut clients, &mut message("1"), &mut reply, 7), Ok(()));
    assert_eq!(codes(&mut reply), vec![0]);
    assert_eq!(clients.route(1), None);

    let mut reply = MsgParcel::new();
    assert!(unsubscribe(&s, &mut clients, &mut message("1"), &mut reply, 7).is_err());
    assert_eq!(codes(&mut reply), vec![21900006]);
    let mut reply = MsgParcel::new();
    assert!(unsubscribe(&s, &mut clients, &mut message("x"), &mut reply, 7).is_err());
    assert_eq!(codes(&mut reply), vec![21900006]);
    let mut reply = MsgParcel::new();
    assert!(unsubscribe(&s, &mut clients, &mut MsgParcel::new(), &mut reply, 7).is_err());
    assert_eq!(reply.readable(), 0);
}

#[test]
fn channel_is_handed_out() {
    let mut clients = ClientManager::new();
    let mut reply = MsgParcel::new();
    assert!(open_channel(&mut clients, &mut reply, 100, None).is_err());
    assert_eq!(reply.read_i32(), Ok(401));
    assert!(!clients.has_channel(100));

    let mut reply = MsgParcel::new();
    assert_eq!(open_channel(&mut clients, &mut reply, 100, Some(9)), Ok(()));
    assert_eq!(reply.read_i32(), Ok(0));
    assert_eq!(reply.read_fd(), Ok(9));
    assert!(clients.has_channel(100));
}

fn entries() -> Vec<SearchEntry> {
    let entry = |task_id: u32, bundle: &str, ctime: i64, state: u8, action: u8, mode: u8| SearchEntry {
        task_id,
        bundle: bundle.to_string(),
        ctime,
        state,
        action,
        mode,
    };
    vec![
        entry(11, "a", 10, 0x00, 0, 0),
        entry(12, "b", 20, 0x20, 0, 0),
        entry(13, "a", 30, 0x20, 1, 1),
        entry(4000000000, "a", 40, 0x20, 1, 1),
    ]
}

fn filter_message(bundle: &str, before: i64, after: i64, state: u32, action: u32, mode: u32) -> MsgParcel {
    let mut data = MsgParcel::new();
    data.write_text(&bundle.to_string());
    data.write_i64(before);
    data.write_i64(after);
    data.write_u32(state);
    data.write_u32(action);
    data.write_u32(mode);
    data
}

fn found(reply: &mut MsgParcel) -> Vec<String> {
    let n = reply.read_u32().unwrap();
    let mut v = Vec::new();
    for _ in 0..n {
        v.push(reply.read_text().unwrap());
    }
    assert_eq!(reply.readable(), 0);
    v
}

#[test]
fn search_answers_with_the_ids_as_texts() {
    let all = entries();
    let mut reply = MsgParcel::new();
    let mut data = filter_message("b", 100, 0, 0x61, 2, 2);
    assert_eq!(search(&mut data, &mut reply, false, "a".to_string(), &all), Ok(()));
    assert_eq!(found(&mut reply), vec!["11", "13", "4000000000"]);

    let mut reply = MsgParcel::new();
    let mut data = filter_message("b", 100, 0, 0x61, 2, 2);
    assert_eq!(search(&mut data, &mut reply, true, "a".to_string(), &all), Ok(()));
    assert_eq!(found(&mut reply), vec!["12"]);

    let mut reply = MsgParcel::new();
    let mut data = filter_message("*", 30, 20, 0x20, 2, 2);
    assert_eq!(search(&mut data, &mut reply, true, "a".to_string(), &all), Ok(()));
    assert_eq!(found(&mut reply), vec!["12", "13"]);

    let mut reply = MsgParcel::new();
    let mut data = filter_message("a", 100, 0, 0x61, 1, 1);
    assert_eq!(search(&mut data, &mut reply, true, "x".to_string(), &all), Ok(()));
    assert_eq!(found(&mut reply), vec!["13", "4000000000"]);

    let mut reply = MsgParcel::new();
    let mut data = MsgParcel::new();
    data.write_text(&"a".to_string());
    data.write_i64(1);
    data.write_u32(1);
    assert!(search(&mut data, &mut reply, true, "x".to_string(), &all).is_err());
    assert_eq!(reply.readable(), 0);
    assert_eq!(data.readable(), 1);
}

fn rights(pid: u64) -> Rights {
    Rights {
        caller: Caller {
            uid: 20,
            token_id: 5,
            bundle: "com.example".to_string(),
            account: "acc".to_string(),
        },
        pid,
        internet: true,
        manager: false,
        system_api: false,
        disable_notification: false,
    }
}

fn write_task(data: &mut MsgParcel, mode: Mode, title: Option<&str>, text: Option<&str>, disable: bool) {
    let mut config = ConfigBuilder::new().action(Action::Download).mode(mode).build();
    config.file_specs.push(FileSpec {
        name: "file".to_string(),
        path: "/data/storage/el1/base/a.bin".to_string(),
        file_name: "a.bin".to_string(),
        mime_type: "".to_string(),
        is_user_file: false,
        fd: None,
    });
    serialize(&config, data).unwrap();
    for t in [title, text] {
        match t {
            Some(t) => {
                data.write_bool(true);
                data.write_text(&t.to_string());
            }
            None => data.write_bool(false),
        }
    }
    data.write_bool(disable);
}

#[test]
fn task_is_made_from_a_message() {
    let mut s = Scheduler::new(online(), 1, 0);
    let mut clients = ClientManager::new();
    let mut db = NotificationDb::new();
    let mut data = MsgParcel::new();
    write_task(&mut data, Mode::BackGround, Some("title"), None, true);
    write_task(&mut data, Mode::BackGround, None, None, false);
    data.write_u32(5);

    // Without a channel the task is made, and the subscription fails.
    let (r, made) = construct_one(&mut s, &mut clients, &mut db, &mut data, &rights(100), 77, 9);
    assert_eq!(r, Some((ErrorCode::ChannelNotOpen, 77)));
    let made = made.unwrap();
    assert_eq!(made.common_data.task_id, 77);
    assert_eq!(made.common_data.uid, 20);
    assert_eq!(made.bundle, "com.example");
    let e = s.show(77).unwrap();
    assert_eq!(e.qos.uid, 20);
    assert_eq!(e.qos.state, State::Initialized);
    assert_eq!(e.qos.ctime, 9);
    assert_eq!(clients.route(77), None);
    let content = db.query_task_customized_notification(77).unwrap();
    assert_eq!(content.title.as_deref(), Some("title"));
    assert_eq!(content.text, None);
    // The caller is not of the system: the notification stays.
    assert!(db.check_task_notification_available(&77));

    clients.handle_open_channel(100, true).unwrap();
    let (r, made) = construct_one(&mut s, &mut clients, &mut db, &mut data, &rights(100), 78, 10);
    assert_eq!(r, Some((ErrorCode::ErrOk, 78)));
    assert_eq!(made.unwrap().common_data.task_id, 78);
    assert_eq!(clients.route(78), Some(100));
    assert!(db.query_task_customized_notification(78).is_none());
    assert_eq!(data.read_u32(), Ok(5));
    assert!(s.take_events().is_empty());
}

#[test]
fn task_that_is_not_made() {
    let mut s = Scheduler::new(online(), 1, 0);
    let mut clients = ClientManager::new();
    clients.handle_open_channel(100, true).unwrap();
    let mut db = NotificationDb::new();

    // No configuration: the message stays as it is.
    let mut data = MsgParcel::new();
    data.write_u32(1);
    data.write_u32(2);
    let (r, made) = construct_one(&mut s, &mut clients, &mut db, &mut data, &rights(100), 1, 0);
    assert_eq!(r, Some((ErrorCode::IpcSizeTooLarge, 0)));
    assert!(made.is_none());
    assert_eq!(data.readable(), 2);

    // A file outside the sandbox.
    let mut config = ConfigBuilder::new().action(Action::Download).build();
    config.file_specs.push(FileSpec {
        name: "file".to_string(),
        path: "/etc/passwd".to_string(),
        file_name: "passwd".to_string(),
        mime_type: "".to_string(),
        is_user_file: false,
        fd: None,
    });
    let mut data = MsgParcel::new();
    serialize(&config, &mut data).unwrap();
    data.write_bool(false);
    let (r, made) = construct_one(&mut s, &mut clients, &mut db, &mut data, &rights(100), 1, 0);
    assert_eq!(r, Some((ErrorCode::Other, 0)));
    assert!(made.is_none());
    assert_eq!(data.readable(), 1);
    assert!(s.show(1).is_none());

    // No file.
    let config = ConfigBuilder::new().action(Action::Download).build();
    let mut data = MsgParcel::new();
    serialize(&config, &mut data).unwrap();
    let (r, made) = construct_one(&mut s, &mut clients, &mut db, &mut data, &rights(100), 1, 0);
    assert_eq!(r, Some((ErrorCode::FileOperationErr, 0)));
    assert!(made.is_none());
    assert!(s.show(1).is_none());

    // An id that is taken.
    let mut data = MsgParcel::new();
    write_task(&mut data, Mode::BackGround, None, None, false);
    write_task(&mut data, Mode::BackGround, None, None, false);
    let (r, _) = construct_one(&mut s, &mut clients, &mut db, &mut data, &rights(100), 1, 0);
    assert_eq!(r, Some((ErrorCode::ErrOk, 1)));
    let (r, made) = construct_one(&mut s, &mut clients, &mut db, &mut data, &rights(100), 1, 0);
    assert_eq!(r, Some((ErrorCode::Other, 0)));
    assert!(made.is_none());

    // The message ends behind the configuration: the task stays.
    let mut data = MsgParcel::new();
    write_task(&mut data, Mode::BackGround, None, Some("text"), false);
    let mut short = MsgParcel::new();
    let mut copied = 0;
    while data.readable() > 1 {
        copied += 1;
        if let Ok(v) = data.read_u32() {
            short.write_u32(v);
        } else if let Ok(v) = data.read_i32() {
            short.write_i32(v);
        } else if let Ok(v) = data.read_bool() {
            short.write_bool(v);
        } else if let Ok(v) = data.read_i64() {
            short.write_i64(v);
        } else if let Ok(v) = data.read_u64() {
            short.write_u64(v);
        } else if let Ok(v) = data.read_text() {
            short.write_text(&v);
        } else {
            panic!("value {} of an unknown kind", copied);
        }
    }
    let (r, made) = construct_one(&mut s, &mut clients, &mut db, &mut short, &rights(100), 2, 0);
    assert_eq!(r, None);
    assert_eq!(made.unwrap().common_data.task_id, 2);
    assert!(s.show(2).is_some());
    assert_eq!(clients.route(2), None);
    assert_eq!(db.query_task_customized_notification(2).unwrap().text.as_deref(), Some("text"));
    assert_eq!(short.readable(), 0);
}

#[test]
fn notification_is_turned_off_by_the_system() {
    let mut s = Scheduler::new(online(), 1, 0);
    let mut clients = ClientManager::new();
    clients.handle_open_channel(100, true).unwrap();
    let mut db = NotificationDb::new();
    let mut system = rights(100);
    system.system_api = true;

    let mut data = MsgParcel::new();
    write_task(&mut data, Mode::BackGround, None, None, true);
    let (r, made) = construct_one(&mut s, &mut clients, &mut db, &mut data, &system, 1, 0);
    assert_eq!(r, Some((ErrorCode::Permission, 1)));
    assert!(made.is_some());
    assert!(s.show(1).is_some());
    assert_eq!(clients.route(1), None);
    assert!(db.check_task_notification_available(&1));

    system.disable_notification = true;
    let mut data = MsgParcel::new();
    write_task(&mut data, Mode::BackGround, None, None, true);
    write_task(&mut data, Mode::FrontEnd, None, None, true);
    let (r, _) = construct_one(&mut s, &mut clients, &mut db, &mut data, &system, 2, 0);
    assert_eq!(r, Some((ErrorCode::ErrOk, 2)));
    assert!(!db.check_task_notification_available(&2));
    assert_eq!(clients.route(2), Some(100));
    let (r, _) = construct_one(&mut s, &mut clients, &mut db, &mut data, &system, 3, 0);
    assert_eq!(r, Some((ErrorCode::ErrOk, 3)));
    assert!(db.check_task_notification_available(&3));
}

#[test]
fn tasks_are_made_and_answered() {
    let mut s = Scheduler::new(online(), 1, 0);
    let mut clients = ClientManager::new();
    clients.handle_open_channel(100, true).unwrap();
    let mut db = NotificationDb::new();
    let mut data = MsgParcel::new();
    write_task(&mut data, Mode::BackGround, None, None, false);
    write_task(&mut data, Mode::BackGround, None, None, false);
    write_task(&mut data, Mode::BackGround, None, None, false);
    let mut reply = MsgParcel::new();
    let (r, made) = construct_tasks(
        &mut s, &mut clients, &mut db, &mut data, &mut reply, &rights(100), &vec![5, 5, 6], 3,
    );
    assert_eq!(r, Ok(()));
    // The second id is taken. What follows the configuration of a task
    // that is refused is not read, so the third configuration is not
    // found where it is looked for.
    assert_eq!(made.len(), 1);
    assert_eq!(made[0].common_data.task_id, 5);
    assert_eq!(reply.read_i32(), Ok(0));
    assert_eq!((reply.read_i32(), reply.read_u32()), (Ok(0), Ok(5)));
    assert_eq!((reply.read_i32(), reply.read_u32()), (Ok(13499999), Ok(0)));
    assert_eq!((reply.read_i32(), reply.read_u32()), (Ok(2), Ok(0)));
    assert_eq!(reply.readable(), 0);
    assert!(s.show(6).is_none());

    let mut data = MsgParcel::new();
    write_task(&mut data, Mode::BackGround, None, None, false);
    write_task(&mut data, Mode::BackGround, Some("a"), Some("b"), false);
    let mut reply = MsgParcel::new();
    let (r, made) = construct_tasks(
        &mut s, &mut clients, &mut db, &mut data, &mut reply, &rights(100), &vec![7, 8], 4,
    );
    assert_eq!(r, Ok(()));
    assert_eq!(made.len(), 2);
    assert_eq!(reply.read_i32(), Ok(0));
    assert_eq!((reply.read_i32(), reply.read_u32()), (Ok(0), Ok(7)));
    assert_eq!((reply.read_i32(), reply.read_u32()), (Ok(0), Ok(8)));
    assert_eq!(data.readable(), 0);
    assert_eq!(s.show(8).unwrap().qos.ctime, 4);
}

#[test]
fn construct_draws_the_ids() {
    let mut s = Scheduler::new(online(), 1, 0);
    let mut clients = ClientManager::new();
    clients.handle_open_channel(100, true).unwrap();
    let mut db = NotificationDb::new();
    let mut data = MsgParcel::new();
    data.write_u32(2);
    write_task(&mut data, Mode::BackGround, None, None, false);
    write_task(&mut data, Mode::BackGround, None, None, false);
    let mut reply = MsgParcel::new();
    let (r, made) = construct(&mut s, &mut clients, &mut db, &mut data, &mut reply, &rights(100), 3);
    assert_eq!(r, Ok(()));
    assert_eq!(reply.read_i32(), Ok(0));
    let mut ids = Vec::new();
    for config in &made {
        let code = reply.read_i32().unwrap();
        let id = reply.read_u32().unwrap();
        assert_eq!(code, 0);
        assert_eq!(id, config.common_data.task_id);
        assert_eq!(clients.route(id), Some(100));
        assert_eq!(s.show(id).unwrap().qos.state, State::Initialized);
        ids.push(id);
    }
    // Two draws give the same id once in four thousand million times;
    // the second task is then refused.
    if made.len() == 2 {
        assert_ne!(ids[0], ids[1]);
        assert_eq!(reply.readable(), 0);
    }

    // Without a permission, without a count, with too many.
    let mut no = rights(100);
    no.internet = false;
    let mut reply = MsgParcel::new();
    let (r, made) = construct(&mut s, &mut clients, &mut db, &mut MsgParcel::new(), &mut reply, &no, 3);
    assert!(r.is_err() && made.is_empty());
    assert_eq!(reply.read_i32(), Ok(201));
    let mut reply = MsgParcel::new();
    let (r, _) = construct(&mut s, &mut clients, &mut db, &mut MsgParcel::new(), &mut reply, &rights(100), 3);
    assert!(r.is_err());
    assert_eq!(reply.readable(), 0);
    let mut data = MsgParcel::new();
    data.write_u32(101);
    let mut reply = MsgParcel::new();
    let (r, _) = construct(&mut s, &mut clients, &mut db, &mut data, &mut reply, &rights(100), 3);
    assert!(r.is_err());
    assert_eq!(reply.read_i32(), Ok(13499999));

    // A configuration that cannot be read: each of the tasks is refused.
    let mut data = MsgParcel::new();
    data.write_u32(2);
    data.write_bool(true);
    let mut reply = MsgParcel::new();
    let (r, made) = construct(&mut s, &mut clients, &mut db, &mut data, &mut reply, &rights(100), 3);
    assert_eq!(r, Ok(()));
    assert!(made.is_empty());
    assert_eq!(reply.read_i32(), Ok(0));
    assert_eq!((reply.read_i32(), reply.read_u32()), (Ok(2), Ok(0)));
    assert_eq!((reply.read_i32(), reply.read_u32()), (Ok(2), Ok(0)));
}

#[test]
fn optional_text_is_read() {
    let mut data = MsgParcel::new();
    data.write_bool(true);
    data.write_text(&"t".to_string());
    data.write_bool(false);
    data.write_bool(true);
    assert_eq!(read_optional_text(&mut data), Ok(Some("t".to_string())));
    assert_eq!(read_optional_text(&mut data), Ok(None));
    assert!(read_optional_text(&mut data).is_err());
    assert_eq!(data.readable(), 0);
    let mut data = MsgParcel::new();
    data.write_u32(1);
    assert!(read_optional_text(&mut data).is_err());
    assert_eq!(data.readable(), 1);
}
