use request_service::config::{
    Action, Mode, NetworkConfig, NetworkInfo, NetworkState, NetworkType,
};
use request_service::error::ErrorCode;
use request_service::info::State;
use request_service::qos::{
    admit_in_order, capacity_for_level, collect_candidates, comes_before, holds_uid, is_eligible,
    remove_uid, reschedule_action, sort_by_claim, Front, QosCapacity, TaskQosInfo,
};
use request_service::queue::{is_timed_out, RunningQueue, MILLISECONDS_IN_ONE_MONTH};
use request_service::reason::Reason;
use request_service::scheduler::{NewTask, Scheduler, SchedulerEvent};

fn wifi() -> NetworkState {
    NetworkState::Online(NetworkInfo {
        network_type: NetworkType::Wifi,
        is_metered: false,
        is_roaming: false,
    })
}

fn entry(task_id: u32, uid: u64) -> TaskQosInfo {
    TaskQosInfo {
        uid,
        task_id,
        action: Action::Download,
        mode: Mode::BackGround,
        state: State::Waiting,
        priority: 0,
        ctime: 100,
        network: NetworkConfig::Any,
        metered: false,
        roaming: false,
    }
}

fn new_task(task_id: u32, uid: u64) -> NewTask {
    NewTask { qos: entry(task_id, uid), files: 1 }
}

fn scheduler() -> Scheduler {
    Scheduler::new(wifi(), 1, 0)
}

fn state_of(s: &Scheduler, id: u32) -> State {
    s.show(id).unwrap().qos.state
}

fn admitted(s: &mut Scheduler, time: u64) -> Vec<u32> {
    let r = s.reschedule(time);
    let mut v = r.download.running.clone();
    v.extend(r.upload.running.iter());
    v.sort();
    v
}

fn running(s: &Scheduler) -> Vec<u32> {
    let mut v = s.running_tasks().clone();
    v.sort();
    v
}

#[test]
fn construct_without_files() {
    let mut s = scheduler();
    let mut t = new_task(1, 10);
    t.files = 0;
    assert_eq!(s.construct(t, 0), Err(ErrorCode::FileOperationErr));
    assert!(s.show(1).is_none());
}

#[test]
fn construct_records_an_initialized_task() {
    let mut s = scheduler();
    assert_eq!(s.construct(new_task(1, 10), 55), Ok(1));
    let e = s.show(1).unwrap();
    assert_eq!(e.qos.state, State::Initialized);
    assert_eq!(e.qos.ctime, 55);
    assert_eq!(e.mtime, 55);
    assert_eq!(e.reason, Reason::Default);
    assert_eq!(s.construct(new_task(1, 10), 56), Err(ErrorCode::Other));
    let mut any = new_task(2, 10);
    any.qos.action = Action::Any;
    assert_eq!(s.construct(any, 56), Err(ErrorCode::ParameterCheck));
}

#[test]
fn quota_of_background_tasks() {
    let mut s = scheduler();
    for id in 0..100 {
        assert_eq!(s.construct(new_task(id, 10), 0), Ok(id));
    }
    assert_eq!(s.construct(new_task(100, 10), 0), Err(ErrorCode::TaskEnqueueErr));
    assert_eq!(s.construct(new_task(100, 11), 0), Ok(100));
    let mut front = new_task(101, 10);
    front.qos.mode = Mode::FrontEnd;
    assert_eq!(s.construct(front, 0), Ok(101));
    // a task that is over makes room
    assert_eq!(s.remove(5, 1), Ok(()));
    assert_eq!(s.construct(new_task(102, 10), 0), Ok(102));
}

#[test]
fn start_a_task_that_does_not_exist() {
    let mut s = scheduler();
    assert_eq!(s.start(9, 0), Err(ErrorCode::TaskNotFound));
    assert_eq!(s.resume(9, 0), Err(ErrorCode::TaskNotFound));
    assert_eq!(s.pause(9, 0), Err(ErrorCode::TaskNotFound));
    assert_eq!(s.stop(9, 0), Err(ErrorCode::TaskNotFound));
    assert_eq!(s.remove(9, 0), Err(ErrorCode::TaskNotFound));
}

#[test]
fn resume_a_task_that_is_not_paused() {
    let mut s = scheduler();
    s.construct(new_task(1, 10), 0).unwrap();
    assert_eq!(s.resume(1, 1), Err(ErrorCode::TaskStateErr));
    s.start(1, 2).unwrap();
    assert_eq!(s.resume(1, 3), Err(ErrorCode::TaskStateErr));
    s.reschedule(4);
    assert_eq!(state_of(&s, 1), State::Running);
    assert_eq!(s.resume(1, 5), Err(ErrorCode::TaskStateErr));
    s.pause(1, 6).unwrap();
    assert_eq!(s.start(1, 7), Err(ErrorCode::TaskStateErr));
    assert_eq!(s.resume(1, 7), Ok(()));
    assert_eq!(state_of(&s, 1), State::Waiting);
}

#[test]
fn pause_twice_and_remove_twice() {
    let mut s = scheduler();
    s.construct(new_task(1, 10), 0).unwrap();
    assert_eq!(s.pause(1, 1), Ok(()));
    assert_eq!(s.show(1).unwrap().reason, Reason::UserOperation);
    assert_eq!(s.pause(1, 2), Err(ErrorCode::TaskStateErr));
    assert_eq!(s.show(1).unwrap().mtime, 1);
    assert_eq!(s.remove(1, 3), Ok(()));
    assert_eq!(state_of(&s, 1), State::Removed);
    assert_eq!(s.remove(1, 4), Err(ErrorCode::TaskNotFound));
    assert_eq!(s.show(1).unwrap().mtime, 3);
    assert_eq!(s.start(1, 5), Err(ErrorCode::TaskStateErr));
    assert_eq!(s.stop(1, 5), Err(ErrorCode::TaskStateErr));
}

#[test]
fn start_with_nothing_left_completes() {
    // a new task of which every file is processed to its end
    let mut s = scheduler();
    s.construct(new_task(3, 10), 0).unwrap();
    assert!(s.set_finished(3, true));
    assert!(!s.set_finished(4, true));
    assert_eq!(s.start(3, 1), Ok(()));
    assert_eq!(state_of(&s, 3), State::Completed);
    assert_eq!(s.show(3).unwrap().reason, Reason::Default);
    assert!(!s.is_running(3));
    assert_eq!(
        s.take_events(),
        vec![
            SchedulerEvent::StateChanged { task_id: 3, state: State::Waiting, reason: Reason::Default },
            SchedulerEvent::StateChanged { task_id: 3, state: State::Running, reason: Reason::Default },
            SchedulerEvent::StateChanged {
                task_id: 3,
                state: State::Completed,
                reason: Reason::Default
            },
        ]
    );

    // a task that waits is not started again; one that runs goes back
    // to wait for its turn
    let mut s = scheduler();
    s.construct(new_task(5, 10), 0).unwrap();
    s.start(5, 1).unwrap();
    assert_eq!(s.start(5, 2), Err(ErrorCode::TaskStateErr));
    s.reschedule(2);
    assert_eq!(state_of(&s, 5), State::Running);
    assert_eq!(s.start(5, 3), Ok(()));
    assert_eq!(state_of(&s, 5), State::Waiting);

    let mut s = scheduler();
    s.construct(new_task(1, 10), 0).unwrap();
    s.start(1, 1).unwrap();
    s.reschedule(2);
    s.task_finished(1, None, 3);
    assert_eq!(state_of(&s, 1), State::Completed);
    assert!(s.show(1).unwrap().finished);
    assert_eq!(s.start(1, 4), Err(ErrorCode::TaskStateErr));

    // a task that was stopped short of its end and has nothing left
    let mut s = scheduler();
    s.construct(new_task(2, 10), 0).unwrap();
    s.start(2, 1).unwrap();
    s.reschedule(2);
    s.task_finished(2, Some(Reason::IoError), 3);
    assert_eq!(state_of(&s, 2), State::Failed);
    assert_eq!(s.show(2).unwrap().reason, Reason::IoError);
    assert_eq!(s.start(2, 4), Ok(()));
    assert_eq!(state_of(&s, 2), State::Waiting);
}

#[test]
fn finished_while_waiting_completes_on_start() {
    let mut s = scheduler();
    s.construct(new_task(1, 10), 0).unwrap();
    s.start(1, 1).unwrap();
    s.reschedule(2);
    s.on_network_change(NetworkState::Offline);
    s.reschedule(3);
    assert_eq!(state_of(&s, 1), State::Waiting);
    assert_eq!(s.show(1).unwrap().reason, Reason::NetworkOffline);
    // the transfer ended with success while the task was taken from the queue
    s.task_finished(1, None, 4);
    assert_eq!(state_of(&s, 1), State::Waiting);
    assert!(s.show(1).unwrap().finished);
    s.take_events();
    assert_eq!(s.pause(1, 5), Ok(()));
    assert_eq!(s.resume(1, 6), Ok(()));
    assert_eq!(state_of(&s, 1), State::Completed);
    assert_eq!(s.show(1).unwrap().reason, Reason::Default);
    let events = s.take_events();
    assert!(events.contains(&SchedulerEvent::StateChanged {
        task_id: 1,
        state: State::Completed,
        reason: Reason::Default
    }));
}

#[test]
fn upload_that_failed_is_not_started_again() {
    let mut s = scheduler();
    let mut t = new_task(1, 10);
    t.qos.action = Action::Upload;
    s.construct(t, 0).unwrap();
    s.start(1, 1).unwrap();
    s.task_finished(1, Some(Reason::ProtocolError), 2);
    assert_eq!(state_of(&s, 1), State::Failed);
    assert_eq!(s.start(1, 3), Err(ErrorCode::TaskStateErr));
}

#[test]
fn running_queue_is_the_admission_set() {
    let mut s = scheduler();
    for id in 1..=12 {
        s.construct(new_task(id, 10 + (id as u64 % 4)), id as u64).unwrap();
    }
    for id in 1..=12 {
        s.start(id, 100).unwrap();
    }
    let set = admitted(&mut s, 200);
    assert_eq!(set.len(), 8);
    assert_eq!(running(&s), set);
    for id in 1..=12u32 {
        let runs = s.is_running(id);
        assert_eq!(runs, set.contains(&id));
        assert_eq!(state_of(&s, id), if runs { State::Running } else { State::Waiting });
    }
    // the oldest tasks go first
    assert_eq!(set, vec![1, 2, 3, 4, 5, 6, 7, 8]);

    s.on_rss_change(7);
    let set = admitted(&mut s, 300);
    assert_eq!(set, vec![1, 2]);
    assert_eq!(running(&s), set);
    assert_eq!(state_of(&s, 3), State::Waiting);
    assert_eq!(s.show(3).unwrap().reason, Reason::RunningTaskMeetLimits);

    s.pause(1, 400).unwrap();
    assert!(!s.is_running(1));
    let set = admitted(&mut s, 500);
    assert_eq!(set, vec![2, 3]);
    assert_eq!(running(&s), set);

    s.on_network_change(NetworkState::Offline);
    let set = admitted(&mut s, 600);
    assert!(set.is_empty());
    assert!(running(&s).is_empty());
}

#[test]
fn at_most_five_tasks_of_one_application() {
    let mut s = scheduler();
    for id in 1..=7 {
        s.construct(new_task(id, 10), id as u64).unwrap();
        s.start(id, 50).unwrap();
    }
    s.construct(new_task(8, 11), 8).unwrap();
    s.start(8, 50).unwrap();
    assert_eq!(admitted(&mut s, 60), vec![1, 2, 3, 4, 5, 8]);
}

#[test]
fn uploads_and_downloads_are_chosen_apart() {
    let mut s = scheduler();
    for id in 1..=10 {
        let mut t = new_task(id, id as u64);
        t.qos.action = Action::Download;
        s.construct(t, id as u64).unwrap();
        s.start(id, 50).unwrap();
    }
    for id in 11..=20 {
        let mut t = new_task(id, id as u64);
        t.qos.action = Action::Upload;
        s.construct(t, id as u64).unwrap();
        s.start(id, 50).unwrap();
    }
    let r = s.reschedule(60);
    assert_eq!(r.download.running, vec![1, 2, 3, 4, 5, 6, 7, 8]);
    assert_eq!(r.upload.running, vec![11, 12, 13, 14, 15, 16, 17, 18]);
    assert_eq!(s.running_tasks().len(), 16);
}

#[test]
fn foreground_goes_first_and_above_the_cap() {
    let mut s = Scheduler::new(wifi(), 99, 7);
    for id in 1..=3 {
        s.construct(new_task(id, 10 + id as u64), id as u64).unwrap();
        s.start(id, 50).unwrap();
    }
    for id in 4..=8 {
        let mut t = new_task(id, 99);
        t.qos.mode = Mode::FrontEnd;
        s.construct(t, 100 + id as u64).unwrap();
        s.start(id, 150).unwrap();
    }
    let r = s.reschedule(200);
    assert_eq!(r.download.running, vec![4, 5, 6, 7]);
    assert_eq!(
        r.download.order.iter().map(|e| e.task_id).collect::<Vec<_>>(),
        vec![4, 5, 6, 7, 8, 1, 2, 3]
    );
}

#[test]
fn background_demotion() {
    let uid = 20010044u64;
    let mut s = Scheduler::new(wifi(), uid, 0);
    let mut t = new_task(1, uid);
    t.qos.mode = Mode::FrontEnd;
    s.construct(t, 0).unwrap();
    s.start(1, 1).unwrap();
    assert_eq!(admitted(&mut s, 2), vec![1]);
    assert_eq!(state_of(&s, 1), State::Running);

    // the application leaves the front
    assert!(s.on_app_state_change(500));
    // while it is spared, the task runs on
    assert_eq!(admitted(&mut s, 3), vec![1]);
    assert_eq!(state_of(&s, 1), State::Running);
    // sixty seconds later
    assert_eq!(s.on_background_timeout(uid, 60_003), 1);
    assert_eq!(state_of(&s, 1), State::Paused);
    assert_eq!(s.show(1).unwrap().reason, Reason::AppBackgroundOrTerminate);
    assert!(!s.is_running(1));

    assert_eq!(s.resume(1, 60_004), Err(ErrorCode::TaskStateErr));
    assert_eq!(state_of(&s, 1), State::Paused);
    s.on_app_state_change(uid);
    assert_eq!(s.resume(1, 60_005), Ok(()));
    assert_eq!(state_of(&s, 1), State::Waiting);
    assert_eq!(admitted(&mut s, 60_006), vec![1]);
    assert_eq!(state_of(&s, 1), State::Running);
}

#[test]
fn application_that_comes_back_keeps_its_tasks() {
    let uid = 7u64;
    let mut s = Scheduler::new(wifi(), uid, 0);
    let mut t = new_task(1, uid);
    t.qos.mode = Mode::FrontEnd;
    s.construct(t, 0).unwrap();
    s.start(1, 1).unwrap();
    s.reschedule(2);
    s.on_app_state_change(8);
    s.on_app_state_change(uid);
    assert_eq!(s.on_background_timeout(uid, 60_000), 0);
    assert_eq!(admitted(&mut s, 60_001), vec![1]);
    assert_eq!(state_of(&s, 1), State::Running);
}

#[test]
fn foreground_upload_fails_when_the_grace_is_over() {
    let mut s = Scheduler::new(wifi(), 7, 0);
    let mut t = new_task(1, 7);
    t.qos.mode = Mode::FrontEnd;
    t.qos.action = Action::Upload;
    s.construct(t, 0).unwrap();
    s.construct(new_task(2, 7), 0).unwrap();
    s.start(1, 1).unwrap();
    s.start(2, 1).unwrap();
    s.reschedule(2);
    s.on_app_state_change(8);
    assert_eq!(s.on_background_timeout(7, 100), 1);
    assert_eq!(state_of(&s, 1), State::Failed);
    assert_eq!(state_of(&s, 2), State::Running);
}

#[test]
fn started_task_waits_for_the_right_reason() {
    let mut s = Scheduler::new(NetworkState::Offline, 1, 0);
    s.construct(new_task(1, 10), 0).unwrap();
    s.start(1, 1).unwrap();
    assert_eq!(s.show(1).unwrap().reason, Reason::NetworkOffline);

    let mut s = Scheduler::new(
        NetworkState::Online(NetworkInfo {
            network_type: NetworkType::Cellular,
            is_metered: true,
            is_roaming: false,
        }),
        1,
        0,
    );
    let mut t = new_task(1, 10);
    t.qos.network = NetworkConfig::Wifi;
    s.construct(t, 0).unwrap();
    s.start(1, 1).unwrap();
    assert_eq!(s.show(1).unwrap().reason, Reason::UnsupportedNetworkType);
    assert!(admitted(&mut s, 2).is_empty());

    let mut t = new_task(2, 10);
    t.qos.mode = Mode::FrontEnd;
    s.construct(t, 0).unwrap();
    s.start(2, 1).unwrap();
    assert_eq!(s.show(2).unwrap().reason, Reason::AppBackgroundOrTerminate);

    s.construct(new_task(3, 10), 0).unwrap();
    s.start(3, 1).unwrap();
    assert_eq!(s.show(3).unwrap().reason, Reason::RunningTaskMeetLimits);
    assert_eq!(admitted(&mut s, 2), vec![3]);
}

#[test]
fn one_reschedule_is_pending_at_a_time() {
    let mut s = scheduler();
    s.construct(new_task(1, 10), 0).unwrap();
    s.construct(new_task(2, 10), 0).unwrap();
    s.start(1, 1).unwrap();
    s.start(2, 1).unwrap();
    let events = s.take_events();
    let asked = events.iter().filter(|e| **e == SchedulerEvent::Reschedule).count();
    assert_eq!(asked, 1);
    assert!(s.take_events().is_empty());
    s.reschedule(2);
    s.on_rss_change(5);
    s.on_rss_change(5);
    s.on_network_change(wifi());
    let events = s.take_events();
    let asked = events.iter().filter(|e| **e == SchedulerEvent::Reschedule).count();
    assert_eq!(asked, 1);
}

#[test]
fn every_change_is_told_once() {
    let mut s = scheduler();
    s.construct(new_task(1, 10), 0).unwrap();
    assert!(s.take_events().is_empty());
    s.start(1, 1).unwrap();
    s.reschedule(2);
    s.pause(1, 3).unwrap();
    s.pause(1, 4).unwrap_err();
    let events = s.take_events();
    let told: Vec<State> = events
        .iter()
        .filter_map(|e| match e {
            SchedulerEvent::StateChanged { task_id: 1, state, .. } => Some(*state),
            _ => None,
        })
        .collect();
    assert_eq!(told, vec![State::Waiting, State::Running, State::Paused]);
    assert!(events.contains(&SchedulerEvent::Start { task_id: 1 }));
    assert!(events.contains(&SchedulerEvent::Cancel { task_id: 1 }));
}

#[test]
fn tasks_older_than_a_month_are_stopped() {
    let mut s = scheduler();
    s.construct(new_task(1, 10), 0).unwrap();
    s.construct(new_task(2, 10), 1000).unwrap();
    s.construct(new_task(3, 10), 0).unwrap();
    s.start(1, 1).unwrap();
    s.start(2, 1001).unwrap();
    s.pause(3, 1).unwrap();
    s.reschedule(1002);
    assert_eq!(s.clear_timeout_tasks(MILLISECONDS_IN_ONE_MONTH), 0);
    assert_eq!(s.clear_timeout_tasks(MILLISECONDS_IN_ONE_MONTH + 1), 1);
    assert_eq!(state_of(&s, 1), State::Stopped);
    assert_eq!(s.show(1).unwrap().reason, Reason::TaskSurvivalOneMonth);
    assert_eq!(state_of(&s, 2), State::Running);
    // a task that does not run is left alone
    assert_eq!(state_of(&s, 3), State::Paused);
    assert!(!s.is_running(1));
    assert!(is_timed_out(0, MILLISECONDS_IN_ONE_MONTH + 1));
    assert!(!is_timed_out(5, 4));
}

#[test]
fn task_that_was_made_may_run_without_a_start() {
    let mut s = scheduler();
    s.construct(new_task(1, 10), 0).unwrap();
    assert_eq!(admitted(&mut s, 1), vec![1]);
    assert_eq!(state_of(&s, 1), State::Running);
}

#[test]
fn queue_reports_what_to_start_and_cancel() {
    let mut q = RunningQueue::new();
    let c = q.reschedule(&vec![3, 1, 3, 2]);
    assert_eq!(c.start, vec![3, 1, 2]);
    assert!(c.cancel.is_empty());
    assert_eq!(q.tasks(), &vec![3, 1, 2]);
    let c = q.reschedule(&vec![2, 4]);
    assert_eq!(c.start, vec![4]);
    assert_eq!(c.cancel, vec![3, 1]);
    assert_eq!(q.running_tasks(), 2);
    assert!(q.task_finish(2));
    assert!(!q.task_finish(2));
    assert!(!q.contains(2));
    assert!(q.try_restart(2, true));
    assert!(!q.try_restart(2, true));
    assert!(!q.try_restart(9, false));
    assert_eq!(q.tasks(), &vec![4, 2]);
}

#[test]
fn order_of_claims() {
    let base = entry(5, 1);
    let mut front = entry(9, 1);
    front.mode = Mode::FrontEnd;
    front.priority = 100;
    front.ctime = 999;
    assert!(comes_before(&front, &base));
    assert!(!comes_before(&base, &front));
    let mut urgent = entry(9, 1);
    urgent.priority = 0;
    let mut lazy = entry(1, 1);
    lazy.priority = 1;
    lazy.ctime = 0;
    assert!(comes_before(&urgent, &lazy));
    let mut older = entry(9, 1);
    older.ctime = 99;
    assert!(comes_before(&older, &base));
    let twin = entry(4, 1);
    assert!(comes_before(&twin, &base));
    assert!(!comes_before(&base, &base));

    let sorted = sort_by_claim(&vec![base, front, lazy, older, twin]);
    assert_eq!(
        sorted.iter().map(|e| (e.task_id, e.ctime)).collect::<Vec<_>>(),
        vec![(9, 999), (9, 99), (4, 100), (5, 100), (1, 0)]
    );
}

fn front(top_uid: u64) -> Front {
    Front { top_uid, graced: Vec::new() }
}

#[test]
fn who_may_run() {
    let net = wifi();
    let mut e = entry(1, 10);
    assert!(is_eligible(&e, &net, &front(1)));
    e.state = State::Paused;
    assert!(!is_eligible(&e, &net, &front(1)));
    e.state = State::Initialized;
    assert!(is_eligible(&e, &net, &front(1)));
    assert!(!is_eligible(&e, &NetworkState::Offline, &front(1)));
    e.mode = Mode::FrontEnd;
    assert!(!is_eligible(&e, &net, &front(1)));
    assert!(is_eligible(&e, &net, &front(10)));
    // an application whose time of grace has not ended counts as in front
    assert!(is_eligible(&e, &net, &Front { top_uid: 1, graced: vec![3, 10] }));
    assert!(!is_eligible(&e, &net, &Front { top_uid: 1, graced: vec![3] }));
    let picked =
        collect_candidates(&vec![entry(1, 1), e, entry(3, 1)], &net, &front(1), Action::Download);
    assert_eq!(picked.iter().map(|e| e.task_id).collect::<Vec<_>>(), vec![1, 3]);
    assert!(collect_candidates(&vec![entry(1, 1)], &net, &front(1), Action::Upload).is_empty());
    assert_eq!(remove_uid(&vec![1, 2, 1, 3], 1), vec![2, 3]);
    assert!(holds_uid(&vec![1, 2], 2) && !holds_uid(&vec![1, 2], 3));
}

#[test]
fn foreground_task_runs_on_through_the_time_of_grace() {
    let mut s = Scheduler::new(wifi(), 7, 0);
    let mut t = new_task(1, 7);
    t.qos.mode = Mode::FrontEnd;
    s.construct(t, 0).unwrap();
    s.start(1, 1).unwrap();
    s.reschedule(2);
    assert!(s.is_running(1));
    // the application leaves the front: its task runs on
    assert!(s.on_app_state_change(8));
    s.reschedule(3);
    assert!(s.is_running(1));
    assert_eq!(state_of(&s, 1), State::Running);
    // the grace ends
    assert_eq!(s.on_background_timeout(7, 60_003), 1);
    s.reschedule(60_004);
    assert!(!s.is_running(1));
    assert_eq!(state_of(&s, 1), State::Paused);
    assert_eq!(s.show(1).unwrap().reason, Reason::AppBackgroundOrTerminate);

    // an application that comes back in time keeps its task running
    let mut s = Scheduler::new(wifi(), 7, 0);
    let mut t = new_task(2, 7);
    t.qos.mode = Mode::FrontEnd;
    s.construct(t, 0).unwrap();
    s.start(2, 1).unwrap();
    s.reschedule(2);
    s.on_app_state_change(8);
    s.reschedule(3);
    s.on_app_state_change(7);
    s.reschedule(4);
    assert_eq!(s.on_background_timeout(7, 60_003), 0);
    s.reschedule(60_004);
    assert!(s.is_running(2));
    // the other application has had its grace too
    assert_eq!(s.on_background_timeout(8, 60_010), 0);
}

#[test]
fn transfer_that_waits_for_the_network() {
    let mut s = scheduler();
    s.construct(new_task(1, 10), 0).unwrap();
    s.start(1, 1).unwrap();
    s.reschedule(2);
    assert!(s.is_running(1));
    s.take_events();
    s.task_offline(1, 3);
    assert!(!s.is_running(1));
    assert_eq!(state_of(&s, 1), State::Waiting);
    assert_eq!(s.show(1).unwrap().reason, Reason::NetworkOffline);
    assert_eq!(s.show(1).unwrap().mtime, 3);
    assert_eq!(
        s.take_events(),
        vec![
            SchedulerEvent::StateChanged {
                task_id: 1,
                state: State::Waiting,
                reason: Reason::NetworkOffline
            },
            SchedulerEvent::Reschedule,
        ]
    );
    // a task that is not recorded as running is only taken from the queue
    s.pause(1, 4).unwrap();
    s.take_events();
    s.task_offline(1, 5);
    assert_eq!(state_of(&s, 1), State::Paused);
    assert!(s.take_events().is_empty());
    s.task_offline(99, 5);
}

#[test]
fn counts_of_the_sweeps() {
    let mut s = scheduler();
    s.construct(new_task(1, 10), 0).unwrap();
    s.construct(new_task(2, 10), 0).unwrap();
    s.start(1, 1).unwrap();
    s.start(2, 1).unwrap();
    s.reschedule(2);
    s.take_events();
    let late = MILLISECONDS_IN_ONE_MONTH + 1;
    assert_eq!(s.clear_timeout_tasks(late), 2);
    let events = s.take_events();
    assert_eq!(events.len(), 5);
    assert_eq!(events[4], SchedulerEvent::Reschedule);
    assert_eq!(state_of(&s, 1), State::Stopped);
    assert_eq!(s.clear_timeout_tasks(late), 0);
    assert!(s.take_events().is_empty());
}

#[test]
fn caps_follow_the_memory() {
    assert_eq!(capacity_for_level(0), QosCapacity { total: 8, per_app: 5, foreground: 16 });
    assert_eq!(capacity_for_level(3), QosCapacity { total: 8, per_app: 5, foreground: 16 });
    assert_eq!(capacity_for_level(4), QosCapacity { total: 4, per_app: 5, foreground: 8 });
    assert_eq!(capacity_for_level(6), QosCapacity { total: 4, per_app: 5, foreground: 8 });
    assert_eq!(capacity_for_level(7), QosCapacity { total: 2, per_app: 5, foreground: 4 });
    assert_eq!(capacity_for_level(-1), capacity_for_level(0));
    assert_eq!(capacity_for_level(100), capacity_for_level(7));
    let entries: Vec<TaskQosInfo> = (0..10).map(|i| entry(i, i as u64)).collect();
    let caps = QosCapacity { total: 3, per_app: 1, foreground: 3 };
    assert_eq!(admit_in_order(&entries, &caps), vec![0, 1, 2]);
    let same_app: Vec<TaskQosInfo> = (0..10).map(|i| entry(i, 1)).collect();
    assert_eq!(admit_in_order(&same_app, &caps), vec![0]);
    let a = reschedule_action(&entries, &wifi(), &front(1), &caps, Action::Download);
    assert_eq!(a.running, vec![0, 1, 2]);
    assert_eq!(a.order.len(), 10);
}

#[test]
fn task_that_must_wait_is_told_why() {
    // the network goes away
    let mut s = scheduler();
    s.construct(new_task(1, 10), 0).unwrap();
    s.start(1, 1).unwrap();
    s.reschedule(2);
    assert_eq!(state_of(&s, 1), State::Running);
    s.take_events();
    assert!(s.on_network_change(NetworkState::Offline));
    s.reschedule(3);
    assert_eq!(state_of(&s, 1), State::Waiting);
    assert_eq!(s.show(1).unwrap().reason, Reason::NetworkOffline);
    assert!(s.take_events().contains(&SchedulerEvent::StateChanged {
        task_id: 1,
        state: State::Waiting,
        reason: Reason::NetworkOffline
    }));

    // the network no longer fits
    let mut s = scheduler();
    let mut t = new_task(2, 10);
    t.qos.network = NetworkConfig::Wifi;
    s.construct(t, 0).unwrap();
    s.start(2, 1).unwrap();
    s.reschedule(2);
    assert_eq!(state_of(&s, 2), State::Running);
    s.on_network_change(NetworkState::Online(NetworkInfo {
        network_type: NetworkType::Cellular,
        is_metered: false,
        is_roaming: false,
    }));
    s.reschedule(3);
    assert_eq!(state_of(&s, 2), State::Waiting);
    assert_eq!(s.show(2).unwrap().reason, Reason::UnsupportedNetworkType);

    // memory gets short: the tasks beyond the limit wait for a place
    let mut s = scheduler();
    for id in 1..=8u32 {
        s.construct(new_task(id, 100 + id as u64), id as u64).unwrap();
        s.start(id, 10).unwrap();
    }
    s.reschedule(20);
    let running = (1..=8u32).filter(|id| state_of(&s, *id) == State::Running).count();
    s.on_rss_change(7);
    s.reschedule(30);
    let still = (1..=8u32).filter(|id| state_of(&s, *id) == State::Running).count();
    assert!(still < running);
    for id in 1..=8u32 {
        if state_of(&s, id) == State::Waiting {
            assert_eq!(s.show(id).unwrap().reason, Reason::RunningTaskMeetLimits);
        }
    }
}
