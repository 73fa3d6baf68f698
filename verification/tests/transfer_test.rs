use request_service::config::{Action, ConfigBuilder, FileSpec, FormItem, Mode, TaskConfig, Version};
use request_service::download::{
    check_file_exist, check_response_status, check_whole_resource, classify_request_error,
    collect_extras, handle_download_error, needs_network_retry, network_retry, AttemptNext,
    ErrorKind, FileProbe, HttpError,
};
use request_service::error::ErrorCode;
use request_service::info::State;
use request_service::progress::{checked_sum, Progress};
use request_service::reason::Reason;
use request_service::request_task::{
    check_file_specs, check_transition, choose_method, get_each_file_status_by_code,
    handle_body_transfer_error, mark_codes, plan_download_request, range_request,
    request_method, set_code, sum_sizes, support_range, RequestTask, TaskError, TaskPhase,
    TaskStatus,
};
use request_service::strmap::StringMap;
use request_service::upload::{
    build_form_parts, build_stream_headers, classify_upload_error, is_multipart,
    upload_needs_network_retry, upload_seek_position, TaskReader,
};

const FILE_LEN: usize = 1_042_003;

fn download_config() -> TaskConfig {
    ConfigBuilder::new()
        .action(Action::Download)
        .mode(Mode::BackGround)
        .file_spec(3)
        .url("https://www.example.com/test.txt")
        .redirect(true)
        .build()
}

fn download_task(config: TaskConfig) -> RequestTask {
    RequestTask::new(config, vec![-1], 1000)
}

fn error(kind: ErrorKind, message: &str) -> HttpError {
    HttpError { kind, is_dns: false, is_tls: false, message: message.to_string() }
}

#[test]
fn basic_download() {
    let mut task = download_task(download_config());
    assert_eq!(task.status.state, State::Initialized);
    assert_eq!(task.file_total_size, -1);

    task.prepare_download(0);
    let plan = plan_download_request(0, 0, -1, task.progress.extras()).unwrap();
    assert!(plan.range.is_none());
    assert!(plan.if_range.is_none());
    assert!(!plan.clear_file);
    assert_eq!(request_method(&task.conf), "GET");

    assert!(!task.prepare_running(1001));
    assert_eq!(task.status.state, State::Running);
    assert_eq!(task.on_download_response(200, 0), Ok(false));
    task.get_file_info(Some("text/plain".to_string()), Some("1042003".to_string())).unwrap();
    assert_eq!(task.mime_type, "text/plain");
    assert_eq!(task.file_total_size, 1_042_003);
    assert_eq!(task.progress.sizes(), &vec![1_042_003]);

    assert!(task.progress.add_processed(0, 1_000_000));
    assert!(task.progress.add_processed(0, 42_003));
    task.finish_download();
    assert_eq!(check_file_exist(false, FileProbe::RegularFile), Ok(()));
    match task.after_attempt(Ok(()), 3) {
        AttemptNext::Done(Some(Ok(()))) => {}
        other => panic!("unexpected {:?}", other),
    }
    assert_eq!(task.change_task_status(State::Completed, Reason::Default, 2000), ErrorCode::ErrOk);
    assert_eq!(task.status.state, State::Completed);
    assert_eq!(task.status.reason, Reason::Default);
    assert_eq!(task.progress.processed(), &vec![FILE_LEN]);
    assert_eq!(task.progress.sizes(), &vec![FILE_LEN as i64]);
    assert_eq!(task.progress.total_processed(), FILE_LEN);
    assert!(task.progress.is_finish());
}

#[test]
fn resumed_download() {
    let mut task = download_task(download_config());
    let mut extras = StringMap::new();
    extras.insert("etag".to_string(), "\"abc\"".to_string());
    task.progress.set_extras(extras);

    task.prepare_download(1_032_003);
    assert_eq!(task.progress.total_processed(), 1_032_003);
    let plan = plan_download_request(1_032_003, 0, -1, task.progress.extras()).unwrap();
    assert_eq!(plan.range.as_deref(), Some("bytes=1032003-"));
    assert_eq!(plan.if_range.as_deref(), Some("\"abc\""));
    assert!(!plan.clear_file);

    task.prepare_running(1);
    assert_eq!(task.on_download_response(206, 1_032_003), Ok(false));
    task.get_file_info(None, Some("10000".to_string())).unwrap();
    assert_eq!(task.progress.sizes(), &vec![1_042_003]);
    assert!(task.progress.add_processed(0, 10_000));
    task.finish_download();
    assert_eq!(task.progress.total_processed(), FILE_LEN);
    assert_eq!(task.progress.total_processed() - 1_032_003, 10_000);
    assert!(task.progress.is_finish());
}

#[test]
fn resume_with_last_modified() {
    let mut extras = StringMap::new();
    extras.insert("last-modified".to_string(), "Mon, 01 Jan 2024".to_string());
    assert_eq!(support_range(&extras).as_deref(), Some("Mon, 01 Jan 2024"));
    extras.insert("etag".to_string(), "e".to_string());
    assert_eq!(support_range(&extras).as_deref(), Some("e"));
    let plan = plan_download_request(10, 5, 99, &extras).unwrap();
    assert_eq!(plan.range.as_deref(), Some("bytes=15-99"));
    assert_eq!(plan.if_range.as_deref(), Some("e"));
}

#[test]
fn resume_without_validator_starts_over() {
    let extras = StringMap::new();
    let plan = plan_download_request(10_000, 0, -1, &extras).unwrap();
    assert!(plan.range.is_none());
    assert!(plan.if_range.is_none());
    assert!(plan.clear_file);

    let mut task = download_task(download_config());
    task.prepare_download(10_000);
    task.progress.clear_downloaded();
    assert_eq!(task.progress.total_processed(), 0);
    assert_eq!(task.progress.processed(), &vec![0]);
}

#[test]
fn range_unsupported_on_resume() {
    let config = ConfigBuilder::new()
        .action(Action::Download)
        .file_spec(3)
        .url("https://www.example.com/test.txt")
        .begins(5000)
        .build();
    let mut task = download_task(config);
    task.prepare_download(1000);
    let r = plan_download_request(1000, 5000, -1, task.progress.extras());
    assert_eq!(r.err(), Some(TaskError::Failed(Reason::UnsupportedRangeRequest)));
    task.prepare_running(5);
    match task.after_attempt(Err(TaskError::Failed(Reason::UnsupportedRangeRequest)), 0) {
        AttemptNext::Done(Some(Err(Reason::UnsupportedRangeRequest))) => {}
        other => panic!("unexpected {:?}", other),
    }
    assert_eq!(
        task.change_task_status(State::Failed, Reason::UnsupportedRangeRequest, 9),
        ErrorCode::ErrOk
    );
    assert_eq!(task.status.state, State::Failed);
    assert_eq!(task.status.reason, Reason::UnsupportedRangeRequest);
    // nothing was written: the file keeps its thousand bytes
    assert_eq!(task.progress.processed(), &vec![1000]);
}

#[test]
fn range_ignored_by_the_server() {
    let config = ConfigBuilder::new()
        .action(Action::Download)
        .file_spec(3)
        .url("https://www.example.com/test.txt")
        .begins(5000)
        .build();
    let mut task = download_task(config);
    assert!(task.require_range());
    task.prepare_download(0);
    let plan = plan_download_request(0, 5000, -1, task.progress.extras()).unwrap();
    assert_eq!(plan.range.as_deref(), Some("bytes=5000-"));
    assert_eq!(
        task.on_download_response(200, 0),
        Err(TaskError::Failed(Reason::UnsupportedRangeRequest))
    );
    assert_eq!(task.on_download_response(206, 0), Ok(false));
}

#[test]
fn range_with_both_ends() {
    assert_eq!(range_request(5000, 10000), "bytes=5000-10000");
    assert_eq!(range_request(0, 0), "bytes=0-0");
    assert_eq!(range_request(273619168, -1), "bytes=273619168-");
    let extras = StringMap::new();
    let plan = plan_download_request(0, 5000, 10000, &extras).unwrap();
    assert_eq!(plan.range.as_deref(), Some("bytes=5000-10000"));
    let plan = plan_download_request(0, 0, 10, &extras).unwrap();
    assert_eq!(plan.range.as_deref(), Some("bytes=0-10"));
}

#[test]
fn whole_resource_over_a_held_file() {
    assert_eq!(check_whole_resource(200, false, 10), Ok(true));
    assert_eq!(check_whole_resource(200, false, 0), Ok(false));
    assert_eq!(check_whole_resource(206, true, 10), Ok(false));
    assert_eq!(
        check_whole_resource(200, true, 0),
        Err(TaskError::Failed(Reason::UnsupportedRangeRequest))
    );
}

#[test]
fn retry_after_408() {
    let mut task = download_task(download_config());
    task.prepare_download(0);
    task.prepare_running(1);

    let first = task.on_download_response(408, 0);
    assert_eq!(first, Err(TaskError::Waiting(TaskPhase::NeedRetry)));
    match task.after_attempt(first.map(|_| ()), 1) {
        AttemptNext::Retry(_) => {}
        other => panic!("unexpected {:?}", other),
    }
    let second = task.on_download_response(408, 0);
    assert_eq!(second, Err(TaskError::Waiting(TaskPhase::NeedRetry)));
    match task.after_attempt(second.map(|_| ()), 1) {
        AttemptNext::Retry(_) => {}
        other => panic!("unexpected {:?}", other),
    }
    assert_eq!(task.timeout_tries, 2);
    assert_eq!(task.tries, 2);

    assert_eq!(task.on_download_response(200, 0), Ok(false));
    assert_eq!(task.timeout_tries, 0);
    assert_eq!(task.tries, 2);
    task.get_file_info(None, Some("5".to_string())).unwrap();
    assert!(task.progress.add_processed(0, 5));
    task.finish_download();
    assert_eq!(task.change_task_status(State::Completed, Reason::Default, 2), ErrorCode::ErrOk);
    assert_eq!(task.status.state, State::Completed);
    assert_eq!(task.status.reason, Reason::Default);
}

#[test]
fn third_408_is_a_protocol_error() {
    let mut tries = 0u32;
    assert_eq!(
        check_response_status(408, &mut tries),
        Err(TaskError::Waiting(TaskPhase::NeedRetry))
    );
    assert_eq!(
        check_response_status(408, &mut tries),
        Err(TaskError::Waiting(TaskPhase::NeedRetry))
    );
    assert_eq!(tries, 2);
    assert_eq!(
        check_response_status(408, &mut tries),
        Err(TaskError::Failed(Reason::ProtocolError))
    );
    assert_eq!(tries, 2);
}

#[test]
fn status_classes() {
    for status in [300u16, 302, 399, 400, 404, 407, 409, 499, 500, 503, 599] {
        let mut tries = 1u32;
        assert_eq!(
            check_response_status(status, &mut tries),
            Err(TaskError::Failed(Reason::ProtocolError)),
            "status {}",
            status
        );
        assert_eq!(tries, 1);
    }
    for status in [100u16, 200, 201, 204, 206, 299, 600] {
        let mut tries = 1u32;
        assert_eq!(check_response_status(status, &mut tries), Ok(()), "status {}", status);
        assert_eq!(tries, 0);
    }
}

#[test]
fn remaining_time_shrinks_with_each_retry() {
    let mut config = download_config();
    config.common_data.timeout.total_timeout = 100;
    let mut task = download_task(config);
    match task.after_attempt(Err(TaskError::Waiting(TaskPhase::NeedRetry)), 30) {
        AttemptNext::Retry(70) => {}
        other => panic!("unexpected {:?}", other),
    }
    match task.after_attempt(Err(TaskError::Waiting(TaskPhase::NeedRetry)), 90) {
        AttemptNext::Retry(0) => {}
        other => panic!("unexpected {:?}", other),
    }
    match task.after_attempt(Err(TaskError::Waiting(TaskPhase::UserAbort)), 1) {
        AttemptNext::Done(None) => {}
        other => panic!("unexpected {:?}", other),
    }
    match task.after_attempt(Err(TaskError::Waiting(TaskPhase::NetworkOffline)), 1) {
        AttemptNext::Offline => {}
        other => panic!("unexpected {:?}", other),
    }
}

#[test]
fn size_unknown_and_precise() {
    let mut config = download_config();
    config.common_data.precise = true;
    let mut task = download_task(config);
    task.prepare_download(0);
    assert_eq!(
        task.get_file_info(None, None),
        Err(TaskError::Failed(Reason::GetFileSizeFailed))
    );
    let mut lax = download_task(download_config());
    lax.prepare_download(0);
    assert_eq!(lax.get_file_info(None, None), Ok(()));
    assert_eq!(lax.progress.sizes(), &vec![-1]);
    // a length that is no number is passed over
    assert_eq!(lax.get_file_info(None, Some("many".to_string())), Ok(()));
    assert_eq!(lax.progress.sizes(), &vec![-1]);
}

#[test]
fn invalid_progress_is_reset_by_prepare() {
    let mut task = RequestTask::new(download_config(), vec![0, 1, 2, 3], 1);
    task.progress.set_state(State::Failed);
    task.prepare_download(0);
    assert_eq!(task.progress.sizes(), &vec![-1]);
    assert_eq!(task.progress.index(), 0);
    assert_eq!(task.progress.total_processed(), 0);
    assert_eq!(task.progress.state(), State::Running);
}

#[test]
fn request_errors() {
    assert_eq!(classify_request_error(&error(ErrorKind::Timeout, "")), Reason::ContinuousTaskTimeout);
    assert_eq!(classify_request_error(&error(ErrorKind::Request, "")), Reason::RequestError);
    assert_eq!(classify_request_error(&error(ErrorKind::Redirect, "")), Reason::RedirectError);
    assert_eq!(classify_request_error(&error(ErrorKind::Connect, "")), Reason::Tcp);
    let mut dns = error(ErrorKind::Connect, "");
    dns.is_dns = true;
    dns.is_tls = true;
    assert_eq!(classify_request_error(&dns), Reason::Dns);
    let mut tls = error(ErrorKind::ConnectionUpgrade, "");
    tls.is_tls = true;
    assert_eq!(classify_request_error(&tls), Reason::Ssl);
    assert_eq!(classify_request_error(&error(ErrorKind::BodyTransfer, "")), Reason::OthersError);
    assert_eq!(
        classify_request_error(&error(ErrorKind::Other, "No space left on device")),
        Reason::InsufficientSpace
    );
    assert_eq!(classify_request_error(&error(ErrorKind::Build, "x")), Reason::OthersError);
    assert!(needs_network_retry(ErrorKind::Connect));
    assert!(needs_network_retry(ErrorKind::ConnectionUpgrade));
    assert!(needs_network_retry(ErrorKind::BodyTransfer));
    assert!(!needs_network_retry(ErrorKind::Timeout));
}

#[test]
fn body_errors() {
    let v = Version::API10;
    let a = Action::Download;
    assert_eq!(
        handle_download_error(&error(ErrorKind::Timeout, ""), true, v, a, Mode::BackGround, true),
        TaskError::Failed(Reason::ContinuousTaskTimeout)
    );
    assert_eq!(
        handle_download_error(&error(ErrorKind::UserAborted, ""), true, v, a, Mode::BackGround, true),
        TaskError::Waiting(TaskPhase::UserAbort)
    );
    assert_eq!(
        handle_download_error(&error(ErrorKind::BodyDecode, ""), true, v, a, Mode::BackGround, true),
        TaskError::Failed(Reason::OthersError)
    );
    assert_eq!(
        handle_download_error(&error(ErrorKind::BodyTransfer, ""), false, v, a, Mode::BackGround, true),
        TaskError::Waiting(TaskPhase::NetworkOffline)
    );
    assert_eq!(
        handle_download_error(
            &error(ErrorKind::Other, "io: No space left on device"),
            true,
            v,
            a,
            Mode::BackGround,
            true
        ),
        TaskError::Failed(Reason::InsufficientSpace)
    );
}

#[test]
fn offline_policy() {
    let (new, old) = (Version::API10, Version::API9);
    assert_eq!(
        handle_body_transfer_error(true, new, Action::Download, Mode::BackGround, true),
        TaskError::Failed(Reason::OthersError)
    );
    assert_eq!(
        handle_body_transfer_error(false, new, Action::Download, Mode::BackGround, true),
        TaskError::Waiting(TaskPhase::NetworkOffline)
    );
    assert_eq!(
        handle_body_transfer_error(false, new, Action::Download, Mode::FrontEnd, true),
        TaskError::Failed(Reason::NetworkOffline)
    );
    assert_eq!(
        handle_body_transfer_error(false, new, Action::Upload, Mode::BackGround, false),
        TaskError::Failed(Reason::NetworkOffline)
    );
    assert_eq!(
        handle_body_transfer_error(false, old, Action::Upload, Mode::BackGround, true),
        TaskError::Failed(Reason::NetworkOffline)
    );
    assert_eq!(
        handle_body_transfer_error(false, old, Action::Download, Mode::FrontEnd, false),
        TaskError::Waiting(TaskPhase::NetworkOffline)
    );
}

#[test]
fn network_is_waited_for_four_times() {
    let mut tries = 0u32;
    for _ in 0..4 {
        assert_eq!(
            network_retry(&mut tries, true, Version::API10, Action::Download, Mode::BackGround, true),
            Err(TaskError::Waiting(TaskPhase::NeedRetry))
        );
    }
    assert_eq!(tries, 4);
    assert_eq!(
        network_retry(&mut tries, true, Version::API10, Action::Download, Mode::BackGround, true),
        Ok(())
    );
    let mut tries = 0u32;
    assert_eq!(
        network_retry(&mut tries, false, Version::API10, Action::Download, Mode::FrontEnd, true),
        Err(TaskError::Failed(Reason::NetworkOffline))
    );
    assert_eq!(tries, 1);
}

#[test]
fn finished_file_must_still_be_there() {
    assert_eq!(check_file_exist(true, FileProbe::NotFound), Ok(()));
    assert_eq!(check_file_exist(false, FileProbe::RegularFile), Ok(()));
    assert_eq!(check_file_exist(false, FileProbe::Unreadable), Ok(()));
    assert_eq!(check_file_exist(false, FileProbe::NotFound), Err(TaskError::Failed(Reason::IoError)));
    assert_eq!(check_file_exist(false, FileProbe::NotAFile), Err(TaskError::Failed(Reason::IoError)));
}

#[test]
fn header_names_become_lower_case() {
    let headers = vec![
        ("ETag".to_string(), "1".to_string()),
        ("Content-Length".to_string(), "10".to_string()),
        ("etag".to_string(), "2".to_string()),
    ];
    let extras = collect_extras(&headers);
    assert_eq!(extras.len(), 2);
    assert_eq!(extras.get("etag").unwrap(), "2");
    assert_eq!(extras.get("content-length").unwrap(), "10");
    assert!(extras.get("ETag").is_none());
}

#[test]
fn method_of_the_request() {
    assert_eq!(choose_method("PUT", Action::Download, Version::API10), "PUT");
    assert_eq!(choose_method("POST", Action::Download, Version::API10), "POST");
    assert_eq!(choose_method("GET", Action::Upload, Version::API10), "GET");
    assert_eq!(choose_method("DELETE", Action::Upload, Version::API10), "PUT");
    assert_eq!(choose_method("", Action::Upload, Version::API9), "POST");
    assert_eq!(choose_method("put", Action::Download, Version::API9), "GET");
    assert_eq!(choose_method("x", Action::Any, Version::API9), "");
    let config = ConfigBuilder::new().method("put").build();
    assert_eq!(request_method(&config), "PUT");
    let config = ConfigBuilder::new().method("patch").action(Action::Upload).version(1).build();
    assert_eq!(request_method(&config), "POST");
}

#[test]
fn files_must_lie_in_the_sandbox() {
    let file = |path: &str, user: bool| FileSpec {
        name: "f".to_string(),
        path: path.to_string(),
        file_name: "".to_string(),
        mime_type: "".to_string(),
        is_user_file: user,
        fd: None,
    };
    assert!(check_file_specs(&vec![]));
    assert!(check_file_specs(&vec![
        file("/data/storage/el1/base/a", false),
        file("/data/storage/el2/base/b", false),
        file("/etc/passwd", true),
    ]));
    assert!(!check_file_specs(&vec![
        file("/data/storage/el1/base/a", false),
        file("/data/storage/el3/base/b", false),
    ]));
    assert!(!check_file_specs(&vec![file("/etc/passwd", false)]));
}

#[test]
fn state_machine_of_a_task() {
    let table: [(State, &[State]); 9] = [
        (State::Initialized, &[State::Waiting, State::Running, State::Paused, State::Stopped, State::Removed, State::Failed]),
        (State::Waiting, &[State::Running, State::Retrying, State::Paused, State::Stopped, State::Removed, State::Failed]),
        (State::Running, &[State::Retrying, State::Waiting, State::Paused, State::Stopped, State::Removed, State::Completed, State::Failed]),
        (State::Retrying, &[State::Running, State::Waiting, State::Paused, State::Stopped, State::Removed, State::Completed, State::Failed]),
        (State::Paused, &[State::Waiting, State::Stopped, State::Removed]),
        (State::Stopped, &[State::Removed]),
        (State::Completed, &[State::Removed]),
        (State::Failed, &[State::Waiting, State::Removed]),
        (State::Removed, &[]),
    ];
    let all = [State::Initialized, State::Waiting, State::Running, State::Retrying, State::Paused, State::Stopped, State::Completed, State::Failed, State::Removed];
    for (from, allowed) in table.iter() {
        for to in all.iter() {
            assert_eq!(
                State::check_change(*from, *to),
                allowed.contains(to),
                "{:?} -> {:?}",
                from,
                to
            );
        }
    }
    assert!(check_transition(State::Failed, State::Waiting, Action::Download));
    assert!(!check_transition(State::Failed, State::Waiting, Action::Upload));
    assert!(check_transition(State::Failed, State::Removed, Action::Upload));
}

#[test]
fn state_numbers() {
    assert_eq!(State::Initialized.repr(), 0x00);
    assert_eq!(State::Waiting.repr(), 0x10);
    assert_eq!(State::Running.repr(), 0x20);
    assert_eq!(State::Retrying.repr(), 0x21);
    assert_eq!(State::Paused.repr(), 0x30);
    assert_eq!(State::Stopped.repr(), 0x31);
    assert_eq!(State::Completed.repr(), 0x40);
    assert_eq!(State::Failed.repr(), 0x41);
    assert_eq!(State::Removed.repr(), 0x50);
    assert_eq!(State::from_u8(0x41), State::Failed);
    assert_eq!(State::from_u8(0x42), State::Any);
    assert!(State::Failed.is_terminal());
    assert!(!State::Paused.is_terminal());
    assert!(State::Retrying.is_schedulable());
    assert!(!State::Paused.is_schedulable());
}

#[test]
fn reasons() {
    assert_eq!(Reason::from_u8(0), Reason::Default);
    assert_eq!(Reason::from_u8(4), Reason::RunningTaskMeetLimits);
    assert_eq!(Reason::from_u8(2), Reason::OthersError);
    assert_eq!(Reason::from_u8(20), Reason::OthersError);
    assert_eq!(Reason::from_u8(31), Reason::LowSpeed);
    assert_eq!(Reason::from_u8(32), Reason::OthersError);
    assert_eq!(Reason::LowSpeed.repr(), 31);
    assert_eq!(Reason::Dns.repr(), 23);
    assert_eq!(Reason::Default.to_str(), "");
    assert_eq!(Reason::UnsupportedRangeRequest.to_str(), "The server is not support range request");
    assert_eq!(Reason::NetworkOffline.to_str(), "NetWork is offline");
}

#[test]
fn status_change_marks_the_files() {
    let mut config = download_config();
    config.file_specs.push(FileSpec::user_file(4));
    config.file_specs.push(FileSpec::user_file(5));
    let mut task = RequestTask::new(config, vec![1, 2, 3], 10);
    assert_eq!(task.code.len(), 3);
    assert_eq!(task.change_task_status(State::Completed, Reason::Default, 11), ErrorCode::TaskStateErr);
    assert_eq!(task.status.state, State::Initialized);
    assert_eq!(task.status.mtime, 10);

    assert_eq!(task.change_task_status(State::Waiting, Reason::NetworkOffline, 12), ErrorCode::ErrOk);
    assert_eq!(task.status.waiting_network_time, Some(12));
    assert_eq!(task.status.mtime, 12);
    assert_eq!(task.progress.state(), State::Waiting);
    assert_eq!(task.code, vec![Reason::NetworkOffline, Reason::Default, Reason::Default]);

    assert_eq!(task.change_task_status(State::Failed, Reason::IoError, 13), ErrorCode::ErrOk);
    assert_eq!(task.code, vec![Reason::NetworkOffline, Reason::IoError, Reason::IoError]);
    assert_eq!(task.status.waiting_network_time, Some(12));
    let statuses = task.get_each_file_status();
    assert_eq!(statuses.len(), 3);
    assert_eq!(statuses[0].reason, Reason::NetworkOffline);
    assert_eq!(statuses[0].message, "NetWork is offline");
    assert_eq!(statuses[2].message, "Io Error");
}

#[test]
fn codes() {
    let mut codes = vec![Reason::Default, Reason::IoError];
    set_code(&mut codes, 5, Reason::Dns, true);
    assert_eq!(codes, vec![Reason::Default, Reason::IoError]);
    set_code(&mut codes, 1, Reason::Dns, false);
    assert_eq!(codes, vec![Reason::Default, Reason::IoError]);
    set_code(&mut codes, 1, Reason::Dns, true);
    assert_eq!(codes, vec![Reason::Default, Reason::Dns]);
    set_code(&mut codes, 0, Reason::Tcp, false);
    assert_eq!(codes, vec![Reason::Tcp, Reason::Dns]);
    let mut codes = vec![Reason::Default; 4];
    mark_codes(&mut codes, 2, State::Paused, Reason::UserOperation);
    assert_eq!(codes[2], Reason::UserOperation);
    assert_eq!(codes[3], Reason::Default);
    let specs = vec![FileSpec::user_file(1), FileSpec::user_file(2)];
    let statuses = get_each_file_status_by_code(&vec![Reason::Ssl], &specs);
    assert_eq!(statuses[0].reason, Reason::Ssl);
    assert_eq!(statuses[1].reason, Reason::Default);
    assert_eq!(statuses[1].message, "");
}

#[test]
fn network_and_app_verdicts() {
    let mut task = download_task(
        ConfigBuilder::new().action(Action::Download).file_spec(1).retry(true).build(),
    );
    assert!(task.check_network_status(true, 1));
    assert_eq!(task.status.state, State::Initialized);
    assert!(!task.check_network_status(false, 2));
    assert_eq!(task.status.state, State::Waiting);
    assert_eq!(task.status.reason, Reason::UnsupportedNetworkType);

    let mut front = download_task(
        ConfigBuilder::new().action(Action::Download).mode(Mode::FrontEnd).file_spec(1).build(),
    );
    assert!(!front.check_network_status(false, 2));
    assert_eq!(front.status.state, State::Failed);

    let mut front = download_task(
        ConfigBuilder::new().action(Action::Download).mode(Mode::FrontEnd).file_spec(1).build(),
    );
    assert!(front.check_app_state(true, 3));
    assert!(!front.check_app_state(false, 3));
    assert_eq!(front.status.state, State::Paused);
    assert_eq!(front.status.reason, Reason::AppBackgroundOrTerminate);

    let mut upload = RequestTask::new(
        ConfigBuilder::new().action(Action::Upload).mode(Mode::FrontEnd).file_spec(1).build(),
        vec![10],
        0,
    );
    assert!(!upload.check_app_state(false, 3));
    assert_eq!(upload.status.state, State::Failed);
    let mut background = download_task(download_config());
    assert!(background.check_app_state(false, 3));
}

#[test]
fn new_task_status() {
    let s = TaskStatus::new(5);
    assert_eq!(s.mtime, 5);
    assert_eq!(s.state, State::Initialized);
    assert_eq!(s.reason, Reason::Default);
    assert!(s.waiting_network_time.is_none());
}

#[test]
fn sizes_are_summed() {
    assert_eq!(sum_sizes(&vec![]), 0);
    assert_eq!(sum_sizes(&vec![1 << 20, 1 << 20]), 2_097_152);
    assert_eq!(sum_sizes(&vec![i64::MAX, 1]), -1);
    assert_eq!(sum_sizes(&vec![i64::MAX, 1, -1]), i64::MAX);
    assert_eq!(checked_sum(&vec![1, 2, 3]), Some(6));
    assert_eq!(checked_sum(&vec![usize::MAX, 1]), None);
}

#[test]
fn shown_progress_in_percent() {
    let mut task = download_task(download_config());
    task.prepare_download(0);
    assert_eq!(task.background_notify(5), None);
    task.get_file_info(None, Some("200".to_string())).unwrap();
    assert_eq!(task.background_notify(5), None);
    task.progress.add_processed(0, 50);
    assert_eq!(task.background_notify(6), Some(25));
    assert_eq!(task.background_notify_time, 6);

    let ranged = ConfigBuilder::new().action(Action::Download).file_spec(1).begins(100).ends(199).build();
    let mut task = download_task(ranged);
    task.prepare_download(0);
    task.get_file_info(None, Some("100".to_string())).unwrap();
    task.progress.add_processed(0, 10);
    assert_eq!(task.background_notify(7), Some(10));

    let front = ConfigBuilder::new().action(Action::Download).mode(Mode::FrontEnd).file_spec(1).build();
    let mut task = download_task(front);
    task.prepare_download(0);
    task.get_file_info(None, Some("100".to_string())).unwrap();
    task.progress.add_processed(0, 10);
    assert_eq!(task.background_notify(7), None);
}

fn upload_config(files: usize, multipart: bool) -> TaskConfig {
    let mut c = ConfigBuilder::new()
        .action(Action::Upload)
        .url("https://www.example.com/upload")
        .build();
    for i in 0..files {
        c.file_specs.push(FileSpec {
            name: format!("file{}", i),
            path: format!("/data/storage/el1/base/{}.bin", i),
            file_name: format!("{}.bin", i),
            mime_type: "application/octet-stream".to_string(),
            is_user_file: false,
            fd: None,
        });
    }
    c.common_data.multipart = multipart;
    c
}

#[test]
fn multipart_upload() {
    let mib = 1usize << 20;
    let mut config = upload_config(2, true);
    config.form_items.push(FormItem { name: "note".to_string(), value: "hello".to_string() });
    config.body_file_paths.push("/data/storage/el1/base/body".to_string());
    let mut task = RequestTask::new(config, vec![mib as i64, mib as i64], 1);
    assert_eq!(task.file_total_size, 2 * mib as i64);
    assert_eq!(request_method(&task.conf), "GET");

    task.prepare_running(2);
    assert_eq!(task.prepare_batch_upload(), Some(0));
    let parts = build_form_parts(&task.conf, &task.progress, 0, 2);
    assert_eq!(parts.len(), 3);
    assert_eq!(parts[0].name, "note");
    assert_eq!(parts[0].value.as_deref(), Some("hello"));
    assert!(parts[0].length.is_none());
    assert_eq!(parts[1].name, "file0");
    assert_eq!(parts[1].file_name.as_deref(), Some("0.bin"));
    assert_eq!(parts[1].mime.as_deref(), Some("application/octet-stream"));
    assert_eq!(parts[1].length, Some(mib as u64));
    assert_eq!(parts[1].file_index, Some(0));
    assert_eq!(parts[2].file_index, Some(1));

    let mut first = TaskReader::new(0);
    let mut second = TaskReader::new(1);
    assert_eq!(first.budget(&task), Some(mib as u64));
    assert!(first.record(&mut task, mib));
    assert_eq!(first.budget(&task), Some(0));
    assert_eq!(second.budget(&task), None);
    assert!(second.record(&mut task, mib));

    assert_eq!(task.on_upload_response(201), Ok(()));
    assert_eq!(task.change_task_status(State::Completed, Reason::Default, 3), ErrorCode::ErrOk);
    assert_eq!(task.status.state, State::Completed);
    assert_eq!(task.progress.total_processed(), 2 * mib);
    assert_eq!(task.progress.processed(), &vec![mib, mib]);
    assert!(task.progress.is_finish());
}

#[test]
fn reader_counts_apart_after_reuse() {
    let mut config = upload_config(1, false);
    config.common_data.begins = 10;
    let mut task = RequestTask::new(config, vec![100], 1);
    assert!(task.prepare_single_upload(0));
    let mut reader = TaskReader::new(0);
    assert!(reader.record(&mut task, 40));
    assert_eq!(task.progress.total_processed(), 40);
    assert_eq!(reader.budget(&task), Some(60));
    assert_eq!(reader.reuse(&task), 10);
    assert_eq!(reader.reused, Some(0));
    assert_eq!(reader.budget(&task), Some(100));
    assert!(reader.record(&mut task, 25));
    assert_eq!(reader.reused, Some(25));
    assert_eq!(task.progress.total_processed(), 40);
    assert_eq!(task.progress.processed(), &vec![40]);
    let mut other = TaskReader::new(3);
    assert_eq!(other.reuse(&task), 0);
}

#[test]
fn upload_window() {
    let mut config = upload_config(2, false);
    config.common_data.index = 1;
    config.common_data.begins = 10;
    config.common_data.ends = 19;
    let task = RequestTask::new(config, vec![100, 100], 1);
    assert_eq!(task.get_upload_info(0), (false, 100));
    assert_eq!(task.get_upload_info(1), (true, 10));

    let mut config = upload_config(1, false);
    config.common_data.begins = 100;
    let task = RequestTask::new(config, vec![100], 1);
    assert_eq!(task.get_upload_info(0), (false, 100));

    let mut config = upload_config(1, false);
    config.common_data.begins = 30;
    config.common_data.ends = 20;
    let task = RequestTask::new(config, vec![100], 1);
    assert_eq!(task.get_upload_info(0), (false, 100));

    let mut config = upload_config(1, false);
    config.common_data.begins = 30;
    config.common_data.ends = 1000;
    let mut task = RequestTask::new(config, vec![100], 1);
    assert_eq!(task.get_upload_info(0), (true, 70));
    task.progress.add_processed(0, 20);
    assert_eq!(task.get_upload_info(0), (true, 50));

    let task = RequestTask::new(upload_config(1, false), vec![0], 1);
    assert_eq!(task.get_upload_info(0), (false, 0));
}

#[test]
fn single_upload_starts_each_file_over_unless_resumed() {
    let mut task = RequestTask::new(upload_config(3, false), vec![10, 20, 30], 1);
    task.progress.add_processed(0, 10);
    task.progress.add_processed(1, 5);
    assert!(task.prepare_single_upload(1));
    assert_eq!(task.progress.index(), 1);
    assert_eq!(task.progress.processed(), &vec![10, 0, 0]);
    assert_eq!(task.progress.total_processed(), 10);

    task.progress.add_processed(1, 7);
    task.upload_resume = true;
    assert!(task.prepare_single_upload(1));
    assert!(!task.upload_resume);
    assert_eq!(task.progress.processed(), &vec![10, 7, 0]);
    assert_eq!(task.progress.total_processed(), 17);
    assert!(!task.prepare_single_upload(3));
}

#[test]
fn batch_upload_finds_its_file() {
    let mut task = RequestTask::new(upload_config(3, true), vec![10, 20, 30], 1);
    task.progress.add_processed(0, 10);
    task.progress.add_processed(1, 5);
    task.upload_resume = true;
    assert_eq!(task.prepare_batch_upload(), Some(1));
    assert_eq!(task.progress.processed(), &vec![10, 5, 0]);
    assert_eq!(task.progress.total_processed(), 15);
    assert_eq!(task.prepare_batch_upload(), Some(1));
    assert_eq!(task.progress.processed(), &vec![10, 0, 0]);
    assert_eq!(task.progress.total_processed(), 10);
    let mut none = RequestTask::new(upload_config(0, true), vec![], 1);
    assert_eq!(none.prepare_batch_upload(), None);
}

#[test]
fn stream_upload_headers() {
    let config = upload_config(1, false);
    let mut progress = Progress::new(vec![100]);
    progress.add_processed(0, 40);
    let headers = build_stream_headers(&config, &progress, 0);
    assert_eq!(
        headers,
        vec![
            ("Content-Type".to_string(), "application/octet-stream".to_string()),
            ("Content-Length".to_string(), "60".to_string()),
        ]
    );
    let mut config = upload_config(1, false);
    config.headers.insert("Content-Type".to_string(), "text/plain".to_string());
    let headers = build_stream_headers(&config, &progress, 0);
    assert_eq!(headers, vec![("Content-Length".to_string(), "60".to_string())]);
}

#[test]
fn form_or_stream() {
    let form = "multipart/form-data".to_string();
    let other = "text/plain".to_string();
    assert!(is_multipart(Some(&form), "PUT"));
    assert!(!is_multipart(Some(&other), "POST"));
    assert!(is_multipart(None, "POST"));
    assert!(!is_multipart(None, "PUT"));
}

#[test]
fn where_a_file_is_read_from() {
    assert_eq!(upload_seek_position(false, 10, 5, 1000, 100), Some(5));
    assert_eq!(upload_seek_position(true, 10, 5, 1000, 100), Some(15));
    assert_eq!(upload_seek_position(true, 10, 5, 100, 100), Some(5));
    assert_eq!(upload_seek_position(true, u64::MAX, 5, 1000, 100), None);
}

#[test]
fn upload_errors() {
    assert_eq!(
        classify_upload_error(&error(ErrorKind::BodyTransfer, "Below low speed limit")),
        TaskError::Failed(Reason::LowSpeed)
    );
    assert_eq!(
        classify_upload_error(&error(ErrorKind::BodyTransfer, "reset")),
        TaskError::Failed(Reason::OthersError)
    );
    assert_eq!(
        classify_upload_error(&error(ErrorKind::UserAborted, "")),
        TaskError::Waiting(TaskPhase::UserAbort)
    );
    assert_eq!(
        classify_upload_error(&error(ErrorKind::Timeout, "")),
        TaskError::Failed(Reason::ContinuousTaskTimeout)
    );
    assert_eq!(
        classify_upload_error(&error(ErrorKind::Other, "No space left on device")),
        TaskError::Failed(Reason::InsufficientSpace)
    );
    assert!(upload_needs_network_retry(&error(ErrorKind::Connect, "")));
    assert!(upload_needs_network_retry(&error(ErrorKind::BodyTransfer, "reset")));
    assert!(!upload_needs_network_retry(&error(ErrorKind::BodyTransfer, "Below low speed limit")));
    assert!(!upload_needs_network_retry(&error(ErrorKind::Timeout, "")));
}

#[test]
fn total_is_the_sum_of_the_files() {
    let mut p = Progress::new(vec![10, 20, 30]);
    let check = |p: &Progress| {
        assert_eq!(checked_sum(p.processed()), Some(p.total_processed()));
    };
    check(&p);
    p.add_processed(0, 10);
    check(&p);
    p.add_processed(2, 7);
    check(&p);
    assert!(!p.add_processed(1, usize::MAX));
    check(&p);
    p.prepare_single_upload(1, false);
    check(&p);
    assert_eq!(p.processed(), &vec![10, 0, 0]);
    p.prepare_batch_upload(true);
    check(&p);
    p.prepare_download(55);
    check(&p);
    p.clear_downloaded();
    check(&p);
    p.set_download_size(9);
    p.complete_download();
    check(&p);
    assert!(Progress::restore(State::Paused, 0, vec![1], vec![1, 2], StringMap::new()).is_none());
    let r = Progress::restore(State::Paused, 1, vec![5, 6], vec![5, 2], StringMap::new()).unwrap();
    assert_eq!(r.total_processed(), 7);
    assert_eq!(r.state(), State::Paused);
    assert_eq!(r.index(), 1);
    assert_eq!(r.upload_length(1), 4);
    assert!(!r.is_finish());
}

#[test]
fn task_is_taken_up_from_what_was_kept() {
    let mut task = download_task(download_config());
    task.prepare_download(10);
    task.get_file_info(Some("text/plain".to_string()), Some("90".to_string())).unwrap();
    task.tries = 3;
    task.change_task_status(State::Paused, Reason::UserOperation, 50);
    let progress = Progress::restore(
        task.progress.state(),
        task.progress.index(),
        task.progress.sizes().clone(),
        task.progress.processed().clone(),
        task.progress.extras().duplicate(),
    )
    .unwrap();
    let mut config = download_config();
    config.version = Version::API9;
    let mut legacy = download_task(config);
    legacy.mime_type = "text/plain".to_string();
    let copy = Progress::new(vec![-1]);
    assert_eq!(legacy.info(copy).mime_type, "text/plain");

    let info = task.info(progress);
    assert_eq!(info.mime_type, "");
    assert_eq!(info.common_data.ctime, 1000);
    assert_eq!(info.common_data.mtime, 50);
    assert_eq!(info.common_data.reason, Reason::UserOperation.repr());
    assert_eq!(info.common_data.tries, 3);
    assert_eq!(info.common_data.action, 0);
    assert_eq!(info.common_data.version, 2);
    assert_eq!(info.url, "https://www.example.com/test.txt");

    let again = RequestTask::new_by_info(download_config(), vec![-1], info, 70);
    assert_eq!(again.ctime, 1000);
    assert_eq!(again.tries, 3);
    assert_eq!(again.status.state, State::Paused);
    assert_eq!(again.status.reason, Reason::UserOperation);
    assert_eq!(again.status.mtime, 70);
    assert_eq!(again.file_total_size, 100);
    assert_eq!(again.progress.processed(), &vec![10]);
    assert_eq!(again.progress.sizes(), &vec![100]);
    assert_eq!(again.progress.total_processed(), 10);
}

#[test]
fn notify_data_of_a_task() {
    let task = download_task(download_config());
    let data = task.build_notify_data(Progress::new(vec![-1]));
    assert_eq!(data.bundle, "xxx");
    assert_eq!(data.task_id, 0);
    assert_eq!(data.action, Action::Download);
    assert_eq!(data.version, Version::API10);
    assert_eq!(data.each_file_status.len(), 1);
    assert_eq!(task.task_id(), 0);
    assert_eq!(task.uid(), 0);
    assert_eq!(task.action(), Action::Download);
    assert_eq!(task.mode(), Mode::BackGround);
}
