use request_service::config::{Action, ConfigBuilder, FileSpec, Mode, TaskConfig};
use request_service::download::{
    DownloadAction, DownloadEvent, ErrorKind, FileProbe, HttpError,
};
use request_service::reason::Reason;
use request_service::request_task::{RequestTask, TaskError, TaskPhase};
use request_service::strmap::StringMap;
use request_service::upload::{FileStart, TaskReader, UploadAction, UploadEvent};

const LEN: usize = 1_042_003;

fn config() -> TaskConfig {
    let mut c = ConfigBuilder::new().action(Action::Download).mode(Mode::BackGround).build();
    c.file_specs.push(FileSpec {
        name: "file".to_string(),
        path: "/data/storage/el1/base/a.bin".to_string(),
        file_name: "a.bin".to_string(),
        mime_type: "".to_string(),
        is_user_file: false,
        fd: None,
    });
    c
}

fn response(status: u16, file_len: u64, length: Option<&str>, etag: Option<&str>) -> DownloadEvent {
    let mut headers = Vec::new();
    if let Some(l) = length {
        headers.push(("Content-Length".to_string(), l.to_string()));
    }
    if let Some(e) = etag {
        headers.push(("ETag".to_string(), e.to_string()));
    }
    DownloadEvent::Response {
        status,
        file_len,
        headers,
        content_type: Some("text/plain".to_string()),
        content_length: length.map(|l| l.to_string()),
    }
}

fn end(action: DownloadAction) -> Result<(), TaskError> {
    match action {
        DownloadAction::End(r) => r,
        _ => panic!("the attempt goes on"),
    }
}

#[test]
fn download_step_by_step() {
    let mut task = RequestTask::new(config(), vec![-1], 1000);
    let plan = match task.download_step(DownloadEvent::Begin { held: 0 }) {
        DownloadAction::Send(plan) => plan,
        _ => panic!("no request"),
    };
    assert!(plan.range.is_none() && plan.if_range.is_none() && !plan.clear_file);
    assert_eq!(task.progress.processed(), &vec![0]);

    match task.download_step(response(200, 0, Some("1042003"), Some("\"v1\""))) {
        DownloadAction::ReadBody { clear_file } => assert!(!clear_file),
        _ => panic!("no body"),
    }
    assert_eq!(task.mime_type, "text/plain");
    assert_eq!(task.file_total_size, LEN as i64);
    assert_eq!(task.progress.sizes(), &vec![LEN as i64]);
    assert_eq!(task.progress.extras().get("etag").map(|s| s.as_str()), Some("\"v1\""));

    let mut left = LEN;
    while left > 0 {
        let n = left.min(8192);
        assert!(matches!(task.download_step(DownloadEvent::Written { n }), DownloadAction::Continue));
        left -= n;
    }
    assert_eq!(task.progress.total_processed(), LEN);
    assert_eq!(end(task.download_step(DownloadEvent::Finished { probe: FileProbe::RegularFile })), Ok(()));
    assert_eq!(task.progress.sizes(), &vec![LEN as i64]);
    assert_eq!(task.progress.processed(), &vec![LEN]);
    assert!(task.progress.is_finish());
}

#[test]
fn download_is_taken_up_where_it_stopped() {
    let mut task = RequestTask::new(config(), vec![-1], 1000);
    let mut extras = StringMap::new();
    extras.insert("etag".to_string(), "\"v1\"".to_string());
    task.progress.set_extras(extras);

    let plan = match task.download_step(DownloadEvent::Begin { held: 1_032_003 }) {
        DownloadAction::Send(plan) => plan,
        _ => panic!("no request"),
    };
    assert_eq!(plan.range.as_deref(), Some("bytes=1032003-"));
    assert_eq!(plan.if_range.as_deref(), Some("\"v1\""));
    assert!(!plan.clear_file);
    match task.download_step(response(206, 1_032_003, Some("10000"), Some("\"v1\""))) {
        DownloadAction::ReadBody { clear_file } => assert!(!clear_file),
        _ => panic!("no body"),
    }
    assert_eq!(task.progress.sizes(), &vec![LEN as i64]);
    assert!(matches!(task.download_step(DownloadEvent::Written { n: 10_000 }), DownloadAction::Continue));
    assert_eq!(end(task.download_step(DownloadEvent::Finished { probe: FileProbe::RegularFile })), Ok(()));
    assert_eq!(task.progress.total_processed(), LEN);
}

#[test]
fn server_that_sends_everything_again() {
    let mut task = RequestTask::new(config(), vec![-1], 1000);
    let mut extras = StringMap::new();
    extras.insert("etag".to_string(), "\"v1\"".to_string());
    task.progress.set_extras(extras);
    match task.download_step(DownloadEvent::Begin { held: 500 }) {
        DownloadAction::Send(plan) => assert!(plan.if_range.is_some()),
        _ => panic!("no request"),
    }
    // The resource changed: the server answers with all of it.
    match task.download_step(response(200, 500, Some("900"), Some("\"v2\""))) {
        DownloadAction::ReadBody { clear_file } => assert!(clear_file),
        _ => panic!("no body"),
    }
    assert_eq!(task.progress.processed(), &vec![0]);
    assert_eq!(task.progress.total_processed(), 0);
    assert_eq!(task.progress.sizes(), &vec![900]);

    // Without a validator the file is emptied before the request.
    let mut task = RequestTask::new(config(), vec![-1], 1000);
    match task.download_step(DownloadEvent::Begin { held: 500 }) {
        DownloadAction::Send(plan) => {
            assert!(plan.clear_file);
            assert!(plan.range.is_none());
        }
        _ => panic!("no request"),
    }
    assert_eq!(task.progress.processed(), &vec![0]);
}

#[test]
fn range_that_the_server_ignores() {
    let mut c = config();
    c.common_data.begins = 5000;
    let mut task = RequestTask::new(c, vec![-1], 1000);
    assert_eq!(
        end(task.download_step(DownloadEvent::Begin { held: 1000 })),
        Err(TaskError::Failed(Reason::UnsupportedRangeRequest))
    );

    let mut c = config();
    c.common_data.begins = 5000;
    let mut task = RequestTask::new(c, vec![-1], 1000);
    match task.download_step(DownloadEvent::Begin { held: 0 }) {
        DownloadAction::Send(plan) => assert_eq!(plan.range.as_deref(), Some("bytes=5000-")),
        _ => panic!("no request"),
    }
    assert_eq!(
        end(task.download_step(response(200, 0, Some("100"), None))),
        Err(TaskError::Failed(Reason::UnsupportedRangeRequest))
    );

    let mut c = config();
    c.common_data.begins = u64::MAX;
    let mut task = RequestTask::new(c, vec![-1], 1000);
    assert_eq!(
        end(task.download_step(DownloadEvent::Begin { held: 1 })),
        Err(TaskError::Failed(Reason::BuildRequestFailed))
    );
}

#[test]
fn statuses_and_errors_end_the_attempt() {
    let mut task = RequestTask::new(config(), vec![-1], 1000);
    task.download_step(DownloadEvent::Begin { held: 0 });
    for _ in 0..2 {
        assert_eq!(
            end(task.download_step(response(408, 0, None, None))),
            Err(TaskError::Waiting(TaskPhase::NeedRetry))
        );
    }
    assert_eq!(task.timeout_tries, 2);
    assert_eq!(
        end(task.download_step(response(408, 0, None, None))),
        Err(TaskError::Failed(Reason::ProtocolError))
    );
    for status in [301, 404, 500] {
        assert_eq!(
            end(task.download_step(response(status, 0, None, None))),
            Err(TaskError::Failed(Reason::ProtocolError))
        );
    }

    let mut c = config();
    c.common_data.precise = true;
    let mut task = RequestTask::new(c, vec![-1], 1000);
    task.download_step(DownloadEvent::Begin { held: 0 });
    assert_eq!(
        end(task.download_step(response(200, 0, None, None))),
        Err(TaskError::Failed(Reason::GetFileSizeFailed))
    );

    let failure = |kind: ErrorKind, dns: bool| HttpError {
        kind,
        is_dns: dns,
        is_tls: false,
        message: "it broke".to_string(),
    };
    let mut task = RequestTask::new(config(), vec![-1], 1000);
    task.download_step(DownloadEvent::Begin { held: 0 });
    assert_eq!(
        end(task.download_step(DownloadEvent::RequestFailed {
            error: failure(ErrorKind::Redirect, false),
            online: true
        })),
        Err(TaskError::Failed(Reason::RedirectError))
    );
    assert_eq!(task.tries, 0);
    for tries in 1..=4 {
        assert_eq!(
            end(task.download_step(DownloadEvent::RequestFailed {
                error: failure(ErrorKind::Connect, true),
                online: true
            })),
            Err(TaskError::Waiting(TaskPhase::NeedRetry))
        );
        assert_eq!(task.tries, tries);
    }
    assert_eq!(
        end(task.download_step(DownloadEvent::RequestFailed {
            error: failure(ErrorKind::Connect, true),
            online: true
        })),
        Err(TaskError::Failed(Reason::Dns))
    );

    assert_eq!(
        end(task.download_step(DownloadEvent::Aborted)),
        Err(TaskError::Waiting(TaskPhase::UserAbort))
    );
    assert_eq!(
        end(task.download_step(DownloadEvent::IoFailed)),
        Err(TaskError::Failed(Reason::IoError))
    );
    assert_eq!(
        end(task.download_step(DownloadEvent::BodyFailed {
            error: failure(ErrorKind::Timeout, false),
            online: true
        })),
        Err(TaskError::Failed(Reason::ContinuousTaskTimeout))
    );
    assert_eq!(
        end(task.download_step(DownloadEvent::BodyFailed {
            error: HttpError {
                kind: ErrorKind::Other,
                is_dns: false,
                is_tls: false,
                message: "write: No space left on device".to_string()
            },
            online: true
        })),
        Err(TaskError::Failed(Reason::InsufficientSpace))
    );
    assert_eq!(
        end(task.download_step(DownloadEvent::Finished { probe: FileProbe::NotFound })),
        Err(TaskError::Failed(Reason::IoError))
    );
    // The counters are full.
    assert!(matches!(task.download_step(DownloadEvent::Written { n: 1 }), DownloadAction::Continue));
    assert_eq!(
        end(task.download_step(DownloadEvent::Written { n: usize::MAX })),
        Err(TaskError::Failed(Reason::OthersError))
    );
    assert_eq!(task.progress.total_processed(), 1);
}

fn upload_config(files: usize, multipart: bool) -> TaskConfig {
    let mut c = ConfigBuilder::new().action(Action::Upload).mode(Mode::BackGround).build();
    c.common_data.multipart = multipart;
    c.method = "PUT".to_string();
    for i in 0..files {
        c.file_specs.push(FileSpec {
            name: format!("file{}", i),
            path: format!("/data/storage/el1/base/{}.bin", i),
            file_name: format!("{}.bin", i),
            mime_type: "application/octet-stream".to_string(),
            is_user_file: false,
            fd: None,
        });
    }
    c
}

fn upload_end(action: UploadAction) -> Result<(), TaskError> {
    match action {
        UploadAction::End(r) => r,
        _ => panic!("the attempt goes on"),
    }
}

#[test]
fn files_are_uploaded_one_by_one() {
    let mut task = RequestTask::new(upload_config(2, false), vec![100, 50], 1);
    let lens = vec![100, 50];
    let (start, length, headers) = match task.upload_step(UploadEvent::Begin, &lens) {
        UploadAction::SendStream { start, length, headers } => (start, length, headers),
        _ => panic!("no stream"),
    };
    assert_eq!(start, FileStart { index: 0, position: 0 });
    assert_eq!(length, 100);
    assert_eq!(
        headers,
        vec![
            ("Content-Type".to_string(), "application/octet-stream".to_string()),
            ("Content-Length".to_string(), "100".to_string()),
        ]
    );
    let mut reader = TaskReader::new(0);
    assert!(reader.record(&mut task, 100));

    match task.upload_step(UploadEvent::Response { status: 200 }, &lens) {
        UploadAction::SendStream { start, length, .. } => {
            assert_eq!(start, FileStart { index: 1, position: 0 });
            assert_eq!(length, 50);
        }
        _ => panic!("no stream"),
    }
    assert_eq!(task.progress.index(), 1);
    assert_eq!(task.progress.processed(), &vec![100, 0]);
    let mut reader = TaskReader::new(1);
    assert!(reader.record(&mut task, 50));
    assert_eq!(upload_end(task.upload_step(UploadEvent::Response { status: 201 }, &lens)), Ok(()));
    assert_eq!(task.progress.total_processed(), 150);
    assert!(task.progress.is_finish());
}

#[test]
fn files_are_uploaded_as_forms() {
    let mut c = upload_config(2, false);
    c.method = "post".to_string();
    c.form_items.push(request_service::config::FormItem {
        name: "note".to_string(),
        value: "hello".to_string(),
    });
    let mut task = RequestTask::new(c, vec![100, 50], 1);
    let lens = vec![100, 50];
    match task.upload_step(UploadEvent::Begin, &lens) {
        UploadAction::SendForm { parts, starts } => {
            assert_eq!(starts, vec![FileStart { index: 0, position: 0 }]);
            assert_eq!(parts.len(), 2);
            assert_eq!(parts[0].name, "note");
            assert_eq!(parts[1].file_index, Some(0));
            assert_eq!(parts[1].length, Some(100));
        }
        _ => panic!("no form"),
    }
    match task.upload_step(UploadEvent::Response { status: 200 }, &lens) {
        UploadAction::SendForm { parts, starts } => {
            assert_eq!(starts, vec![FileStart { index: 1, position: 0 }]);
            assert_eq!(parts[1].file_index, Some(1));
        }
        _ => panic!("no form"),
    }
    assert_eq!(upload_end(task.upload_step(UploadEvent::Response { status: 200 }, &lens)), Ok(()));
}

#[test]
fn files_are_uploaded_in_one_request() {
    let mib = 1usize << 20;
    let mut c = upload_config(2, true);
    c.form_items.push(request_service::config::FormItem {
        name: "note".to_string(),
        value: "hello".to_string(),
    });
    let mut task = RequestTask::new(c, vec![mib as i64, mib as i64], 1);
    let lens = vec![mib as u64, mib as u64];
    match task.upload_step(UploadEvent::Begin, &lens) {
        UploadAction::SendForm { parts, starts } => {
            assert_eq!(
                starts,
                vec![FileStart { index: 0, position: 0 }, FileStart { index: 1, position: 0 }]
            );
            assert_eq!(parts.len(), 3);
            assert_eq!(parts[0].value.as_deref(), Some("hello"));
            assert_eq!(parts[1].length, Some(mib as u64));
            assert_eq!(parts[2].file_index, Some(1));
        }
        _ => panic!("no form"),
    }
    assert!(TaskReader::new(0).record(&mut task, mib));
    assert!(TaskReader::new(1).record(&mut task, mib));
    assert_eq!(upload_end(task.upload_step(UploadEvent::Response { status: 201 }, &lens)), Ok(()));
    assert_eq!(task.progress.total_processed(), 2 * mib);
    assert!(task.progress.is_finish());
}

#[test]
fn named_file_is_sent_from_where_it_begins() {
    let mut c = upload_config(2, false);
    c.common_data.index = 1;
    c.common_data.begins = 10;
    c.common_data.ends = 29;
    let mut task = RequestTask::new(c, vec![100, 50], 1);
    // the second file is longer on disk than the part to send
    let lens = vec![100, 80];
    task.upload_step(UploadEvent::Begin, &lens);
    assert!(TaskReader::new(0).record(&mut task, 100));
    match task.upload_step(UploadEvent::Response { status: 200 }, &lens) {
        UploadAction::SendStream { start, length, headers } => {
            assert_eq!(start, FileStart { index: 1, position: 10 });
            assert_eq!(length, 20);
            assert_eq!(headers[1], ("Content-Length".to_string(), "50".to_string()));
        }
        _ => panic!("no stream"),
    }
}

#[test]
fn upload_that_cannot_go_on() {
    let lens = vec![100, 50];
    let mut task = RequestTask::new(upload_config(2, false), vec![100, 50], 1);
    assert_eq!(
        upload_end(task.upload_step(UploadEvent::Begin, &vec![100])),
        Err(TaskError::Failed(Reason::UploadFileError))
    );
    task.upload_step(UploadEvent::Begin, &lens);
    assert_eq!(
        upload_end(task.upload_step(UploadEvent::Response { status: 500 }, &lens)),
        Err(TaskError::Failed(Reason::ProtocolError))
    );
    assert_eq!(task.progress.index(), 0);
    assert_eq!(
        upload_end(task.upload_step(UploadEvent::Response { status: 408 }, &lens)),
        Err(TaskError::Waiting(TaskPhase::NeedRetry))
    );
    assert_eq!(task.timeout_tries, 1);
    assert_eq!(
        upload_end(task.upload_step(UploadEvent::Aborted, &lens)),
        Err(TaskError::Waiting(TaskPhase::UserAbort))
    );
    assert_eq!(
        upload_end(task.upload_step(UploadEvent::IoFailed, &lens)),
        Err(TaskError::Failed(Reason::IoError))
    );
    let slow = HttpError {
        kind: ErrorKind::BodyTransfer,
        is_dns: false,
        is_tls: false,
        message: "Below low speed limit".to_string(),
    };
    assert_eq!(
        upload_end(task.upload_step(UploadEvent::RequestFailed { error: slow, online: true }, &lens)),
        Err(TaskError::Failed(Reason::LowSpeed))
    );
    assert_eq!(task.tries, 0);
    let broken = HttpError {
        kind: ErrorKind::BodyTransfer,
        is_dns: false,
        is_tls: false,
        message: "reset".to_string(),
    };
    assert_eq!(
        upload_end(task.upload_step(UploadEvent::RequestFailed { error: broken, online: true }, &lens)),
        Err(TaskError::Waiting(TaskPhase::NeedRetry))
    );
    assert_eq!(task.tries, 1);

    let mut none = RequestTask::new(upload_config(0, true), vec![], 1);
    assert_eq!(
        upload_end(none.upload_step(UploadEvent::Begin, &vec![])),
        Err(TaskError::Failed(Reason::OthersError))
    );
    let mut none = RequestTask::new(upload_config(0, false), vec![], 1);
    assert_eq!(upload_end(none.upload_step(UploadEvent::Begin, &vec![])), Ok(()));
}
