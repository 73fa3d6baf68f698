use request_service::config::{Action, ConfigBuilder, FileSpec, Mode};
use request_service::database::{read_progress, write_progress, Database, ProgressRecord};
use request_service::error::ErrorCode;
use request_service::info::State;
use request_service::notification_bar::MILLIS_IN_A_WEEK;
use request_service::progress::Progress;
use request_service::reason::Reason;
use request_service::request_task::RequestTask;
use request_service::strmap::StringMap;
use request_service::text::{parse_i64, parse_u32, parse_u64};
use request_service::utils::{
    naturals_to_string, numbers_to_string, string_to_naturals, string_to_numbers,
};

#[test]
fn numbers_are_read_as_the_standard_library_reads_them() {
    let texts = [
        "0", "7", "+7", "-7", "-0", "+0", "007", "", "+", "-", "+-1", "--1", "1 ", " 1", "1_000",
        "4294967295", "4294967296", "9223372036854775807", "9223372036854775808",
        "-9223372036854775808", "-9223372036854775809", "18446744073709551615",
        "18446744073709551616", "99999999999999999999999", "12a", "a12", "１２", "1.5", "0x10",
    ];
    for text in texts {
        assert_eq!(parse_u32(text), text.parse::<u32>().ok(), "{:?} as u32", text);
        assert_eq!(parse_u64(text), text.parse::<u64>().ok(), "{:?} as u64", text);
        assert_eq!(parse_i64(text), text.parse::<i64>().ok(), "{:?} as i64", text);
    }
    assert_eq!(parse_i64("-9223372036854775808"), Some(i64::MIN));
    assert_eq!(parse_u64("18446744073709551615"), Some(u64::MAX));
    assert_eq!(parse_u32("+42"), Some(42));
}

#[test]
fn lists_of_numbers_are_read_back() {
    for numbers in [vec![], vec![0], vec![-1], vec![1042003, -1, i64::MAX, i64::MIN, 0]] {
        let text = numbers_to_string(&numbers);
        assert_eq!(text, format!("{:?}", numbers));
        assert_eq!(string_to_numbers(&text), Some(numbers));
    }
    for numbers in [vec![], vec![0usize], vec![10, 0, usize::MAX]] {
        let text = naturals_to_string(&numbers);
        assert_eq!(text, format!("{:?}", numbers));
        assert_eq!(string_to_naturals(&text), Some(numbers));
    }
    assert_eq!(string_to_numbers("[1, x]"), None);
    assert_eq!(string_to_numbers("[1,2]"), None);
    assert_eq!(string_to_numbers("[1, ]"), None);
    assert_eq!(string_to_numbers("1, 2"), Some(vec![1, 2]));
    assert_eq!(string_to_numbers(""), Some(vec![]));
    assert_eq!(string_to_naturals("[-1]"), None);
    assert_eq!(string_to_naturals("[18446744073709551616]"), None);
}

fn progress() -> Progress {
    let mut extras = StringMap::new();
    extras.insert("etag".to_string(), "\"abc\"".to_string());
    extras.insert("last-modified".to_string(), "Tue, 01 Jan 2030 00:00:00 GMT".to_string());
    Progress::restore(State::Running, 1, vec![1042003, -1], vec![1042003, 77], extras).unwrap()
}

fn same(a: &Progress, b: &Progress) {
    assert_eq!(a.state(), b.state());
    assert_eq!(a.index(), b.index());
    assert_eq!(a.total_processed(), b.total_processed());
    assert_eq!(a.sizes(), b.sizes());
    assert_eq!(a.processed(), b.processed());
    assert_eq!(a.extras().len(), b.extras().len());
    for i in 0..a.extras().len() {
        assert_eq!(a.extras().key_at(i), b.extras().key_at(i));
        assert_eq!(a.extras().value_at(i), b.extras().value_at(i));
    }
}

#[test]
fn progress_is_written_down_and_read_back() {
    let p = progress();
    let r = write_progress(&p);
    assert_eq!(r.state, 0x20);
    assert_eq!(r.index, 1);
    assert_eq!(r.sizes, "[1042003, -1]");
    assert_eq!(r.processed, "[1042003, 77]");
    assert_eq!(r.extras, "etag\t\"abc\"\r\nlast-modified\tTue, 01 Jan 2030 00:00:00 GMT");
    same(&read_progress(&r).unwrap(), &p);

    let empty = Progress::new(Vec::new());
    let r = write_progress(&empty);
    assert_eq!(r.sizes, "[]");
    assert_eq!(r.processed, "[]");
    assert_eq!(r.extras, "");
    same(&read_progress(&r).unwrap(), &empty);

    let record = |sizes: &str, processed: &str, extras: &str| ProgressRecord {
        state: 0x20,
        index: 0,
        sizes: sizes.to_string(),
        processed: processed.to_string(),
        extras: extras.to_string(),
    };
    assert!(read_progress(&record("[1, 2]", "[1]", "")).is_none());
    assert!(read_progress(&record("[1]", "[x]", "")).is_none());
    assert!(read_progress(&record("[x]", "[1]", "")).is_none());
    assert!(read_progress(&record("[1]", "[1]", "no tab")).is_none());
    assert!(read_progress(&record(
        "[1, 1]",
        &format!("[{}, 1]", usize::MAX),
        ""
    ))
    .is_none());
    let p = read_progress(&record("[5, 6]", "[1, 2]", "")).unwrap();
    assert_eq!(p.total_processed(), 3);
    assert!(p.is_consistent());
}

fn task(task_id: u32, uid: u64, mode: Mode, time: u64) -> RequestTask {
    let mut config = ConfigBuilder::new()
        .action(Action::Download)
        .mode(mode)
        .uid(uid)
        .version(2)
        .url("http://example.com/a")
        .build();
    config.common_data.task_id = task_id;
    config.common_data.priority = 3;
    config.headers.insert("Content-Type".to_string(), "text/plain".to_string());
    config.file_specs.push(FileSpec {
        name: "file".to_string(),
        path: "/data/storage/el1/base/a.bin".to_string(),
        file_name: "a.bin".to_string(),
        mime_type: "".to_string(),
        is_user_file: false,
        fd: None,
    });
    RequestTask::new(config, vec![-1], time)
}

#[test]
fn task_is_recorded_and_taken_up_again() {
    let mut db = Database::new();
    assert!(!db.contains_task(5));
    assert!(db.get_task_info(5).is_none());
    assert!(db.get_task_config(5).is_none());
    assert_eq!(db.get_task(5, vec![-1], 0).err(), Some(ErrorCode::TaskNotFound));
    assert_eq!(db.query_task_uid(5), None);

    let mut t = task(5, 20, Mode::BackGround, 100);
    t.progress = progress();
    t.tries = 2;
    t.code = vec![Reason::IoError];
    t.status.state = State::Running;
    t.status.reason = Reason::Default;
    db.insert_task(&t);
    assert!(db.contains_task(5));
    assert_eq!(db.query_task_uid(5), Some(20));

    let info = db.get_task_info(5).unwrap();
    same(&info.progress, &t.progress);
    assert_eq!(info.url, "http://example.com/a");
    assert_eq!(info.mime_type, "text/plain");
    assert_eq!(info.common_data.task_id, 5);
    assert_eq!(info.common_data.uid, 20);
    assert_eq!(info.common_data.ctime, 100);
    assert_eq!(info.common_data.tries, 2);
    assert_eq!(info.common_data.priority, 3);
    assert_eq!(info.common_data.version, 2);
    assert_eq!(info.each_file_status.len(), 1);
    assert_eq!(info.each_file_status[0].reason, Reason::IoError);
    assert_eq!(info.each_file_status[0].path, "/data/storage/el1/base/a.bin");
    let config = db.get_task_config(5).unwrap();
    assert_eq!(config.url, t.conf.url);
    assert_eq!(config.common_data.task_id, 5);
    assert_eq!(config.file_specs.len(), 1);
    assert_eq!(config.headers.get("Content-Type").map(|s| s.as_str()), Some("text/plain"));

    let again = db.get_task(5, vec![-1], 900).unwrap();
    same(&again.progress, &t.progress);
    assert_eq!(again.ctime, 100);
    assert_eq!(again.tries, 2);
    assert_eq!(again.status.state, State::Running);
    assert_eq!(again.status.mtime, 900);
    assert_eq!(again.file_total_size, 1042003);
    assert_eq!(again.conf.url, t.conf.url);

    // A second record of the same task is not made.
    let mut other = task(5, 99, Mode::BackGround, 7);
    other.tries = 9;
    db.insert_task(&other);
    assert_eq!(db.query_task_uid(5), Some(20));

    // An update writes the progress anew and keeps the configuration.
    other.progress.set_state(State::Failed);
    other.status.reason = Reason::Dns;
    other.status.mtime = 300;
    db.update_task(&other);
    let info = db.get_task_info(5).unwrap();
    assert_eq!(info.progress.state(), State::Failed);
    assert_eq!(info.common_data.tries, 9);
    assert_eq!(info.common_data.reason, Reason::Dns.repr());
    assert_eq!(info.common_data.mtime, 300);
    assert_eq!(db.get_task_config(5).unwrap().common_data.uid, 20);
    let absent = task(6, 1, Mode::BackGround, 0);
    db.update_task(&absent);
    assert!(!db.contains_task(6));

    assert!(db.update_task_state(5, State::Removed, Reason::UserOperation, 400));
    assert!(!db.update_task_state(6, State::Removed, Reason::UserOperation, 400));
    let info = db.get_task_info(5).unwrap();
    assert_eq!(info.progress.state(), State::Removed);
    assert_eq!(info.common_data.mtime, 400);
    assert_eq!(info.common_data.reason, Reason::UserOperation.repr());
    assert_eq!(db.get_task(5, vec![-1], 900).err(), Some(ErrorCode::TaskStateErr));
}

#[test]
fn tasks_of_an_application() {
    let mut db = Database::new();
    db.insert_task(&task(1, 20, Mode::BackGround, 10));
    db.insert_task(&task(2, 20, Mode::FrontEnd, 20));
    db.insert_task(&task(3, 21, Mode::BackGround, 30));
    db.insert_task(&task(4, 20, Mode::BackGround, 40));
    assert_eq!(db.app_uncompleted_tasks_num(20, Mode::BackGround), 2);
    assert_eq!(db.app_uncompleted_tasks_num(20, Mode::FrontEnd), 1);
    assert_eq!(db.app_uncompleted_tasks_num(22, Mode::BackGround), 0);
    db.update_task_state(4, State::Completed, Reason::Default, 50);
    assert_eq!(db.app_uncompleted_tasks_num(20, Mode::BackGround), 1);

    let infos = db.get_app_task_qos_infos(20);
    let ids: Vec<u32> = infos.iter().map(|q| q.task_id).collect();
    assert_eq!(ids, vec![1, 2, 4]);
    assert_eq!(infos[2].state, State::Completed);
    assert_eq!(infos[1].mode, Mode::FrontEnd);
    assert_eq!(infos[0].ctime, 10);
    assert_eq!(infos[0].priority, 3);
    assert!(db.get_app_task_qos_infos(5).is_empty());

    let q = db.get_task_qos_info(21, 3).unwrap();
    assert_eq!((q.uid, q.task_id, q.action, q.state), (21, 3, Action::Download, State::Initialized));
    assert!(db.get_task_qos_info(20, 3).is_none());
    assert!(db.get_task_qos_info(20, 9).is_none());
}

#[test]
fn records_of_finished_tasks_are_purged_after_a_week() {
    let mut db = Database::new();
    db.insert_task(&task(1, 20, Mode::BackGround, 10));
    db.insert_task(&task(2, 20, Mode::BackGround, 10));
    db.insert_task(&task(3, 20, Mode::BackGround, 10));
    db.update_task_state(1, State::Completed, Reason::Default, 1000);
    db.update_task_state(2, State::Failed, Reason::Dns, 2000);
    // task 3 is not over

    assert_eq!(db.delete_early_records(MILLIS_IN_A_WEEK - 1), 0);
    assert_eq!(db.delete_early_records(MILLIS_IN_A_WEEK + 1000), 0);
    assert_eq!(db.delete_early_records(MILLIS_IN_A_WEEK + 1001), 1);
    assert!(!db.contains_task(1));
    assert!(db.contains_task(2) && db.contains_task(3));
    assert_eq!(db.delete_early_records(u64::MAX), 1);
    assert!(!db.contains_task(2));
    assert!(db.contains_task(3));
    assert_eq!(db.delete_early_records(u64::MAX), 0);
}
