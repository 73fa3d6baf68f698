use request_service::notification_bar::{NotificationDb, MILLIS_IN_A_WEEK};

const TEST_TITLE: &str = "田文镜";
const TEST_TEXT: &str = "我XXX";

fn task_ids(seed: u32) -> Vec<u32> {
    let mut v = Vec::new();
    let mut x = seed;
    for _ in 0..100 {
        x = x.wrapping_mul(1664525).wrapping_add(1013904223);
        v.push(x);
    }
    v
}

#[test]
fn ut_notify_database_query_tasks() {
    let mut db = NotificationDb::new();
    let group_id = 3_735_928_559u32;
    let mut v = vec![];
    for task_id in task_ids(1) {
        v.push(task_id);
        db.update_task_group(task_id, group_id);
    }
    v.sort();
    let mut ans = db.query_group_tasks(group_id);
    ans.sort();
    assert_eq!(v, ans);
}

#[test]
fn ut_notify_database_query_task_gid() {
    let mut db = NotificationDb::new();
    let group_id = 77u32;

    for task_id in task_ids(2) {
        db.update_task_group(task_id, group_id);
        assert_eq!(db.query_task_gid(task_id).unwrap(), group_id);
    }
}

#[test]
fn ut_notify_database_query_task_customized() {
    let mut db = NotificationDb::new();
    let task_id = 4_000_000_001u32;

    db.update_task_customized_notification(
        task_id,
        Some(TEST_TITLE.to_string()),
        Some(TEST_TEXT.to_string()),
    );
    let customized = db.query_task_customized_notification(task_id).unwrap();
    assert_eq!(customized.title.as_ref().unwrap(), TEST_TITLE);
    assert_eq!(customized.text.as_ref().unwrap(), TEST_TEXT);
}

#[test]
fn ut_notify_database_query_group_customized() {
    let mut db = NotificationDb::new();
    let group_id = 12u32;

    db.update_group_customized_notification(
        group_id,
        Some(TEST_TITLE.to_string()),
        Some(TEST_TEXT.to_string()),
    );
    let customized = db.query_group_customized_notification(group_id).unwrap();
    assert_eq!(customized.title.as_ref().unwrap(), TEST_TITLE);
    assert_eq!(customized.text.as_ref().unwrap(), TEST_TEXT);
}

#[test]
fn ut_notify_database_group_config() {
    let mut db = NotificationDb::new();
    let group_id = 998u32;

    assert!(!db.contains_group(group_id));
    db.update_group_config(group_id, true, 0);
    assert!(db.contains_group(group_id));
    assert!(db.is_gauge(group_id));
    assert!(db.attach_able(group_id));
    db.update_group_config(group_id, false, 0);
    db.disable_attach_group(group_id);
    assert!(!db.attach_able(group_id));
    assert!(!db.is_gauge(group_id));
}

#[test]
fn ut_clear_task_info() {
    let mut db = NotificationDb::new();

    let group_id = 5u32;
    let task_id = 6u32;

    db.disable_task_notification(task_id);
    db.update_task_customized_notification(task_id, None, None);
    db.update_task_group(task_id, group_id);
    assert!(!db.check_task_notification_available(&task_id));
    assert!(db.query_task_customized_notification(task_id).is_some());
    assert_eq!(db.query_task_gid(task_id).unwrap(), group_id);

    db.clear_task_info(task_id);
    assert!(db.check_task_notification_available(&task_id));
    assert!(db.query_task_customized_notification(task_id).is_none());
    assert!(db.query_task_gid(task_id).is_none());
}

#[test]
fn ut_clear_group_info() {
    let mut db = NotificationDb::new();

    let group_id = 15u32;
    let task_id = 16u32;
    db.update_group_customized_notification(group_id, None, None);
    db.update_group_config(group_id, true, 0);
    db.update_task_group(task_id, group_id);

    assert!(db.query_group_customized_notification(group_id).is_some());
    assert!(db.contains_group(group_id));
    assert_eq!(db.query_task_gid(task_id).unwrap(), group_id);

    db.clear_group_info(group_id);
    assert!(db.query_group_customized_notification(group_id).is_none());
    assert!(!db.contains_group(group_id));
    assert!(db.query_task_gid(task_id).is_none());
}

#[test]
fn ut_clear_group_info_a_week_ago() {
    let current_time: u64 = 1_800_000_000_000;
    let a_week_ago = current_time - MILLIS_IN_A_WEEK;

    let mut db = NotificationDb::new();
    let group_id = 25u32;
    let task_id = 26u32;

    db.update_group_customized_notification(group_id, None, None);
    db.update_group_config(group_id, true, current_time);

    db.clear_group_info_a_week_ago(current_time);
    assert!(db.query_group_customized_notification(group_id).is_some());
    assert!(db.contains_group(group_id));

    db.update_group_config(group_id, true, a_week_ago - 1);
    db.update_task_group(task_id, group_id);
    db.clear_group_info_a_week_ago(current_time);
    assert!(db.query_group_customized_notification(group_id).is_some());
    assert!(db.contains_group(group_id));

    db.clear_task_info(task_id);
    db.clear_group_info_a_week_ago(current_time);
    assert!(db.query_group_customized_notification(group_id).is_none());
    assert!(!db.contains_group(group_id));
}

#[test]
fn group_is_kept_at_exactly_a_week() {
    let now: u64 = 1_800_000_000_000;
    let mut db = NotificationDb::new();
    db.update_group_config(1, true, now - MILLIS_IN_A_WEEK);
    assert_eq!(db.clear_group_info_a_week_ago(now), 0);
    assert!(db.contains_group(1));
    db.update_group_config(2, false, now - MILLIS_IN_A_WEEK - 1);
    assert_eq!(db.clear_group_info_a_week_ago(now), 1);
    assert!(db.contains_group(1));
    assert!(!db.contains_group(2));
}

#[test]
fn clearing_a_group_leaves_other_groups() {
    let mut db = NotificationDb::new();
    db.update_task_group(1, 10);
    db.update_task_group(2, 20);
    db.update_task_group(3, 10);
    db.update_group_config(10, true, 5);
    db.update_group_config(20, true, 5);
    db.clear_group_info(10);
    assert!(db.query_task_gid(1).is_none());
    assert!(db.query_task_gid(3).is_none());
    assert_eq!(db.query_task_gid(2), Some(20));
    assert!(db.contains_group(20));
    assert_eq!(db.query_group_tasks(20), vec![2]);
}

#[test]
fn task_moves_between_groups() {
    let mut db = NotificationDb::new();
    db.update_task_group(1, 10);
    db.update_task_group(1, 20);
    assert_eq!(db.query_task_gid(1), Some(20));
    assert!(db.query_group_tasks(10).is_empty());
    db.delete_task_customized(1);
    db.delete_group_customized(1);
    assert!(db.query_task_customized_notification(1).is_none());
}
