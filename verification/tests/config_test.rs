use request_service::config::{
    i64_to_u64_wrapping, u64_to_i64_wrapping, Action, ConfigBuilder, FileSpec, FormItem, Mode,
    NetworkConfig, NetworkInfo, NetworkState, NetworkType, TaskConfig, Version,
};
use request_service::parcel::{IpcStatusCode, MsgParcel, ParcelItem};
use request_service::reason::Reason;
use request_service::serialize::{deserialize, serialize, Caller};
use std::collections::HashSet;

fn online(network_type: NetworkType, is_metered: bool, is_roaming: bool) -> NetworkState {
    NetworkState::Online(NetworkInfo { network_type, is_metered, is_roaming })
}

fn caller() -> Caller {
    Caller {
        uid: 20010044,
        token_id: 99,
        bundle: "com.example.app".to_string(),
        account: "account-1".to_string(),
    }
}

#[test]
fn builder_starts_from_the_defaults() {
    let c = ConfigBuilder::new().build();
    assert_eq!(c.bundle, "xxx");
    assert_eq!(c.atomic_account, "ohosAnonymousUid");
    assert_eq!(c.url, "");
    assert_eq!(c.method, "GET");
    assert_eq!(c.version, Version::API10);
    assert_eq!(c.common_data.action, Action::Download);
    assert_eq!(c.common_data.mode, Mode::BackGround);
    assert_eq!(c.common_data.network_config, NetworkConfig::Any);
    assert!(c.common_data.redirect);
    assert!(!c.common_data.retry);
    assert_eq!(c.common_data.begins, 0);
    assert_eq!(c.common_data.ends, -1);
    assert!(c.file_specs.is_empty());
    assert!(c.headers.is_empty());
}

#[test]
fn builder_sets_each_field() {
    let c = ConfigBuilder::new()
        .action(Action::Upload)
        .mode(Mode::FrontEnd)
        .file_spec(7)
        .url("https://example.com/a b")
        .version(1)
        .bundle_name("com.example")
        .uid(42)
        .network(NetworkConfig::Wifi)
        .roaming(true)
        .metered(true)
        .redirect(false)
        .begins(5000)
        .ends(10000)
        .method("POST")
        .retry(true)
        .build();
    assert_eq!(c.common_data.action, Action::Upload);
    assert_eq!(c.common_data.mode, Mode::FrontEnd);
    assert_eq!(c.file_specs.len(), 1);
    assert!(c.file_specs[0].is_user_file);
    assert_eq!(c.file_specs[0].fd, Some(7));
    assert_eq!(c.url, "https://example.com/a b");
    assert_eq!(c.version, Version::API9);
    assert_eq!(c.bundle, "com.example");
    assert_eq!(c.common_data.uid, 42);
    assert_eq!(c.common_data.network_config, NetworkConfig::Wifi);
    assert!(c.common_data.roaming);
    assert!(c.common_data.metered);
    assert!(!c.common_data.redirect);
    assert_eq!(c.common_data.begins, 5000);
    assert_eq!(c.common_data.ends, 10000);
    assert_eq!(c.method, "POST");
    assert!(c.common_data.retry);
    assert!(c.contains_user_file());
}

#[test]
fn version_numbers() {
    assert_eq!(Version::from_u8(2), Version::API10);
    assert_eq!(Version::from_u8(1), Version::API9);
    assert_eq!(Version::from_u8(0), Version::API9);
    assert_eq!(Version::from_u8(200), Version::API9);
    assert_eq!(Version::API9.repr(), 1);
    assert_eq!(Version::API10.repr(), 2);
}

#[test]
fn enum_numbers() {
    assert_eq!(Mode::from_u8(0), Mode::BackGround);
    assert_eq!(Mode::from_u8(1), Mode::FrontEnd);
    assert_eq!(Mode::from_u8(9), Mode::Any);
    assert_eq!(Action::from_u8(0), Action::Download);
    assert_eq!(Action::from_u8(1), Action::Upload);
    assert_eq!(Action::from_u8(2), Action::Any);
    assert_eq!(NetworkConfig::from_u8(0), NetworkConfig::Any);
    assert_eq!(NetworkConfig::from_u8(1), NetworkConfig::Wifi);
    assert_eq!(NetworkConfig::from_u8(2), NetworkConfig::Cellular);
    assert_eq!(NetworkConfig::from_u8(3), NetworkConfig::Wifi);
    assert_eq!(Mode::FrontEnd.to_usize(), 0);
    assert_eq!(Mode::Any.to_usize(), 1);
    assert_eq!(Mode::BackGround.to_usize(), 2);
}

#[test]
fn ends_above_the_signed_range_wraps() {
    let c = ConfigBuilder::new().ends(u64::MAX).build();
    assert_eq!(c.common_data.ends, -1);
    assert_eq!(u64_to_i64_wrapping(1 << 63), i64::MIN);
    assert_eq!(u64_to_i64_wrapping(5), 5);
    assert_eq!(i64_to_u64_wrapping(-1), u64::MAX);
    assert_eq!(i64_to_u64_wrapping(i64::MIN), 1 << 63);
    assert_eq!(i64_to_u64_wrapping(17), 17);
}

#[test]
fn network_constraint() {
    let any = ConfigBuilder::new().build();
    assert_eq!(any.satisfy_network(&NetworkState::Offline), Err(Reason::NetworkOffline));
    assert_eq!(any.satisfy_network(&online(NetworkType::Cellular, true, true)), Ok(()));

    let wifi = ConfigBuilder::new().network(NetworkConfig::Wifi).build();
    assert_eq!(
        wifi.satisfy_network(&online(NetworkType::Cellular, false, false)),
        Err(Reason::UnsupportedNetworkType)
    );
    assert_eq!(wifi.satisfy_network(&online(NetworkType::Wifi, false, false)), Ok(()));
    assert_eq!(
        wifi.satisfy_network(&online(NetworkType::Wifi, true, false)),
        Err(Reason::UnsupportedNetworkType)
    );

    let cellular = ConfigBuilder::new().network(NetworkConfig::Cellular).metered(true).build();
    assert_eq!(cellular.satisfy_network(&online(NetworkType::Wifi, true, false)), Ok(()));
    assert_eq!(cellular.satisfy_network(&online(NetworkType::Cellular, true, false)), Ok(()));
    assert_eq!(
        cellular.satisfy_network(&online(NetworkType::Cellular, true, true)),
        Err(Reason::UnsupportedNetworkType)
    );
}

#[test]
fn foreground_constraint() {
    let mut front = HashSet::new();
    front.insert(42u64);
    let background = ConfigBuilder::new().uid(7).build();
    assert!(background.satisfy_foreground(&front));
    let mine = ConfigBuilder::new().mode(Mode::FrontEnd).uid(42).build();
    assert!(mine.satisfy_foreground(&front));
    let other = ConfigBuilder::new().mode(Mode::FrontEnd).uid(7).build();
    assert!(!other.satisfy_foreground(&front));
}

#[test]
fn user_file_is_found() {
    let mut c = TaskConfig::default();
    assert!(!c.contains_user_file());
    c.file_specs.push(FileSpec {
        name: "file".to_string(),
        path: "/data/storage/el2/base/a".to_string(),
        file_name: "a".to_string(),
        mime_type: "txt".to_string(),
        is_user_file: false,
        fd: None,
    });
    assert!(!c.contains_user_file());
    c.file_specs.push(FileSpec::user_file(3));
    assert!(c.contains_user_file());
}

fn full_config() -> TaskConfig {
    let mut c = ConfigBuilder::new()
        .action(Action::Upload)
        .mode(Mode::FrontEnd)
        .version(2)
        .url("https://example.com/upload")
        .method("PUT")
        .network(NetworkConfig::Cellular)
        .metered(true)
        .begins(12)
        .ends(-1i64 as u64)
        .retry(true)
        .file_spec(5)
        .build();
    c.bundle_type = 1;
    c.title = "title".to_string();
    c.description = "description".to_string();
    c.data = "data".to_string();
    c.token = "token".to_string();
    c.proxy = "proxy".to_string();
    c.certificate_pins = "pins".to_string();
    c.common_data.cover = true;
    c.common_data.index = 1;
    c.common_data.gauge = true;
    c.common_data.precise = true;
    c.common_data.priority = 3;
    c.common_data.background = true;
    c.common_data.multipart = true;
    c.common_data.min_speed.speed = 10;
    c.common_data.min_speed.duration = 20;
    c.common_data.timeout.connection_timeout = 30;
    c.common_data.timeout.total_timeout = 40;
    c.certs_path.push("/etc/cert".to_string());
    c.form_items.push(FormItem { name: "field".to_string(), value: "value".to_string() });
    c.file_specs.push(FileSpec {
        name: "file".to_string(),
        path: "/data/storage/el1/base/b.bin".to_string(),
        file_name: "b.bin".to_string(),
        mime_type: "application/octet-stream".to_string(),
        is_user_file: false,
        fd: None,
    });
    c.body_file_paths.push("/data/storage/el1/base/body".to_string());
    c.headers.insert("Content-Type".to_string(), "multipart/form-data".to_string());
    c.headers.insert("X-A".to_string(), "1".to_string());
    c.extras.insert("k".to_string(), "v".to_string());
    c
}

#[test]
fn config_travels_in_a_message() {
    let c = full_config();
    let mut parcel = MsgParcel::new();
    parcel.write_u32(77);
    serialize(&c, &mut parcel).unwrap();
    parcel.write_u32(88);
    assert_eq!(parcel.read_u32(), Ok(77));
    let r = deserialize(&mut parcel, &caller()).unwrap();
    assert_eq!(parcel.read_u32(), Ok(88));
    assert_eq!(parcel.readable(), 0);

    assert_eq!(r.bundle, "com.example.app");
    assert_eq!(r.atomic_account, "account-1");
    assert_eq!(r.common_data.uid, 20010044);
    assert_eq!(r.common_data.token_id, 99);
    assert_eq!(r.common_data.task_id, 0);
    assert_eq!(r.bundle_type, 1);
    assert_eq!(r.url, c.url);
    assert_eq!(r.title, "title");
    assert_eq!(r.description, "description");
    assert_eq!(r.method, "PUT");
    assert_eq!(r.data, "data");
    assert_eq!(r.token, "token");
    assert_eq!(r.proxy, "proxy");
    assert_eq!(r.certificate_pins, "pins");
    assert_eq!(r.version, Version::API10);
    assert_eq!(r.common_data.action, Action::Upload);
    assert_eq!(r.common_data.mode, Mode::FrontEnd);
    assert_eq!(r.common_data.network_config, NetworkConfig::Cellular);
    assert!(r.common_data.cover);
    assert!(r.common_data.metered);
    assert!(!r.common_data.roaming);
    assert!(r.common_data.retry);
    assert!(r.common_data.redirect);
    assert!(r.common_data.background);
    assert!(r.common_data.multipart);
    assert!(r.common_data.gauge);
    assert!(r.common_data.precise);
    assert_eq!(r.common_data.index, 1);
    assert_eq!(r.common_data.begins, 12);
    assert_eq!(r.common_data.ends, -1);
    assert_eq!(r.common_data.priority, 3);
    assert_eq!(r.common_data.min_speed.speed, 10);
    assert_eq!(r.common_data.min_speed.duration, 20);
    assert_eq!(r.common_data.timeout.connection_timeout, 30);
    assert_eq!(r.common_data.timeout.total_timeout, 40);
    assert_eq!(r.certs_path, vec!["/etc/cert"]);
    assert_eq!(r.form_items.len(), 1);
    assert_eq!(r.form_items[0].name, "field");
    assert_eq!(r.form_items[0].value, "value");
    assert_eq!(r.file_specs.len(), 2);
    assert!(r.file_specs[0].is_user_file);
    assert_eq!(r.file_specs[0].fd, Some(5));
    assert!(!r.file_specs[1].is_user_file);
    assert_eq!(r.file_specs[1].fd, None);
    assert_eq!(r.file_specs[1].path, "/data/storage/el1/base/b.bin");
    assert_eq!(r.file_specs[1].file_name, "b.bin");
    assert_eq!(r.file_specs[1].mime_type, "application/octet-stream");
    assert_eq!(r.body_file_paths, vec!["/data/storage/el1/base/body"]);
    assert_eq!(r.headers.len(), 2);
    assert_eq!(r.headers.get("Content-Type").unwrap(), "multipart/form-data");
    assert_eq!(r.headers.get("X-A").unwrap(), "1");
    assert_eq!(r.extras.get("k").unwrap(), "v");
}

#[test]
fn account_is_taken_for_atomic_services_only() {
    let c = ConfigBuilder::new().build();
    let mut parcel = MsgParcel::new();
    serialize(&c, &mut parcel).unwrap();
    let r = deserialize(&mut parcel, &caller()).unwrap();
    assert_eq!(r.atomic_account, "");
    assert_eq!(r.bundle, "com.example.app");
}

#[test]
fn message_that_ends_early_is_refused() {
    let c = full_config();
    let mut whole = MsgParcel::new();
    serialize(&c, &mut whole).unwrap();
    let total = whole.readable();
    assert_eq!(total, 57);

    let mut parcel = MsgParcel::new();
    parcel.write_u32(0);
    assert_eq!(deserialize(&mut parcel, &caller()).err(), Some(IpcStatusCode::Failed));
    let mut empty = MsgParcel::new();
    assert!(deserialize(&mut empty, &caller()).is_err());
}

#[test]
fn count_above_what_is_left_is_refused() {
    let c = ConfigBuilder::new().build();
    let mut good = MsgParcel::new();
    serialize(&c, &mut good).unwrap();
    // the head, then six counts of zero
    assert_eq!(good.readable(), 36);

    let mut bad = MsgParcel::new();
    for _ in 0..30 {
        match good.read_u32() {
            Ok(v) => bad.write_u32(v),
            Err(_) => match good.read_bool() {
                Ok(v) => bad.write_bool(v),
                Err(_) => match good.read_i64() {
                    Ok(v) => bad.write_i64(v),
                    Err(_) => match good.read_u64() {
                        Ok(v) => bad.write_u64(v),
                        Err(_) => bad.write_text(&good.read_text().unwrap()),
                    },
                },
            },
        }
    }
    bad.write_u32(1000);
    for _ in 0..5 {
        bad.write_u32(0);
    }
    assert!(deserialize(&mut bad, &caller()).is_err());
}

#[test]
fn negative_descriptor_is_refused() {
    let mut c = ConfigBuilder::new().build();
    c.file_specs.push(FileSpec::user_file(-1));
    let mut parcel = MsgParcel::new();
    serialize(&c, &mut parcel).unwrap();
    assert!(deserialize(&mut parcel, &caller()).is_err());
}

#[test]
fn user_file_without_descriptor_cannot_be_written() {
    let mut c = ConfigBuilder::new().build();
    let mut f = FileSpec::user_file(1);
    f.fd = None;
    c.file_specs.push(f);
    let mut parcel = MsgParcel::new();
    assert_eq!(serialize(&c, &mut parcel), Err(IpcStatusCode::Failed));
}

#[test]
fn parcel_reads_in_order_and_by_type() {
    let mut p = MsgParcel::new();
    p.write(ParcelItem::U32(1));
    p.write_bool(true);
    p.write_text(&"x".to_string());
    p.write_fd(4);
    assert_eq!(p.readable(), 4);
    assert!(p.read_bool().is_err());
    assert_eq!(p.readable(), 4);
    assert_eq!(p.read_u32(), Ok(1));
    assert_eq!(p.read_bool(), Ok(true));
    assert_eq!(p.read_text(), Ok("x".to_string()));
    assert_eq!(p.read_fd(), Ok(4));
    assert!(p.read_u32().is_err());
}
