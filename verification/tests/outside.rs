use pc_sharer::clipboard::{clipboard_file_name, clipboard_image};
use pc_sharer::clock::{now_ms, to_millis};
use pc_sharer::config::{app_info, load_config, StoredConfig};
use pc_sharer::devices::list_devices;
use pc_sharer::ids::{fresh_id, id_or_fresh};
use pc_sharer::locations::{config_dir, default_device_name, default_inbox_dir, BaseDir, KnownDirs};
use pc_sharer::model::{Config, DeviceSnapshot};
use pc_sharer::paths::Platform;

fn device(id: &str, name: &str, is_manual: bool) -> DeviceSnapshot {
    DeviceSnapshot {
        id: id.to_string(),
        name: name.to_string(),
        ip: "10.0.0.1".to_string(),
        tcp_port: 53343,
        platform: "linux".to_string(),
        last_seen_ms: 0,
        is_manual,
        is_trusted: false,
    }
}

const NOTHING: KnownDirs = KnownDirs {
    local_app_data: false,
    app_data: false,
    user_profile: false,
    xdg_config_home: false,
    home: false,
};

#[test]
fn fresh_ids_are_random_uuids() {
    let id = fresh_id();
    let parsed = uuid::Uuid::parse_str(&id).unwrap();
    assert_eq!(parsed.get_version_num(), 4);
    assert_eq!(parsed.to_string(), id);
    assert_eq!(id.len(), 36);
    assert_ne!(fresh_id(), id);
}

#[test]
fn a_given_id_is_kept() {
    assert_eq!(id_or_fresh(Some("t-1".to_string())), "t-1");
    assert_eq!(id_or_fresh(None).len(), 36);
}

#[test]
fn an_image_needs_four_bytes_for_each_pixel() {
    let image = clipboard_image(2, 1, vec![1, 2, 3, 4, 5, 6, 7, 8]).unwrap();
    assert_eq!((image.width, image.height), (2, 1));
    assert_eq!(image.bytes, vec![1, 2, 3, 4, 5, 6, 7, 8]);
    let error = clipboard_image(2, 1, vec![0; 7]).unwrap_err();
    assert_eq!(error, "剪贴板图片像素格式异常");
    assert_eq!(clipboard_image(1, 1, vec![0; 9]).unwrap().bytes.len(), 9);
    assert_eq!(clipboard_image(0, 5, Vec::new()).unwrap().width, 0);
}

#[test]
fn the_size_of_an_image_is_taken_modulo_its_range() {
    let image = clipboard_image(0x1_0000_0001, 1, vec![9, 9, 9, 9]).unwrap();
    assert_eq!((image.width, image.height), (1, 1));
}

#[test]
fn a_clipboard_image_is_named_by_its_time() {
    assert_eq!(clipboard_file_name(1_700_000_000_123), "clipboard-1700000000123.png");
}

#[test]
fn time_is_counted_in_whole_milliseconds() {
    assert_eq!(to_millis(Some((3, 4_999_999))), 3004);
    assert_eq!(to_millis(None), 0);
    let first = now_ms();
    let second = now_ms();
    assert!(first > 1_577_836_800_000);
    assert!(second >= first);
    assert!(second - first < 60_000);
}

#[test]
fn names_are_listed_without_regard_to_case() {
    let devices = vec![
        device("1", "beta", false),
        device("2", "Alpha", true),
        device("3", "ALPHA", false),
        device("4", "Gamma", false),
        device("5", "Über", false),
        device("6", "übel", false),
    ];
    let listed: Vec<String> = list_devices(&devices).into_iter().map(|d| d.id).collect();
    assert_eq!(listed, vec!["3", "1", "4", "6", "5", "2"]);
}

#[test]
fn settings_are_kept_where_the_platform_keeps_them() {
    let all = KnownDirs {
        local_app_data: true,
        app_data: true,
        user_profile: true,
        xdg_config_home: true,
        home: true,
    };
    let windows = config_dir(Platform::Windows, all).unwrap();
    assert_eq!(windows.base, BaseDir::LocalAppData);
    assert_eq!(windows.parts, vec!["PCSharer"]);
    let roaming = config_dir(Platform::Windows, KnownDirs { local_app_data: false, ..all }).unwrap();
    assert_eq!(roaming.base, BaseDir::AppData);
    let profile = KnownDirs { user_profile: true, ..NOTHING };
    assert_eq!(config_dir(Platform::Windows, profile).unwrap().base, BaseDir::UserProfile);
    let mac = config_dir(Platform::MacOs, all).unwrap();
    assert_eq!(mac.base, BaseDir::Home);
    assert_eq!(mac.parts, vec!["Library", "Application Support", "PCSharer"]);
    let linux = config_dir(Platform::Other, all).unwrap();
    assert_eq!(linux.base, BaseDir::XdgConfigHome);
    assert_eq!(linux.parts, vec!["PCSharer"]);
    let home = config_dir(Platform::Other, KnownDirs { home: true, ..NOTHING }).unwrap();
    assert_eq!(home.base, BaseDir::Home);
    assert_eq!(home.parts, vec![".config", "PCSharer"]);
}

#[test]
fn without_a_known_directory_there_are_no_settings() {
    for platform in [Platform::Windows, Platform::MacOs, Platform::Other] {
        assert_eq!(config_dir(platform, NOTHING).unwrap_err(), "无法确定配置目录");
    }
    let home = KnownDirs { home: true, ..NOTHING };
    assert!(config_dir(Platform::Windows, home).is_err());
}

#[test]
fn the_inbox_is_in_the_downloads() {
    let both = KnownDirs { user_profile: true, home: true, ..NOTHING };
    let windows = default_inbox_dir(Platform::Windows, both);
    assert_eq!(windows.base, BaseDir::UserProfile);
    assert_eq!(windows.parts, vec!["Downloads", "PCSharer"]);
    assert_eq!(default_inbox_dir(Platform::Other, both).base, BaseDir::Home);
    let home = KnownDirs { home: true, ..NOTHING };
    assert_eq!(default_inbox_dir(Platform::Windows, home).base, BaseDir::Home);
    let none = default_inbox_dir(Platform::MacOs, NOTHING);
    assert_eq!(none.base, BaseDir::CurrentDir);
    assert_eq!(none.parts, vec!["PCSharer-Inbox"]);
}

#[test]
fn a_device_is_named_after_its_computer() {
    let pc = Some("DESK".to_string());
    let host = Some("host".to_string());
    assert_eq!(default_device_name(pc, host.clone()), "DESK");
    assert_eq!(default_device_name(None, host), "host");
    assert_eq!(default_device_name(None, None), "PC Sharer");
}

#[test]
fn the_first_settings_trust_nobody() {
    let config = Config::first_run("desk".to_string(), "/in".to_string());
    assert!(uuid::Uuid::parse_str(&config.device_id).is_ok());
    assert_eq!(config.device_name, "desk");
    assert_eq!(config.inbox_dir, "/in");
    assert!(config.trusted_device_ids.is_empty());
    let info = app_info(&config, Some("10.0.0.2".to_string()));
    assert_eq!(info.device_id, config.device_id);
    assert_eq!(info.local_ip, Some("10.0.0.2".to_string()));
    assert_eq!((info.tcp_port, info.udp_port), (53343, 53342));
}

#[test]
fn settings_come_back() {
    let first = load_config(StoredConfig::Absent, "desk".to_string(), "/in".to_string()).unwrap();
    assert!(first.is_new);
    assert_eq!((first.config.device_name.as_str(), first.config.inbox_dir.as_str()), ("desk", "/in"));
    let stored = StoredConfig::Stored { config: first.config.clone() };
    let again = load_config(stored, "other".to_string(), "/other".to_string()).unwrap();
    assert!(!again.is_new);
    assert_eq!(again.config.device_id, first.config.device_id);
    assert_eq!(again.config.device_name, "desk");
    assert_eq!(again.config.inbox_dir, "/in");
    assert!(again.config.trusted_device_ids.is_empty());
}

#[test]
fn settings_that_cannot_be_had_are_an_error() {
    let invalid = StoredConfig::Invalid { error: "eof".to_string() };
    let error = load_config(invalid, "desk".to_string(), "/in".to_string()).unwrap_err();
    assert_eq!(error, "解析配置失败: eof");
    let unreadable = StoredConfig::Unreadable { error: "denied".to_string() };
    let error = load_config(unreadable, "desk".to_string(), "/in".to_string()).unwrap_err();
    assert_eq!(error, "读取配置失败: denied");
}
