use studio_datastore::errors::StorageError;
use studio_datastore::info::{AppInfo, OsInfo, VersionInfo};
use studio_datastore::paths::{datastore_base_path, resolve_datastore_dir, resolve_entry_path};
use studio_datastore::text::encode_string;

#[test]
fn base_path_is_rooted_under_the_data_dir() {
    assert_eq!(
        datastore_base_path("/home/someone/.local/share/app"),
        String::from("/home/someone/.local/share/app/studio-datastores")
    );
}

#[test]
fn datastore_dir_resolves_for_valid_names() {
    let p = resolve_datastore_dir("/data", "notes").unwrap();
    assert_eq!(p, String::from("/data/studio-datastores/notes"));
}

#[test]
fn datastore_dir_rejects_invalid_names() {
    let e = resolve_datastore_dir("/data", "No!").unwrap_err();
    assert_eq!(e.code, Some(String::from("INVALID_NAME")));
    assert_eq!(e.message, String::from("datastore (No!) contains invalid characters"));
}

#[test]
fn entry_path_resolves_for_valid_names() {
    let p = resolve_entry_path("/data", "notes", "entry-one").unwrap();
    assert_eq!(p, String::from("/data/studio-datastores/notes/entry-one"));
}

#[test]
fn entry_path_checks_key_first() {
    let e = resolve_entry_path("/data", "Bad", "Worse").unwrap_err();
    assert_eq!(e.code, Some(String::from("INVALID_KEY")));
    let e = resolve_entry_path("/data", "Bad", "fine").unwrap_err();
    assert_eq!(e.code, Some(String::from("INVALID_NAME")));
}

#[test]
fn encode_string_yields_utf8_bytes() {
    assert_eq!(encode_string("abc"), vec![0x61, 0x62, 0x63]);
    assert_eq!(encode_string("\u{e9}"), vec![0xc3, 0xa9]);
    assert_eq!(encode_string(""), Vec::<u8>::new());
}

#[test]
fn io_error_carries_message_and_code() {
    let e = StorageError::io(String::from("permission denied"), Some(String::from("13")));
    assert_eq!(e.message, String::from("permission denied"));
    assert_eq!(e.code, Some(String::from("13")));
    let e = StorageError::io(String::from("disk unavailable"), None);
    assert_eq!(e.code, None);
}

#[test]
fn info_records_hold_plain_values() {
    let app = AppInfo {
        version: String::from("0.1.0"),
        name: String::from("studio"),
        platform: String::from("linux"),
        arch: String::from("x86_64"),
    };
    assert_eq!(app.platform, String::from("linux"));
    let ver = VersionInfo {
        version: String::from("0.1.0"),
        tauri_version: String::from("2.0.0"),
        rust_version: String::from("1.77"),
    };
    assert_eq!(ver.tauri_version, String::from("2.0.0"));
    let os = OsInfo {
        platform: String::from("linux"),
        arch: String::from("x86_64"),
        hostname: String::from("workstation"),
        pid: 4242,
    };
    assert_eq!(os.pid, 4242);
}
