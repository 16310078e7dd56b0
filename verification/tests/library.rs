use quicklan::digest::{hex_lower, sha256_hex, sha256_text};
use quicklan::library::{
    check_share_password, clean_category, clean_device_note, clean_permission, default_library_settings,
    library_changed, next_share_version, normalize_speed, normalized_library_settings,
    normalized_password_for_storage, password_matches, removal_result,
    shares_to_deactivate, share_version_position, choose_download_source, latest_version, sort_share_items, DownloadSource,
    ReplicaCandidate,
};
use quicklan::protocol::{LibrarySettings, ManifestShare, ShareItem, ShareVersion};

const ABC: &str = "ba7816bf8f01cfea414140de5dae2223b00361a396177a9cb410ff61f20015ad";

#[test]
fn digests_are_lowercase_hex() {
    assert_eq!(sha256_text("abc"), ABC);

    assert_eq!(sha256_hex(b"abc"), ABC);
    assert_eq!(hex_lower(&[0x00, 0x0f, 0xa0, 0xff]), "000fa0ff");
    assert_eq!(hex_lower(&[]), "");
}

fn manifest_bytes() -> Vec<u8> {
    let mut version = serde_json::Map::new();
    version.insert("share_id".into(), "s1".into());
    version.insert("version".into(), 1.into());
    version.insert("file_hash".into(), "abc".into());
    version.insert("size".into(), 3.into());
    version.insert("created_at".into(), 1.into());
    let mut share = serde_json::Map::new();
    share.insert("share_id".into(), "s1".into());
    share.insert("name".into(), "a.txt".into());
    share.insert("category".into(), "文档".into());
    share.insert("permission".into(), "public".into());
    share.insert("password_hash".into(), serde_json::Value::Null);
    share.insert("owner_device_id".into(), "d1".into());
    share.insert("owner_name".into(), "pc".into());
    share.insert("latest_version".into(), 1.into());
    share.insert("versions".into(), serde_json::Value::Array(vec![serde_json::Value::Object(version)]));
    share.insert("download_count".into(), 0.into());
    share.insert("created_at".into(), 1.into());
    share.insert("updated_at".into(), 1.into());
    serde_json::to_vec(&serde_json::Value::Array(vec![serde_json::Value::Object(share)])).unwrap()
}

#[test]
fn manifest_hash_is_stable() {
    assert_eq!(sha256_hex(&manifest_bytes()), sha256_hex(&manifest_bytes()));
}

#[test]
fn categories_permissions_and_notes_are_cleaned() {
    assert_eq!(clean_category("  "), "其他");
    assert_eq!(clean_category(" 文档 "), "文档");
    assert_eq!(clean_category(&"a".repeat(40)).len(), 32);
    assert_eq!(clean_permission("password"), "password");
    assert_eq!(clean_permission("Password"), "public");
    assert_eq!(clean_permission(""), "public");
    assert_eq!(clean_device_note("  客厅电脑  "), "客厅电脑");
    assert_eq!(clean_device_note(&"字".repeat(50)).chars().count(), 48);
}

#[test]
fn password_shares_store_a_digest_that_matches() {
    let stored = normalized_password_for_storage("password", Some("  1234 ")).unwrap().unwrap();
    assert_eq!(stored, format!("sha256:{}", sha256_text("1234")));
    assert!(password_matches("1234", &stored));
    assert!(password_matches(" 1234  ", &stored));
    assert!(!password_matches("12345", &stored));
    assert_eq!(normalized_password_for_storage("public", Some("x")).unwrap(), None);
    assert_eq!(
        normalized_password_for_storage("password", Some("   ")).unwrap_err(),
        "密码共享必须设置访问密码"
    );
    assert_eq!(
        normalized_password_for_storage("password", None).unwrap_err(),
        "密码共享必须设置访问密码"
    );
    // a password kept as given is compared as it is
    assert!(password_matches(" plain ", "plain"));
    assert!(!password_matches("plain", "sha256"));
}

#[test]
fn share_passwords_are_checked_against_the_row() {
    let stored = normalized_password_for_storage("password", Some("pw")).unwrap().unwrap();
    assert!(check_share_password(Some(("public", None)), None).is_ok());
    assert!(check_share_password(Some(("password", Some(stored.as_str()))), Some("pw")).is_ok());
    assert_eq!(
        check_share_password(Some(("password", Some(stored.as_str()))), Some("no")).unwrap_err(),
        "密码错误"
    );
    assert_eq!(check_share_password(Some(("password", None)), Some("pw")).unwrap_err(), "密码错误");
    assert_eq!(check_share_password(Some(("password", Some("  "))), Some("pw")).unwrap_err(), "密码错误");
    assert_eq!(check_share_password(None, None).unwrap_err(), "共享资源不存在");
}

#[test]
fn speeds_and_settings_are_normalized() {
    assert_eq!(normalize_speed("50MB/s"), "50MB/s");
    assert_eq!(normalize_speed("5MB/s"), "unlimited");
    let defaults = default_library_settings();
    assert!(defaults.acceleration_enabled);
    assert_eq!(defaults.max_upload_speed, "unlimited");
    assert_eq!(defaults.max_upload_tasks, 3);
    assert_eq!(defaults.cache_limit_gb, 50);
    let s = normalized_library_settings(LibrarySettings {
        acceleration_enabled: false,
        max_upload_speed: "1GB/s".to_string(),
        max_upload_tasks: 9,
        cache_limit_gb: 1,
    });
    assert!(!s.acceleration_enabled);
    assert_eq!(s.max_upload_speed, "unlimited");
    assert_eq!(s.max_upload_tasks, 5);
    assert_eq!(s.cache_limit_gb, 10);
    let again = normalized_library_settings(s.clone());
    assert_eq!(again.max_upload_tasks, s.max_upload_tasks);
    assert_eq!(again.cache_limit_gb, s.cache_limit_gb);
    assert_eq!(again.max_upload_speed, s.max_upload_speed);
}

#[test]
fn library_changes_and_stale_shares() {
    assert!(library_changed(None, 1, "h"));
    assert!(!library_changed(Some((1, "h")), 1, "h"));
    assert!(library_changed(Some((1, "h")), 2, "h"));
    assert!(library_changed(Some((1, "h")), 1, "g"));
    let active = vec!["a".to_string(), "b".to_string(), "c".to_string()];
    let listed = vec!["b".to_string()];
    assert_eq!(shares_to_deactivate(&active, &listed), vec!["a".to_string(), "c".to_string()]);
    assert_eq!(next_share_version(Some(4)).unwrap(), 5);
    assert_eq!(next_share_version(None).unwrap_err(), "共享资源不存在");
    assert!(removal_result(1).is_ok());
    assert_eq!(removal_result(0).unwrap_err(), "共享资源不存在");
}

fn candidate(device: &str, version: i64, tasks: i64, latency: Option<i64>, local: bool, online: bool) -> ReplicaCandidate {
    ReplicaCandidate {
        source: DownloadSource {
            share_id: "s".to_string(),
            version,
            file_hash: format!("h{version}"),
            name: "f.bin".to_string(),
            size: 10,
            device_id: device.to_string(),
            device_name: device.to_string(),
            ip: "10.0.0.1".to_string(),
            tcp_port: 45455,
            api_port: 45457,
            is_local: local,
        },
        share_active: true,
        online,
        upload_tasks: tasks,
        latency_ms: latency,
    }
}

#[test]
fn download_source_prefers_newest_then_idle_then_fast_then_local() {
    let chosen = choose_download_source(vec![
        candidate("old", 1, 0, Some(1), true, true),
        candidate("busy", 2, 3, Some(1), false, true),
        candidate("slow", 2, 1, None, false, true),
        candidate("fast", 2, 1, Some(20), false, true),
        candidate("offline", 3, 0, Some(1), false, false),
    ])
    .unwrap();
    assert_eq!(chosen.device_id, "fast");
    let chosen = choose_download_source(vec![
        candidate("remote", 2, 0, Some(5), false, true),
        candidate("local", 2, 0, Some(5), true, true),
    ])
    .unwrap();
    assert_eq!(chosen.device_id, "local");
    let chosen = choose_download_source(vec![
        candidate("first", 2, 0, None, false, true),
        candidate("second", 2, 0, Some(999999), false, true),
    ])
    .unwrap();
    assert_eq!(chosen.device_id, "first");
    let mut inactive = candidate("gone", 4, 0, Some(1), false, true);
    inactive.share_active = false;
    assert_eq!(choose_download_source(vec![inactive]).unwrap_err(), "当前没有可用的在线副本节点");
    assert_eq!(choose_download_source(Vec::new()).unwrap_err(), "当前没有可用的在线副本节点");
}

fn version(n: i64) -> ShareVersion {
    ShareVersion { share_id: "s".to_string(), version: n, file_hash: format!("h{n}"), size: 1, created_at: n }
}

#[test]
fn latest_version_is_the_highest_or_one() {
    assert_eq!(latest_version(&Vec::new()), 1);
    assert_eq!(latest_version(&vec![version(2), version(5), version(3)]), 5);
}

fn share(name: &str, updated_at: i64) -> ShareItem {
    ShareItem {
        share_id: name.to_string(),
        name: name.to_string(),
        category: "其他".to_string(),
        permission: "public".to_string(),
        owner_device_id: "d".to_string(),
        owner_name: "pc".to_string(),
        latest_version: 1,
        file_hash: "h".to_string(),
        size: 1,
        created_at: 0,
        updated_at,
        download_count: 0,
        replica_count: 1,
        is_local: true,
        active: true,
    }
}

#[test]
fn shares_list_newest_first_then_by_name() {
    let sorted = sort_share_items(vec![share("b", 5), share("a", 5), share("c", 9), share("d", 1)]);
    let names: Vec<&str> = sorted.iter().map(|s| s.name.as_str()).collect();
    assert_eq!(names, vec!["c", "a", "b", "d"]);
}

fn manifest_share(id: &str, versions: &[i64]) -> ManifestShare {
    ManifestShare {
        share_id: id.to_string(),
        name: format!("{id}.bin"),
        category: "其他".to_string(),
        permission: "public".to_string(),
        password_hash: None,
        owner_device_id: "d".to_string(),
        owner_name: "pc".to_string(),
        latest_version: latest_version(&versions.iter().map(|n| version(*n)).collect()),
        versions: versions.iter().map(|n| version(*n)).collect(),
        download_count: 0,
        created_at: 0,
        updated_at: 0,
    }
}

#[test]
fn share_versions_are_found_in_the_manifest() {
    let shares = vec![manifest_share("a", &[1, 2]), manifest_share("b", &[1, 3, 4]), manifest_share("b", &[5])];
    assert_eq!(share_version_position(&shares, "b", 3), Some((1, 1)));
    assert_eq!(share_version_position(&shares, "a", 1), Some((0, 0)));
    assert_eq!(share_version_position(&shares, "b", 5), None);
    assert_eq!(share_version_position(&shares, "c", 1), None);
    assert_eq!(shares[1].latest_version, 4);
}

#[test]
fn shares_of_equal_rank_keep_their_order() {
    let mut first = share("a", 5);
    first.share_id = "first".to_string();
    let mut second = share("a", 5);
    second.share_id = "second".to_string();
    let mut third = share("a", 5);
    third.share_id = "third".to_string();
    let sorted = sort_share_items(vec![first, share("z", 7), second, third]);
    let ids: Vec<&str> = sorted.iter().map(|s| s.share_id.as_str()).collect();
    assert_eq!(ids, vec!["z", "first", "second", "third"]);
}
