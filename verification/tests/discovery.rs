use quicklan::discovery::{
    accepts_packet, avatar_or_previous, discovered_via_label, hint_applies, is_online, peer_hints, probe_packet_type,
    should_sync, sort_devices, stored_device_id, subnet_broadcast, CandidateSource, CandidateTable,
};
use quicklan::protocol::{DeviceInfo, DiscoveryPacket};
use quicklan::watch_loop::{PlayerProbe, VideoWatch, VIDEO_DETECT_TIMEOUT_MS};

fn packet(app: &str, version: u8, device_id: &str) -> DiscoveryPacket {
    DiscoveryPacket {
        app: app.to_string(),
        version,
        packet_type: "presence".to_string(),
        device_id: device_id.to_string(),
        device_name: "peer".to_string(),
        tcp_port: 45455,
        api_port: 45457,
        library_version: 0,
        share_count: 0,
        manifest_hash: String::new(),
        upload_tasks: 0,
        avatar_hash: None,
        known_peers: Vec::new(),
    }
}

fn device(name: &str, ip: &str, online: bool, is_local: bool) -> DeviceInfo {
    DeviceInfo {
        id: format!("{name}-{ip}"),
        name: name.to_string(),
        ip: ip.to_string(),
        tcp_port: 45455,
        api_port: 45457,
        online,
        last_seen_ms: 0,
        share_count: 0,
        library_version: 0,
        manifest_hash: String::new(),
        upload_tasks: 0,
        latency_ms: None,
        note: None,
        avatar_hash: None,
        is_local,
        is_known: false,
        discovered_via: None,
    }
}

#[test]
fn packets_from_others_of_this_app_are_taken() {
    assert!(packet("quicklan", 1, "peer").is_quicklan());
    assert!(accepts_packet(&packet("quicklan", 1, "peer"), "me"));
    assert!(!accepts_packet(&packet("quicklan", 1, "me"), "me"));
    assert!(!accepts_packet(&packet("other", 1, "peer"), "me"));
    assert!(!accepts_packet(&packet("quicklan", 2, "peer"), "me"));
}

#[test]
fn sources_merge_towards_manual() {
    let manual = CandidateSource::Manual;
    let introduced = CandidateSource::Introduced;
    assert_eq!(manual.merge(introduced), manual);
    assert_eq!(introduced.merge(manual), manual);
    assert_eq!(introduced.merge(introduced), introduced);
    assert_eq!(discovered_via_label(Some(manual)), "manual");
    assert_eq!(discovered_via_label(Some(introduced)), "introduced");
    assert_eq!(discovered_via_label(None), "broadcast");
}

#[test]
fn sync_and_probe_decisions() {
    assert!(should_sync("library", false, None));
    assert!(!should_sync("presence", false, None));
    assert!(should_sync("presence", true, None));
    assert!(should_sync("presence", false, Some(CandidateSource::Introduced)));
    assert!(!should_sync("probe", true, None));
    assert!(should_sync("probe", false, Some(CandidateSource::Manual)));
    assert_eq!(probe_packet_type(true, 3), "library");
    assert_eq!(probe_packet_type(false, 8), "library");
    assert_eq!(probe_packet_type(false, 9), "presence");
}

#[test]
fn online_window_and_broadcast_address() {
    assert!(is_online(0));
    assert!(is_online(7_999));
    assert!(!is_online(8_000));
    let ip = u32::from_be_bytes([192, 168, 1, 20]);
    let mask = u32::from_be_bytes([255, 255, 255, 0]);
    assert_eq!(subnet_broadcast(ip, mask).to_be_bytes(), [192, 168, 1, 255]);
}

#[test]
fn stored_ids_hints_and_avatars() {
    assert_eq!(stored_device_id("  abc \n"), Some("abc".to_string()));
    assert_eq!(stored_device_id(" \n"), None);
    assert!(hint_applies("c", "me", "b"));
    assert!(!hint_applies("me", "me", "b"));
    assert!(!hint_applies("b", "me", "b"));
    assert_eq!(avatar_or_previous(Some("new".to_string()), Some("old".to_string())), Some("new".to_string()));
    assert_eq!(avatar_or_previous(None, Some("old".to_string())), Some("old".to_string()));
    assert_eq!(avatar_or_previous(None, None), None);
}

#[test]
fn devices_are_listed_local_first_then_online_then_by_name() {
    let sorted = sort_devices(vec![
        device("zed", "10.0.0.3", true, false),
        device("amy", "10.0.0.9", false, false),
        device("bob", "10.0.0.2", true, false),
        device("me", "10.0.0.1", true, true),
        device("bob", "10.0.0.1", true, false),
    ]);
    let order: Vec<String> = sorted.iter().map(|d| format!("{}@{}", d.name, d.ip)).collect();
    assert_eq!(order, vec!["me@10.0.0.1", "bob@10.0.0.1", "bob@10.0.0.2", "zed@10.0.0.3", "amy@10.0.0.9"]);
}

#[test]
fn candidate_table_remembers_each_address_once() {
    let mut table = CandidateTable::new();
    table.remember("10.0.0.5", CandidateSource::Introduced);
    table.remember("10.0.0.6", CandidateSource::Manual);
    table.remember("10.0.0.5", CandidateSource::Manual);
    table.remember("10.0.0.6", CandidateSource::Introduced);
    assert_eq!(table.source_for("10.0.0.5"), Some(CandidateSource::Manual));
    assert_eq!(table.source_for("10.0.0.6"), Some(CandidateSource::Manual));
    assert_eq!(table.source_for("10.0.0.7"), None);
    let targets = table.targets();
    assert_eq!(targets.len(), 2);
    assert_eq!(targets[0].0, "10.0.0.5");
    table.consume("10.0.0.5");
    assert_eq!(table.source_for("10.0.0.5"), None);
    assert_eq!(table.targets().len(), 1);
}

#[test]
fn video_watch_follows_the_page() {
    let mut watch = VideoWatch::new();
    assert!(!watch.has_url());
    let (changed, status) = watch.url_seen(None, 0);
    assert!(!changed);
    assert!(status.is_none());
    let (changed, status) = watch.url_seen(Some("https://v".to_string()), 1_000);
    assert!(changed);
    assert_eq!(status.unwrap().0, "detecting");
    assert!(watch.has_url());
    let (status, sync) = watch.probed(PlayerProbe::NoPlayer, 2_000);
    assert!(status.is_none());
    assert!(!sync);
    let (status, _) = watch.probed(PlayerProbe::NoPlayer, 1_000 + VIDEO_DETECT_TIMEOUT_MS);
    assert_eq!(status.unwrap().0, "missing");
    let (status, _) = watch.probed(PlayerProbe::NoPlayer, 2_000 + VIDEO_DETECT_TIMEOUT_MS);
    assert!(status.is_none());
    let (status, sync) = watch.probed(PlayerProbe::Player, 40_000);
    assert_eq!(status.unwrap(), ("ready".to_string(), "已检测到网页播放器，播放同步已就绪。".to_string()));
    assert!(!sync);
    let (status, sync) = watch.probed(PlayerProbe::Player, 41_000);
    assert!(status.is_none());
    assert!(sync);
    let (status, sync) = watch.probed(PlayerProbe::NoAnswer, 42_000);
    assert_eq!(status.unwrap().1, "正在重新连接网页播放器…");
    assert!(!sync);
    let (changed, status) = watch.url_seen(None, 43_000);
    assert!(changed);
    assert_eq!(status.unwrap().0, "empty");
}

#[test]
fn packets_introduce_up_to_six_online_peers() {
    let mut devices = vec![device("me", "10.0.0.1", true, true), device("target", "10.0.0.2", true, false)];
    devices.push(device("off", "10.0.0.3", false, false));
    for n in 0..8 {
        devices.push(device(&format!("p{n}"), &format!("10.0.1.{n}"), true, false));
    }
    let own = devices[0].id.clone();
    let target = devices[1].id.clone();
    let hints = peer_hints(&devices, &own, &target);
    assert_eq!(hints.len(), 6);
    assert_eq!(hints[0].ip, "10.0.1.0");
    assert_eq!(hints[5].device_name, "p5");
    assert_eq!(hints[5].tcp_port, 45455);
    let few = peer_hints(&devices[..4].to_vec(), &own, &target);
    assert_eq!(few.len(), 1);
    assert_eq!(few[0].device_name, "p0");
}

#[test]
fn devices_of_equal_rank_keep_their_order() {
    let mut first = device("bob", "10.0.0.2", true, false);
    first.id = "first".to_string();
    let mut second = device("bob", "10.0.0.2", true, false);
    second.id = "second".to_string();
    let mut third = device("bob", "10.0.0.2", true, false);
    third.id = "third".to_string();
    let sorted = sort_devices(vec![first, device("amy", "10.0.0.5", true, false), second, third]);
    let ids: Vec<&str> = sorted.iter().map(|d| d.id.as_str()).collect();
    assert_eq!(ids, vec!["amy-10.0.0.5", "first", "second", "third"]);
}
