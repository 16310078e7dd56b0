use quicklan::commands::{
    avatar_extension, clean_version, compare_versions, extract_http_host, extract_private_ipv4_host,
    ezmovie_response_body, ezmovie_stream_info, installer_size_error, is_release_download_url,
    is_supported_local_share_ipv4, parse_ipv4, ps_quote, resolve_ezmovie_lan_host,
    rewrite_http_url_host, select_installer_asset, update_info, validate_local_ezmovie_share_url,
    version_parts, EzmovieSession, GithubAsset, VersionOrder, game_room_name, parse_game_type,
    parse_visibility,
};
use quicklan::game_types::{GameRoomVisibility, GameType};

#[test]
fn versions_are_read_and_compared() {
    assert_eq!(clean_version(" v0.1.2 "), Some("0.1.2".to_string()));
    assert_eq!(clean_version("QuickLAN 1.10.0-beta"), Some("1.10.0".to_string()));
    assert_eq!(clean_version("v3"), None);
    assert_eq!(clean_version("release"), None);
    assert_eq!(version_parts("v1.2.x"), vec![1, 2, 0]);
    assert_eq!(version_parts("0.1.2"), vec![0, 1, 2]);
    assert_eq!(compare_versions("0.1.10", "0.1.2"), VersionOrder::Newer);
    assert_eq!(compare_versions("0.1.2", "0.1.10"), VersionOrder::Older);
    assert_eq!(compare_versions("1.0", "1.0.0"), VersionOrder::Same);
}

fn asset(name: &str) -> GithubAsset {
    GithubAsset {
        name: name.to_string(),
        browser_download_url: format!("https://github.com/x/{name}"),
        size: 42,
    }
}

#[test]
fn installers_are_picked_by_name() {
    let assets = vec![asset("notes.txt"), asset("Tool-Setup.exe"), asset("QuickLAN_0.2.0_x64-setup.exe")];
    assert_eq!(select_installer_asset(&assets).unwrap().name, "QuickLAN_0.2.0_x64-setup.exe");
    let assets = vec![asset("notes.txt"), asset("Tool-Setup.exe")];
    assert_eq!(select_installer_asset(&assets).unwrap().name, "Tool-Setup.exe");
    assert!(select_installer_asset(&vec![asset("a.zip")]).is_none());
}

#[test]
fn update_checks_report_newer_releases() {
    let assets = vec![asset("QuickLAN_0.2.0_x64-setup.exe")];
    let info = update_info("v0.2.0", None, false, false, Some("https://r".into()), &assets, "0.1.2").unwrap();
    assert!(info.update_available);
    assert_eq!(info.latest_version, "0.2.0");
    assert_eq!(info.asset_size, Some(42));
    let same = update_info("v0.1.2", None, false, false, None, &assets, "0.1.2").unwrap();
    assert!(!same.update_available);
    assert_eq!(same.asset_name, None);
    assert_eq!(
        update_info("v0.2.0", None, true, false, None, &assets, "0.1.2").unwrap_err(),
        "GitHub 最新发布不是正式版本，请稍后再试"
    );
    assert_eq!(
        update_info("latest", Some("QuickLAN 0.3.1"), false, false, None, &vec![], "0.1.2").unwrap_err(),
        "发现新版本，但 Release 中没有找到 Windows 安装包"
    );
    assert_eq!(
        update_info("latest", None, false, false, None, &assets, "0.1.2").unwrap_err(),
        "GitHub Release 中未找到可识别的版本号"
    );
    assert!(is_release_download_url("https://github.com/a"));
    assert!(!is_release_download_url("http://github.com/a"));
    assert_eq!(installer_size_error(0, None), Some("下载的安装包为空".to_string()));
    assert_eq!(
        installer_size_error(5, Some(7)),
        Some("安装包大小校验失败: expected 7, got 5".to_string())
    );
    assert_eq!(installer_size_error(5, Some(0)), None);
}

#[test]
fn hosts_are_read_from_urls() {
    assert_eq!(extract_http_host("http://192.168.1.5:18333/live").unwrap(), "192.168.1.5");
    assert_eq!(extract_http_host("https://example.com").unwrap(), "example.com");
    assert_eq!(extract_http_host("ftp://x").unwrap_err(), "ezmovie 共享地址必须是 http 或 https");
    assert_eq!(extract_http_host("http:///x").unwrap_err(), "ezmovie 直播地址缺少主机名");
    assert_eq!(
        rewrite_http_url_host("http://127.0.0.1:18333/a/b?c", "10.0.0.7"),
        "http://10.0.0.7:18333/a/b?c"
    );
    assert_eq!(rewrite_http_url_host("https://h/p", "x"), "https://x/p");
    assert_eq!(rewrite_http_url_host("rtmp://h/p", "x"), "rtmp://h/p");
    assert_eq!(ps_quote("it's"), "it''s");
}

#[test]
fn lan_addresses_are_checked() {
    assert_eq!(parse_ipv4("192.168.0.1"), Some((192, 168, 0, 1)));
    assert_eq!(parse_ipv4("192.168.00.1"), None);
    assert_eq!(parse_ipv4("256.1.1.1"), None);
    assert_eq!(parse_ipv4("1.2.3"), None);
    assert!(is_supported_local_share_ipv4(10, 1, 2, 3));
    assert!(is_supported_local_share_ipv4(172, 31, 0, 1));
    assert!(!is_supported_local_share_ipv4(172, 32, 0, 1));
    assert!(is_supported_local_share_ipv4(100, 64, 0, 1));
    assert!(is_supported_local_share_ipv4(115, 156, 214, 21));
    assert!(!is_supported_local_share_ipv4(8, 8, 8, 8));
    assert!(validate_local_ezmovie_share_url("http://192.168.1.2:18333/").is_ok());
    assert_eq!(
        validate_local_ezmovie_share_url("http://127.0.0.1:18333/").unwrap_err(),
        "该直播地址仅限本机访问，不能共享给局域网观众"
    );
    assert_eq!(
        validate_local_ezmovie_share_url("http://8.8.8.8/").unwrap_err(),
        "ezmovie 共享地址必须使用局域网 IPv4 地址"
    );
    assert_eq!(extract_private_ipv4_host("http://10.0.0.9:1/").unwrap(), "10.0.0.9");
    assert_eq!(
        resolve_ezmovie_lan_host(&Some("http://127.0.0.1/".into()), &None, &Some("http://10.1.1.1/".into())).unwrap(),
        "10.1.1.1"
    );
    assert_eq!(
        resolve_ezmovie_lan_host(&None, &None, &None).unwrap_err(),
        "ezmovie 共享地址必须使用局域网 IPv4 地址"
    );
}

#[test]
fn live_streams_are_offered_on_the_lan() {
    assert_eq!(ezmovie_response_body("HTTP/1.1 200 OK\r\n\r\n{\"a\":1}\r\n\r\nb"), Some("{\"a\":1}\r\n\r\nb".to_string()));
    assert_eq!(ezmovie_response_body("HTTP/1.0 200 OK\n\n{}"), Some("{}".to_string()));
    assert_eq!(ezmovie_response_body("HTTP/1.1 404 Not Found\r\n\r\n{}"), None);
    let session = EzmovieSession {
        active: true,
        url: Some("http://127.0.0.1:18333/".into()),
        preview_url: None,
        lan_preview_url: Some("http://192.168.3.4:18333/live".into()),
        room_id: Some("room".into()),
        stream_code: Some("c".into()),
    };
    let info = ezmovie_stream_info(&session).unwrap().unwrap();
    assert_eq!(info.url, "http://192.168.3.4:18333/");
    assert_eq!(info.quick_lan_import_url, "http://192.168.3.4:18333/");
    assert_eq!(info.lan_preview_url, "http://192.168.3.4:18333/");
    assert_eq!(info.room_id, "room");
    let mut idle = session.clone();
    idle.active = false;
    assert!(ezmovie_stream_info(&idle).unwrap().is_none());
    let mut no_room = session.clone();
    no_room.room_id = Some("  ".into());
    assert_eq!(ezmovie_stream_info(&no_room).unwrap_err(), "ezmovie 会话缺少房间 ID");
    let mut local_only = session;
    local_only.lan_preview_url = None;
    assert_eq!(ezmovie_stream_info(&local_only).unwrap_err(), "ezmovie 共享地址必须使用局域网 IPv4 地址");
}

#[test]
fn avatar_files_need_a_known_extension() {
    assert_eq!(avatar_extension(Some("JPEG")).unwrap(), "jpg");
    assert_eq!(avatar_extension(Some("png")).unwrap(), "png");
    assert_eq!(avatar_extension(Some("gif")).unwrap_err(), "头像文件需要 jpg、png 或 webp 格式");
    assert_eq!(avatar_extension(None).unwrap_err(), "头像文件需要 jpg、png 或 webp 格式");
}

#[test]
fn game_requests_from_the_window_are_checked() {
    assert_eq!(parse_game_type(None), Ok(None));
    assert_eq!(parse_game_type(Some("gomoku")), Ok(Some(GameType::Gomoku)));
    assert_eq!(parse_game_type(Some("chess")).unwrap_err(), "不支持的游戏类型: chess");
    assert_eq!(parse_visibility("public"), Ok(GameRoomVisibility::Public));
    assert_eq!(parse_visibility("password"), Ok(GameRoomVisibility::Password));
    assert_eq!(parse_visibility("secret").unwrap_err(), "无效的房间可见性");
    assert_eq!(game_room_name("  ".to_string(), "Ann"), "Ann 的五子棋房间");
    assert_eq!(game_room_name(" Duel ".to_string(), "Ann"), " Duel ");
}
