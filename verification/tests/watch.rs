use quicklan::watch::{
    hash_required_password, hash_text, join_key, normalize_title, system_message, system_message_at,
    validate_watch_url, watch_content_webview_label, watch_window_label, CreateWatchRoomInput,
    WatchJoinResult, WatchRoom, WatchRoomChatEnvelope, WatchRoomCreateMessage, WatchRoomEndMessage,
    WatchRoomLeaveMessage, WatchRoomStateMessage, WatchRoomStatus, WatchRoomUrlUpdateMessage,
};
use quicklan::watch_state::{ended_rooms, sort_newest_first, JoinStep, WatchExit, WatchRooms};

const PW_DIGEST: &str = "sha256:30c952fab122c3f9759f02a6d95c3758b246b4fee239957b2d4fee46e26170c4";

fn private_input(password: Option<&str>) -> CreateWatchRoomInput {
    CreateWatchRoomInput {
        title: " Movie ".to_string(),
        is_private: true,
        password: password.map(|p| p.to_string()),
    }
}

fn bare_room(id: &str, created_at: i64) -> WatchRoom {
    WatchRoom {
        room_id: id.to_string(),
        host_user_id: "h".to_string(),
        host_name: "Host".to_string(),
        title: id.to_string(),
        url: None,
        has_video_url: false,
        is_private: false,
        password_hash: None,
        member_count: 1,
        status: WatchRoomStatus::Active,
        created_at,
        updated_at: created_at,
    }
}

#[test]
fn helper_texts() {
    assert_eq!(join_key("r", "u"), "r:u");
    assert_eq!(normalize_title("  Film night ", "Ann"), "Film night");
    assert_eq!(normalize_title("   ", " Ann "), "Ann 的观影房间");
    let long: String = std::iter::repeat('t').take(80).collect();
    assert_eq!(normalize_title(&long, "x").chars().count(), 64);
    assert_eq!(watch_window_label("r1"), "watch-room-r1");
    assert_eq!(watch_content_webview_label("r1"), "watch-content-r1");
}

#[test]
fn watch_urls_are_checked() {
    assert_eq!(validate_watch_url(" https://example.com/v ").unwrap(), "https://example.com/v");
    assert_eq!(validate_watch_url("http://a.b").unwrap(), "http://a.b");
    assert_eq!(validate_watch_url("ftp://a.b/c").unwrap_err(), "仅支持 http/https 视频网页链接");
    assert_eq!(validate_watch_url("not a url").unwrap_err(), "视频网页链接无效");
    assert_eq!(validate_watch_url("").unwrap_err(), "视频网页链接无效");
}

#[test]
fn passwords_are_hashed() {
    assert_eq!(hash_text("pw"), PW_DIGEST);
    assert_eq!(hash_required_password(Some("  pw  ")).unwrap(), PW_DIGEST);
    assert_eq!(hash_required_password(Some("   ")).unwrap_err(), "密码房间必须设置密码");
    assert_eq!(hash_required_password(None).unwrap_err(), "密码房间必须设置密码");
}

#[test]
fn system_messages() {
    let m = system_message_at("r", "系统", "hello", "id1".to_string(), 9);
    assert!(m.system);
    assert_eq!(m.sender_user_id, "system");
    assert_eq!(m.message_id, "id1");
    assert_eq!(m.created_at, 9);
    let fresh = system_message("r", "系统", "x");
    assert_eq!(fresh.message_id.len(), 36);
    assert!(fresh.created_at > 0);
}

#[test]
fn rooms_sort_newest_first() {
    let sorted = sort_newest_first(vec![bare_room("a", 1), bare_room("b", 3), bare_room("c", 2), bare_room("d", 3)]);
    let ids: Vec<&str> = sorted.iter().map(|r| r.room_id.as_str()).collect();
    assert_eq!(ids, vec!["b", "d", "c", "a"]);
}

#[test]
fn creating_rooms() {
    let mut host = WatchRooms::new("h".to_string());
    assert_eq!(host.local_user_id(), "h");
    let refused = host.create_room_at(private_input(Some("  ")), "Host", "r0".to_string(), 1, "m0".to_string());
    assert_eq!(refused.unwrap_err(), "密码房间必须设置密码");
    let session = host
        .create_room_at(private_input(Some("pw")), "Host", "r1".to_string(), 100, "m1".to_string())
        .unwrap();
    assert!(session.is_host);
    assert_eq!(session.room.title, "Movie");
    assert_eq!(session.room.member_count, 1);
    assert_eq!(session.room.password_hash.as_deref(), Some(PW_DIGEST));
    assert_eq!(session.room.status, WatchRoomStatus::Active);
    let messages = host.list_messages("r1").unwrap();
    assert_eq!(messages.len(), 1);
    assert!(messages[0].system);
    assert_eq!(messages[0].body, "房间已创建，房主可以在房间内随时设置视频链接。");
    assert_eq!(host.list_messages("zz").unwrap_err(), "观影房间不存在");
    assert_eq!(host.window_close_target("main"), Some(("r1".to_string(), true)));
    assert_eq!(host.window_close_target("other"), None);
    let open = CreateWatchRoomInput { title: String::new(), is_private: false, password: None };
    let fresh = host.create_room(open, "Host").unwrap();
    assert_eq!(fresh.room.title, "Host 的观影房间");
    assert_eq!(fresh.room.room_id.len(), 36);
}

#[test]
fn joining_a_private_room() {
    let mut host = WatchRooms::new("h".to_string());
    let session = host
        .create_room_at(private_input(Some("pw")), "Host", "r1".to_string(), 100, "m1".to_string())
        .unwrap();
    let mut guest = WatchRooms::new("g".to_string());
    guest.accept_remote_create(WatchRoomCreateMessage {
        message_type: "watch_room_create".to_string(),
        room: session.room.clone(),
    });
    assert_eq!(guest.begin_join("nope", None, true, "Guest").unwrap_err(), "观影房间不存在");
    assert_eq!(guest.begin_join("r1", Some("pw"), false, "Guest").unwrap_err(), "房主当前不在线");
    assert_eq!(guest.begin_join("r1", None, true, "Guest").unwrap_err(), "请输入房间密码");
    assert_eq!(guest.begin_join("r1", Some("bad"), true, "Guest").unwrap_err(), "密码错误");
    let request = match guest.begin_join("r1", Some("pw"), true, "Guest").unwrap() {
        JoinStep::Request(request) => request,
        JoinStep::Ready(_) => panic!("expected a request"),
    };
    assert_eq!(request.password_hash.as_deref(), Some(PW_DIGEST));
    assert_eq!(request.user_id, "g");

    let mut wrong = request.clone();
    wrong.password_hash = Some("sha256:00".to_string());
    let refused = host.accept_join_request_at(&wrong, 105, "mx".to_string()).unwrap().unwrap();
    assert!(!refused.result.accepted);
    assert_eq!(refused.result.reason.as_deref(), Some("密码错误"));
    assert!(refused.joined.is_none());

    let answer = host.accept_join_request_at(&request, 110, "m2".to_string()).unwrap().unwrap();
    assert!(answer.result.accepted);
    let (room, note) = answer.joined.unwrap();
    assert_eq!(room.member_count, 2);
    assert_eq!(note.body, "Guest 加入了房间。");
    assert_eq!(guest.accept_join_request_at(&request, 110, "m9".to_string()).unwrap().is_none(), true);

    let refusal = WatchJoinResult {
        room_id: "r1".to_string(),
        target_user_id: "g".to_string(),
        accepted: false,
        reason: Some("密码错误".to_string()),
    };
    assert_eq!(guest.finish_join_at("r1", &refusal, "Guest", 111, "m3".to_string()).unwrap_err(), "密码错误");
    let (joined, joined_note) = guest
        .finish_join_at("r1", &answer.result, "Guest", 111, "m3".to_string())
        .unwrap();
    assert!(!joined.is_host);
    assert_eq!(joined_note.body, "Guest 加入了房间。");
    assert!(guest.get_session("r1").is_some());
    match guest.begin_join("r1", None, true, "Guest").unwrap() {
        JoinStep::Ready(s) => assert_eq!(s.room.room_id, "r1"),
        JoinStep::Request(_) => panic!("already open"),
    }
}

#[test]
fn chatting_updating_and_leaving() {
    let mut host = WatchRooms::new("h".to_string());
    let session = host
        .create_room_at(private_input(Some("pw")), "Host", "r1".to_string(), 100, "m1".to_string())
        .unwrap();
    let mut guest = WatchRooms::new("g".to_string());
    guest.accept_remote_create(WatchRoomCreateMessage {
        message_type: "watch_room_create".to_string(),
        room: session.room.clone(),
    });
    assert_eq!(
        guest.send_room_message_at("r1", "hi", "Guest", "c0".to_string(), 101).unwrap_err(),
        "你尚未加入该观影房间"
    );
    let request = match guest.begin_join("r1", Some("pw"), true, "Guest").unwrap() {
        JoinStep::Request(request) => request,
        JoinStep::Ready(_) => panic!("expected a request"),
    };
    let answer = host.accept_join_request_at(&request, 110, "m2".to_string()).unwrap().unwrap();
    guest.finish_join_at("r1", &answer.result, "Guest", 111, "m3".to_string()).unwrap();

    assert_eq!(guest.send_room_message_at("r1", "  ", "Guest", "c1".to_string(), 112).unwrap_err(), "消息不能为空");
    let sent = guest.send_room_message_at("r1", " hi ", "Guest", "c1".to_string(), 112).unwrap();
    assert_eq!(sent.body, "hi");
    assert!(!sent.system);
    let kept = host.accept_chat_message(WatchRoomChatEnvelope {
        message_type: "watch_room_chat".to_string(),
        message: sent.clone(),
    });
    assert_eq!(kept.unwrap().body, "hi");
    let mut stranger = WatchRooms::new("s".to_string());
    stranger.accept_remote_create(WatchRoomCreateMessage {
        message_type: "watch_room_create".to_string(),
        room: session.room.clone(),
    });
    let ignored = stranger.accept_chat_message(WatchRoomChatEnvelope {
        message_type: "watch_room_chat".to_string(),
        message: sent,
    });
    assert!(ignored.is_none());

    assert_eq!(
        host.update_room_url_at("r1", "ftp://x/y", 120, "u0".to_string()).unwrap_err(),
        "仅支持 http/https 视频网页链接"
    );
    assert_eq!(
        guest.update_room_url_at("r1", "https://v.example/1", 120, "u0".to_string()).unwrap_err(),
        "只有房主可以更新视频链接"
    );
    let updated = host.update_room_url_at("r1", " https://v.example/1 ", 120, "u1".to_string()).unwrap();
    assert_eq!(updated.room.url.as_deref(), Some("https://v.example/1"));
    assert!(updated.room.has_video_url);
    assert_eq!(updated.room.updated_at, 120);
    assert_eq!(updated.message.body, "房主更新了视频链接，房间将自动切换到新页面。");
    assert!(updated.session.is_some());

    let forged = guest
        .accept_url_update(WatchRoomUrlUpdateMessage {
            message_type: "watch_room_url_update".to_string(),
            room_id: "r1".to_string(),
            host_user_id: "x".to_string(),
            url: "https://evil".to_string(),
            updated_at: 121,
        })
        .unwrap();
    assert!(forged.is_none());
    let applied = guest
        .accept_url_update(WatchRoomUrlUpdateMessage {
            message_type: "watch_room_url_update".to_string(),
            room_id: "r1".to_string(),
            host_user_id: "h".to_string(),
            url: "https://v.example/1".to_string(),
            updated_at: 121,
        })
        .unwrap()
        .unwrap();
    assert_eq!(applied.url.as_deref(), Some("https://v.example/1"));

    assert_eq!(host.list_rooms(&Vec::new()).len(), 1);
    assert_eq!(guest.list_rooms(&Vec::new()).len(), 0);
    assert_eq!(guest.list_rooms(&vec!["h".to_string()]).len(), 1);

    match guest.leave_room_at("r1", 130).unwrap() {
        WatchExit::Left(room) => assert_eq!(room.room_id, "r1"),
        WatchExit::Ended(_) => panic!("a guest does not end the room"),
    }
    assert!(guest.get_session("r1").is_none());
    let dropped = host
        .accept_leave_at(
            &WatchRoomLeaveMessage {
                message_type: "watch_room_leave".to_string(),
                room_id: "r1".to_string(),
                user_id: "g".to_string(),
            },
            131,
        )
        .unwrap()
        .unwrap();
    assert_eq!(dropped.member_count, 1);

    assert_eq!(guest.end_room_at("r1", 140).unwrap_err(), "只有房主可以结束房间");
    let ended = host.end_room_at("r1", 140).unwrap();
    assert_eq!(ended.status, WatchRoomStatus::Ended);
    assert_eq!(host.list_messages("r1").unwrap_err(), "观影房间不存在");
    assert!(guest.accept_end(&WatchRoomEndMessage {
        message_type: "watch_room_end".to_string(),
        room_id: "r1".to_string(),
        host_user_id: "h".to_string(),
        reason: "ended".to_string(),
    }));
    assert_eq!(guest.list_messages("r1").unwrap_err(), "观影房间不存在");
}

#[test]
fn remote_state_replaces_the_room() {
    let mut guest = WatchRooms::new("g".to_string());
    let mut room = bare_room("r5", 10);
    guest.accept_remote_create(WatchRoomCreateMessage {
        message_type: "watch_room_create".to_string(),
        room: room.clone(),
    });
    room.title = "Renamed".to_string();
    let shown = guest.accept_remote_state(WatchRoomStateMessage {
        message_type: "watch_room_state".to_string(),
        room,
    });
    assert_eq!(shown.title, "Renamed");
    let listed = guest.list_rooms(&vec!["h".to_string()]);
    assert_eq!(listed[0].title, "Renamed");
}

#[test]
fn host_leaving_ends_the_room() {
    let mut host = WatchRooms::new("h".to_string());
    let open = CreateWatchRoomInput { title: "x".to_string(), is_private: false, password: None };
    host.create_room_at(open, "Host", "r2".to_string(), 5, "m".to_string()).unwrap();
    match host.leave_room_at("r2", 6).unwrap() {
        WatchExit::Ended(room) => assert_eq!(room.status, WatchRoomStatus::Ended),
        WatchExit::Left(_) => panic!("the host ends the room"),
    }
    assert_eq!(host.leave_room_at("r2", 7).unwrap_err(), "观影房间不存在");
}

#[test]
fn activation_tells_host_and_membership() {
    let mut host = WatchRooms::new("h".to_string());
    let open = CreateWatchRoomInput { title: "t".to_string(), is_private: false, password: None };
    let session = host.create_room_at(open, "Host", "r3".to_string(), 5, "m".to_string()).unwrap();
    let shown = host.activation("r3").unwrap();
    assert!(shown.is_host && shown.is_member);
    assert_eq!(shown.room.room_id, "r3");
    let mut guest = WatchRooms::new("g".to_string());
    guest.accept_remote_create(WatchRoomCreateMessage {
        message_type: "watch_room_create".to_string(),
        room: session.room.clone(),
    });
    let seen = guest.activation("r3").unwrap();
    assert!(!seen.is_host && !seen.is_member);
    assert_eq!(guest.activation("nope").unwrap_err(), "观影房间不存在");
}

#[test]
fn rooms_no_longer_hosted_are_the_ended_ones() {
    let previous: Vec<String> = ["a", "b", "c"].iter().map(|s| s.to_string()).collect();
    let hosted: Vec<String> = ["c", "d"].iter().map(|s| s.to_string()).collect();
    assert_eq!(ended_rooms(&previous, &hosted), vec!["a".to_string(), "b".to_string()]);
    assert!(ended_rooms(&Vec::new(), &hosted).is_empty());
    assert!(ended_rooms(&hosted, &hosted).is_empty());
}
