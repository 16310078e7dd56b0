use quicklan::chat::{
    chat_targets, clean_message, clean_room_name, contains_text, ensure_main_room, sort_rooms, unique_ids,
    ChatMessagePayload, ChatRoom, ChatService, LISTED_MESSAGES, MAIN_ROOM_ID,
};
use quicklan::protocol::DeviceInfo;
use quicklan::settings::{clean_nickname, normalize_settings, AppSettings, SettingsService};

fn room(id: &str, name: &str, owner: &str, created_at: i64) -> ChatRoom {
    ChatRoom {
        room_id: id.to_string(),
        name: name.to_string(),
        owner_device_id: owner.to_string(),
        member_ids: vec![owner.to_string()],
        is_main: false,
        created_at,
        deleted: false,
    }
}

fn strings(items: &[&str]) -> Vec<String> {
    items.iter().map(|s| s.to_string()).collect()
}

#[test]
fn new_service_adds_the_main_room() {
    let service = ChatService::new("me".to_string(), Vec::new(), Vec::new());
    let rooms = service.list_rooms();
    assert_eq!(rooms.len(), 1);
    assert_eq!(rooms[0].room_id, MAIN_ROOM_ID);
    assert!(rooms[0].is_main);
    assert_eq!(rooms[0].name, "主聊天室");
    assert_eq!(rooms[0].owner_device_id, "system");
}

#[test]
fn ensure_main_room_adds_it_once() {
    let mut rooms = vec![room("a", "A", "x", 5)];
    ensure_main_room(&mut rooms);
    assert_eq!(rooms.len(), 2);
    ensure_main_room(&mut rooms);
    assert_eq!(rooms.len(), 2);
    assert_eq!(rooms[1].room_id, "main");
}

#[test]
fn unique_ids_trims_and_drops_repeats() {
    let ids = unique_ids(strings(&[" a ", "b", "", "a", "  ", "c", "b"]));
    assert_eq!(ids, strings(&["a", "b", "c"]));
    assert!(contains_text(&ids, "b"));
    assert!(!contains_text(&ids, "d"));
}

#[test]
fn room_names_and_messages_are_cleaned() {
    assert_eq!(clean_room_name("  walk  ").unwrap(), "walk");
    assert_eq!(clean_room_name("   ").unwrap_err(), "聊天室名称不能为空");
    let long: String = std::iter::repeat('x').take(40).collect();
    assert_eq!(clean_room_name(&long).unwrap().chars().count(), 32);
    assert_eq!(clean_message(" hi ").unwrap(), "hi");
    assert_eq!(clean_message("\n\t").unwrap_err(), "消息不能为空");
    let body: String = std::iter::repeat('y').take(1200).collect();
    assert_eq!(clean_message(&body).unwrap().chars().count(), 1000);
}

#[test]
fn rooms_sort_main_first_then_oldest_then_name() {
    let mut main = room("main", "主聊天室", "system", 0);
    main.is_main = true;
    let sorted = sort_rooms(vec![
        room("c", "b-room", "x", 20),
        room("b", "a-room", "x", 20),
        main,
        room("a", "z-room", "x", 10),
    ]);
    let ids: Vec<&str> = sorted.iter().map(|c| c.room_id.as_str()).collect();
    assert_eq!(ids, vec!["main", "a", "b", "c"]);
}

#[test]
fn create_room_adds_owner_and_refuses_duplicates() {
    let mut service = ChatService::new("me".to_string(), Vec::new(), Vec::new());
    let created = service
        .create_room_at(" team ".to_string(), strings(&["p1", "p1", " p2 "]), "me".to_string(), 100, "r1".to_string())
        .unwrap();
    assert_eq!(created.name, "team");
    assert_eq!(created.member_ids, strings(&["p1", "p2", "me"]));
    assert_eq!(created.created_at, 100);
    assert!(service.is_local_member(&created));
    let again = service.create_room_at("team".to_string(), Vec::new(), "me".to_string(), 101, "r2".to_string());
    assert_eq!(again.unwrap_err(), "已存在同名聊天室");
    let blank = service.create_room_at("  ".to_string(), Vec::new(), "me".to_string(), 101, "r3".to_string());
    assert_eq!(blank.unwrap_err(), "聊天室名称不能为空");
    assert_eq!(service.list_rooms().len(), 2);
}

#[test]
fn create_room_with_fresh_id() {
    let mut service = ChatService::new("me".to_string(), Vec::new(), Vec::new());
    let created = service.create_room("games".to_string(), Vec::new(), "me".to_string()).unwrap();
    assert_eq!(created.room_id.len(), 36);
    assert!(created.created_at > 0);
    assert!(service.find_room(&created.room_id).is_some());
}

#[test]
fn delete_room_rules() {
    let mut service = ChatService::new("me".to_string(), vec![room("r1", "one", "owner", 1)], Vec::new());
    assert_eq!(service.delete_room("nope", "owner").unwrap_err(), "聊天室不存在");
    assert_eq!(service.delete_room("main", "owner").unwrap_err(), "主聊天室不能删除");
    assert_eq!(service.delete_room("r1", "someone").unwrap_err(), "只有创建者可以删除聊天室");
    let deleted = service.delete_room("r1", "owner").unwrap();
    assert!(deleted.deleted);
    assert!(service.find_room("r1").is_none());
    assert_eq!(service.delete_room("r1", "owner").unwrap_err(), "聊天室不存在");
    assert_eq!(service.rooms().len(), 2);
}

#[test]
fn remote_room_removal_marks_deleted() {
    let mut service = ChatService::new("me".to_string(), vec![room("r1", "one", "owner", 1)], Vec::new());
    service.remove_remote_room("r1");
    assert!(service.find_room("r1").is_none());
    service.remove_remote_room("unknown");
    assert_eq!(service.rooms().len(), 2);
}

#[test]
fn messages_are_posted_deduplicated_and_listed() {
    let mut service = ChatService::new("me".to_string(), Vec::new(), Vec::new());
    let posted = service
        .add_message_at(
            "main".to_string(),
            "me".to_string(),
            "Me".to_string(),
            None,
            "  hello ".to_string(),
            7,
            "m1".to_string(),
        )
        .unwrap();
    assert_eq!(posted.message.body, "hello");
    assert_eq!(posted.room.room_id, "main");
    let empty = service.add_message_at(
        "main".to_string(),
        "me".to_string(),
        "Me".to_string(),
        None,
        " ".to_string(),
        8,
        "m2".to_string(),
    );
    assert_eq!(empty.unwrap_err(), "消息不能为空");
    let missing = service.add_message_at(
        "nope".to_string(),
        "me".to_string(),
        "Me".to_string(),
        None,
        "x".to_string(),
        8,
        "m3".to_string(),
    );
    assert_eq!(missing.unwrap_err(), "聊天室不存在");
    let copy = ChatMessagePayload { room: posted.room.clone(), message: posted.message.clone() };
    service.accept_message(copy);
    assert_eq!(service.list_messages("main").len(), 1);
    assert_eq!(service.messages().len(), 1);
    let fresh = service
        .add_message("main".to_string(), "me".to_string(), "Me".to_string(), Some("h".to_string()), "again".to_string())
        .unwrap();
    assert_eq!(fresh.message.message_id.len(), 36);
    assert_eq!(service.list_messages("main").len(), 2);
}

#[test]
fn accepted_message_brings_its_room() {
    let mut service = ChatService::new("me".to_string(), Vec::new(), Vec::new());
    let mut other = ChatService::new("peer".to_string(), Vec::new(), Vec::new());
    other
        .create_room_at("side".to_string(), strings(&["me"]), "peer".to_string(), 3, "r9".to_string())
        .unwrap();
    let payload = other
        .add_message_at("r9".to_string(), "peer".to_string(), "Peer".to_string(), None, "yo".to_string(), 4, "m9".to_string())
        .unwrap();
    service.accept_message(payload);
    assert!(service.find_room("r9").is_some());
    assert_eq!(service.list_messages("r9")[0].body, "yo");
}

#[test]
fn listing_keeps_only_the_latest_messages() {
    let mut service = ChatService::new("me".to_string(), Vec::new(), Vec::new());
    for n in 0..(LISTED_MESSAGES + 5) {
        service
            .add_message_at(
                "main".to_string(),
                "me".to_string(),
                "Me".to_string(),
                None,
                format!("m{n}"),
                n as i64,
                format!("id{n}"),
            )
            .unwrap();
    }
    let listed = service.list_messages("main");
    assert_eq!(listed.len(), LISTED_MESSAGES);
    assert_eq!(listed[0].body, "m5");
    assert_eq!(listed[LISTED_MESSAGES - 1].body, format!("m{}", LISTED_MESSAGES + 4));
}

#[test]
fn accept_room_replaces_by_id() {
    let mut service = ChatService::new("me".to_string(), vec![room("r1", "one", "o", 1)], Vec::new());
    service.accept_room(room("r1", "renamed", "o", 1));
    assert_eq!(service.find_room("r1").unwrap().name, "renamed");
    assert_eq!(service.rooms().len(), 2);
}

#[test]
fn settings_nickname_is_cleaned() {
    assert_eq!(clean_nickname("  Alice  "), "Alice");
    let mut service = SettingsService::new(AppSettings { nickname: "a".to_string(), download_dir: "/d".to_string() });
    assert_eq!(service.update_nickname("   ".to_string()).unwrap_err(), "昵称不能为空");
    assert_eq!(service.nickname(), "a");
    let updated = service.update_nickname(" Bob ".to_string()).unwrap();
    assert_eq!(updated.nickname, "Bob");
    let updated = service.update_download_dir("/tmp/x".to_string());
    assert_eq!(updated.download_dir, "/tmp/x");
    assert_eq!(service.download_dir(), "/tmp/x");
    assert_eq!(service.get().nickname, "Bob");
}

#[test]
fn settings_are_normalized_from_defaults() {
    let defaults = AppSettings { nickname: "host".to_string(), download_dir: "/home/d".to_string() };
    let read = AppSettings { nickname: "   ".to_string(), download_dir: " ".to_string() };
    let fixed = normalize_settings(read, &defaults);
    assert_eq!(fixed.nickname, "host");
    assert_eq!(fixed.download_dir, "/home/d");
    let read = AppSettings { nickname: " me ".to_string(), download_dir: "/x".to_string() };
    let fixed = normalize_settings(read, &defaults);
    assert_eq!(fixed.nickname, "me");
    assert_eq!(fixed.download_dir, "/x");
}

fn peer(id: &str, online: bool) -> DeviceInfo {
    DeviceInfo {
        id: id.to_string(),
        name: id.to_string(),
        ip: "10.0.0.2".to_string(),
        tcp_port: 45455,
        api_port: 45457,
        online,
        last_seen_ms: 0,
        share_count: 0,
        library_version: 1,
        manifest_hash: String::new(),
        upload_tasks: 0,
        latency_ms: None,
        note: None,
        avatar_hash: None,
        is_local: false,
        is_known: true,
        discovered_via: None,
    }
}

#[test]
fn room_messages_go_to_online_members() {
    let devices = vec![peer("me", true), peer("a", true), peer("b", false), peer("c", true)];
    let main = ChatRoom {
        room_id: MAIN_ROOM_ID.to_string(),
        name: "主聊天室".to_string(),
        owner_device_id: "system".to_string(),
        member_ids: Vec::new(),
        is_main: true,
        created_at: 0,
        deleted: false,
    };
    let ids: Vec<String> = chat_targets(devices.clone(), "me", &main).into_iter().map(|d| d.id).collect();
    assert_eq!(ids, strings(&["a", "c"]));
    let mut side = room("r1", "side", "me", 1);
    side.member_ids = strings(&["me", "c", "b"]);
    let ids: Vec<String> = chat_targets(devices, "me", &side).into_iter().map(|d| d.id).collect();
    assert_eq!(ids, strings(&["c"]));
}

#[test]
fn rooms_of_equal_rank_keep_their_order() {
    let sorted = sort_rooms(vec![room("second", "dup", "x", 5), room("early", "a", "x", 1), room("third", "dup", "x", 5)]);
    let ids: Vec<&str> = sorted.iter().map(|c| c.room_id.as_str()).collect();
    assert_eq!(ids, vec!["early", "second", "third"]);
}

#[test]
fn an_accepted_room_is_the_one_with_its_id_and_a_deleted_one_is_not_found() {
    let mut service = ChatService::new("me".to_string(), vec![room("r1", "one", "o", 1), room("r2", "two", "o", 2)], Vec::new());
    service.accept_room(room("r1", "again", "o", 1));
    service.accept_room(room("r1", "third", "o", 1));
    let with_id: Vec<ChatRoom> = service.rooms().into_iter().filter(|r| r.room_id == "r1").collect();
    assert_eq!(with_id.len(), 1);
    assert_eq!(with_id[0].name, "third");
    assert_eq!(service.find_room("r2").unwrap().name, "two");
    let mut gone = room("r2", "two", "o", 2);
    gone.deleted = true;
    service.accept_room(gone);
    assert!(service.find_room("r2").is_none());
}

#[test]
fn a_message_accepted_twice_is_stored_once() {
    let mut service = ChatService::new("me".to_string(), Vec::new(), Vec::new());
    let mut other = ChatService::new("peer".to_string(), Vec::new(), Vec::new());
    let payload = other
        .add_message_at("main".to_string(), "peer".to_string(), "Peer".to_string(), None, "hi".to_string(), 4, "m1".to_string())
        .unwrap();
    let copy = ChatMessagePayload { room: payload.room.clone(), message: payload.message.clone() };
    service.accept_message(payload);
    let rooms_once = service.rooms().len();
    service.accept_message(copy);
    assert_eq!(service.messages().len(), 1);
    assert_eq!(service.rooms().len(), rooms_once);
}
