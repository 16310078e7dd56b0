use quicklan::game::{clean_nickname, clean_room_name, normalized_password_hash, sort_for_listing, GameService, RoomEvent};
use quicklan::game_types::{
    CreateGameRoomRequest, GameJoinRequest, GameRoomStatus, GameRoomSummary, GameRoomVisibility, GameType,
};
use quicklan::gomoku::is_winning_move;

fn empty_board() -> Vec<Vec<u8>> {
    vec![vec![0u8; 15]; 15]
}

fn host_service() -> GameService {
    GameService::new("host".to_string(), Vec::new())
}

fn open_room(service: &mut GameService, visibility: GameRoomVisibility, hash: Option<&str>) -> String {
    let snapshot = service
        .create_room_at(
            CreateGameRoomRequest {
                room_name: "  五子棋  ".to_string(),
                visibility,
                password_hash: hash.map(|h| h.to_string()),
            },
            "主机".to_string(),
            100,
            "room-1".to_string(),
            "event-1".to_string(),
        )
        .unwrap();
    snapshot.room.room_id.clone()
}

fn join(service: &mut GameService, room_id: &str, user: &str, hash: Option<&str>) -> quicklan::game_types::GameJoinResponse {
    service
        .join_room_request_at(
            GameJoinRequest {
                room_id: room_id.to_string(),
                user_id: user.to_string(),
                nickname: "  访客 ".to_string(),
                password_hash: hash.map(|h| h.to_string()),
            },
            101,
            "event-2".to_string(),
        )
        .unwrap()
}

#[test]
fn five_in_a_row_wins_in_every_direction() {
    let mut board = empty_board();
    for x in 3..8 {
        board[7][x] = 1;
    }
    assert!(is_winning_move(&board, 5, 7, 1));
    assert!(!is_winning_move(&board, 5, 7, 2));

    let mut board = empty_board();
    for k in 0..5 {
        board[k + 2][k + 4] = 2;
    }
    assert!(is_winning_move(&board, 6, 4, 2));

    let mut board = empty_board();
    for k in 0..5 {
        board[10 - k][k] = 1;
    }
    assert!(is_winning_move(&board, 0, 10, 1));

    let mut board = empty_board();
    for y in 0..5 {
        board[y][14] = 1;
    }
    assert!(is_winning_move(&board, 14, 4, 1));
}

#[test]
fn four_in_a_row_does_not_win() {
    let mut board = empty_board();
    for x in 0..4 {
        board[0][x] = 1;
    }
    assert!(!is_winning_move(&board, 3, 0, 1));
    board[0][4] = 2;
    assert!(!is_winning_move(&board, 3, 0, 1));
}

#[test]
fn room_names_and_passwords_are_cleaned() {
    assert_eq!(clean_room_name("  对局  ").unwrap(), "对局");
    assert_eq!(clean_room_name("   ").unwrap_err(), "小游戏房间名称不能为空");
    assert_eq!(clean_room_name(&"字".repeat(60)).unwrap().chars().count(), 48);
    assert_eq!(normalized_password_hash(GameRoomVisibility::Public, Some("x".into())).unwrap(), None);
    assert_eq!(
        normalized_password_hash(GameRoomVisibility::Password, Some("  h  ".into())).unwrap(),
        Some("h".to_string())
    );
    assert_eq!(
        normalized_password_hash(GameRoomVisibility::Password, None).unwrap_err(),
        "密码房间必须提供密码"
    );
    assert_eq!(clean_nickname("  小明  "), "小明");
}

#[test]
fn a_created_room_waits_for_a_player() {
    let mut service = host_service();
    let id = open_room(&mut service, GameRoomVisibility::Public, None);
    let room = service.find_room_at(&id, 100).unwrap();
    assert_eq!(room.room_name, "五子棋");
    assert_eq!(room.status, GameRoomStatus::Waiting);
    assert_eq!(room.game_type, GameType::Gomoku);
    let snapshot = service.find_snapshot_at(&id, 100).unwrap();
    assert_eq!(snapshot.version, 1);
    assert_eq!(snapshot.gomoku_state.current_turn, 1);
    assert_eq!(snapshot.gomoku_state.status_text, "等待玩家加入");
}

#[test]
fn guests_join_once_and_rooms_fill_up() {
    let mut service = host_service();
    let id = open_room(&mut service, GameRoomVisibility::Public, None);
    let first = join(&mut service, &id, "guest", None);
    assert!(first.accepted);
    let snapshot = first.snapshot.unwrap();
    assert_eq!(snapshot.room.status, GameRoomStatus::Playing);
    assert_eq!(snapshot.room.guest_name, Some("访客".to_string()));
    assert_eq!(snapshot.version, 2);
    let again = join(&mut service, &id, "guest", None);
    assert!(again.accepted);
    let full = join(&mut service, &id, "other", None);
    assert!(!full.accepted);
    assert_eq!(full.reason, Some("房间已满".to_string()));
}

#[test]
fn password_rooms_check_the_hash() {
    let mut service = host_service();
    let id = open_room(&mut service, GameRoomVisibility::Password, Some("secret"));
    let wrong = join(&mut service, &id, "guest", Some("nope"));
    assert!(!wrong.accepted);
    assert_eq!(wrong.reason, Some("密码错误".to_string()));
    let right = join(&mut service, &id, "guest", Some("secret"));
    assert!(right.accepted);
}

#[test]
fn moves_alternate_and_five_stones_win() {
    let mut service = host_service();
    let id = open_room(&mut service, GameRoomVisibility::Public, None);
    join(&mut service, &id, "guest", None);
    assert!(service.ready_for_move(&id, "host", 7, 7));
    assert_eq!(
        service.request_move_at(&id, "guest", 0, 0, 102, "e".into()).unwrap_err(),
        "当前还不是你的回合"
    );
    let mut now = 102;
    for k in 0..4 {
        let s = service.request_move_at(&id, "host", k, 0, now, format!("b{k}")).unwrap();
        assert_eq!(s.gomoku_state.current_turn, 2);
        assert_eq!(s.gomoku_state.board[0][k], 1);
        now += 1;
        let s = service.request_move_at(&id, "guest", k, 1, now, format!("w{k}")).unwrap();
        assert_eq!(s.gomoku_state.current_turn, 1);
        now += 1;
    }
    assert_eq!(
        service.request_move_at(&id, "host", 0, 0, now, "dup".into()).unwrap_err(),
        "该位置已有棋子"
    );
    assert_eq!(
        service.request_move_at(&id, "host", 15, 0, now, "far".into()).unwrap_err(),
        "落子位置超出棋盘范围"
    );
    let won = service.request_move_at(&id, "host", 4, 0, now, "win".into()).unwrap();
    assert_eq!(won.gomoku_state.winner, Some(1));
    assert_eq!(won.room.status, GameRoomStatus::Finished);
    assert_eq!(won.gomoku_state.status_text, "黑方获胜");
    assert_eq!(won.gomoku_state.move_history.len(), 9);
    assert_eq!(won.version, 11);
    assert_eq!(
        service.request_move_at(&id, "guest", 5, 5, now, "late".into()).unwrap_err(),
        "当前房间不在对局中"
    );
}

#[test]
fn restart_needs_the_other_player() {
    let mut service = host_service();
    let id = open_room(&mut service, GameRoomVisibility::Public, None);
    join(&mut service, &id, "guest", None);
    service.request_move_at(&id, "host", 7, 7, 102, "m".into()).unwrap();
    assert_eq!(
        service.accept_restart_at(&id, "guest", 103, "a".into()).unwrap_err(),
        "当前没有待确认的重新开始请求"
    );
    let asked = service.request_restart_at(&id, "host", 103, "r".into()).unwrap();
    assert_eq!(asked.gomoku_state.restart_requested_by, Some("host".to_string()));
    assert_eq!(
        service.accept_restart_at(&id, "host", 104, "a".into()).unwrap_err(),
        "不能由发起者自己确认重新开始"
    );
    let fresh = service.accept_restart_at(&id, "guest", 104, "a".into()).unwrap();
    assert!(fresh.gomoku_state.move_history.is_empty());
    assert_eq!(fresh.gomoku_state.board[7][7], 0);
}

#[test]
fn surrender_gives_the_game_to_the_other_side() {
    let mut service = host_service();
    let id = open_room(&mut service, GameRoomVisibility::Public, None);
    join(&mut service, &id, "guest", None);
    let s = service.surrender_at(&id, "guest", 102, "s".into()).unwrap();
    assert_eq!(s.gomoku_state.winner, Some(1));
    assert_eq!(s.room.status, GameRoomStatus::Finished);
    assert_eq!(
        service.surrender_at(&id, "stranger", 102, "s".into()).unwrap_err(),
        "你不在当前房间中"
    );
}

#[test]
fn leaving_frees_the_seat_or_closes_the_room() {
    let mut service = host_service();
    let id = open_room(&mut service, GameRoomVisibility::Public, None);
    join(&mut service, &id, "guest", None);
    let after = service.leave_room_at(&id, "guest", 103, "l".into()).unwrap();
    assert_eq!(after.room.guest_peer_id, None);
    assert_eq!(after.room.status, GameRoomStatus::Waiting);
    assert!(service.leave_room_at(&id, "host", 104, "l2".into()).is_none());
    assert!(service.find_room_at(&id, 104).is_none());
}

#[test]
fn remote_rooms_go_stale_and_removed_rooms_are_gone() {
    let mut service = host_service();
    let mut remote = GameService::new("other".to_string(), Vec::new());
    let id = open_room(&mut remote, GameRoomVisibility::Public, None);
    let snapshot = remote.find_snapshot_at(&id, 100).unwrap();
    service.accept_room(snapshot);
    assert!(service.find_room_at(&id, 108).is_some());
    assert!(service.find_room_at(&id, 109).is_none());

    let snapshot = remote.find_snapshot_at(&id, 100).unwrap();
    service.accept_room(snapshot);
    service.remove_room(&id);
    assert!(service.snapshots().is_empty());
}

#[test]
fn rooms_are_listed_newest_first() {
    let mut service = host_service();
    for (i, name) in ["甲", "乙", "丙"].iter().enumerate() {
        service
            .create_room_at(
                CreateGameRoomRequest {
                    room_name: name.to_string(),
                    visibility: GameRoomVisibility::Public,
                    password_hash: None,
                },
                "主机".to_string(),
                100 + i as i64,
                format!("r{i}"),
                format!("e{i}"),
            )
            .unwrap();
    }
    let listed = service.list_rooms_at(Some(GameType::Gomoku), 103);
    let names: Vec<String> = listed.iter().map(|r| r.room_name.clone()).collect();
    assert_eq!(names, vec!["丙", "乙", "甲"]);
}

fn summary(room_id: &str, room_name: &str, created_at: i64) -> GameRoomSummary {
    GameRoomSummary {
        room_id: room_id.to_string(),
        game_type: GameType::Gomoku,
        room_name: room_name.to_string(),
        host_peer_id: "h".to_string(),
        host_name: "主机".to_string(),
        guest_peer_id: None,
        guest_name: None,
        visibility: GameRoomVisibility::Public,
        password_hash: None,
        status: GameRoomStatus::Waiting,
        created_at,
        updated_at: created_at,
    }
}

#[test]
fn rooms_of_equal_rank_keep_their_order_when_listed() {
    let listed = sort_for_listing(vec![
        summary("r1", "b", 5),
        summary("r2", "a", 5),
        summary("r3", "b", 5),
        summary("r4", "c", 9),
        summary("r5", "a", 5),
    ]);
    let ids: Vec<&str> = listed.iter().map(|r| r.room_id.as_str()).collect();
    assert_eq!(ids, vec!["r4", "r2", "r5", "r1", "r3"]);
}

#[test]
fn a_malformed_board_only_matters_to_a_move_that_reads_it() {
    let mut service = host_service();
    let id = open_room(&mut service, GameRoomVisibility::Public, None);
    join(&mut service, &id, "guest", None);
    let mut snapshot = service.snapshots()[0].clone();
    snapshot.gomoku_state.board = Vec::new();
    let mut broken = GameService::new("host".to_string(), vec![snapshot]);
    assert!(broken.ready_for_move(&id, "guest", 0, 0));
    assert!(broken.ready_for_move(&id, "host", 15, 0));
    assert!(!broken.ready_for_move(&id, "host", 0, 0));
    assert_eq!(
        broken.request_move_at(&id, "guest", 0, 0, 102, "e".into()).unwrap_err(),
        "当前还不是你的回合"
    );
    assert_eq!(
        broken.request_move_at(&id, "host", 15, 0, 102, "f".into()).unwrap_err(),
        "落子位置超出棋盘范围"
    );
}

#[test]
fn a_repeated_join_changes_nothing() {
    let mut service = host_service();
    let id = open_room(&mut service, GameRoomVisibility::Public, None);
    let first = join(&mut service, &id, "guest", None);
    assert!(first.accepted);
    let again = join(&mut service, &id, "guest", None);
    assert!(again.accepted);
    assert_eq!(again.reason, None);
    let before = first.snapshot.unwrap();
    let after = again.snapshot.unwrap();
    assert_eq!(after.version, before.version);
    assert_eq!(after.room.guest_peer_id, Some("guest".to_string()));
    assert_eq!(service.find_snapshot_at(&id, 102).unwrap().version, before.version);
}

#[test]
fn listing_drops_stale_remote_rooms_and_keeps_hosted_ones() {
    let mut service = host_service();
    let hosted = open_room(&mut service, GameRoomVisibility::Public, None);
    let mut remote = GameService::new("other".to_string(), Vec::new());
    let snapshot = remote
        .create_room_at(
            CreateGameRoomRequest {
                room_name: "远程".to_string(),
                visibility: GameRoomVisibility::Public,
                password_hash: None,
            },
            "别人".to_string(),
            100,
            "remote-1".to_string(),
            "e".to_string(),
        )
        .unwrap();
    service.accept_room(snapshot);
    assert_eq!(service.list_rooms_at(None, 108).len(), 2);
    let listed = service.list_rooms_at(Some(GameType::Gomoku), 500);
    let ids: Vec<String> = listed.iter().map(|r| r.room_id.clone()).collect();
    assert_eq!(ids, vec![hosted]);
    assert!(service.find_snapshot_at("remote-1", 500).is_none());
}

#[test]
fn a_full_event_counter_only_matters_to_an_event_that_counts() {
    let mut service = host_service();
    let id = open_room(&mut service, GameRoomVisibility::Public, None);
    join(&mut service, &id, "guest", None);
    let mut snapshot = service.snapshots()[0].clone();
    snapshot.version = i64::MAX;
    let mut full = GameService::new("host".to_string(), vec![snapshot]);
    assert!(full.ready_for_event(&id, RoomEvent::RestartRequest, "stranger", &None));
    assert!(full.ready_for_event(&id, RoomEvent::RestartAccept, "guest", &None));
    assert!(full.ready_for_event(&id, RoomEvent::Join, "late", &None));
    assert!(!full.ready_for_event(&id, RoomEvent::RestartRequest, "guest", &None));
    assert!(!full.ready_for_event(&id, RoomEvent::Surrender, "host", &None));
    assert!(!full.ready_for_event(&id, RoomEvent::Leave, "guest", &None));
    assert_eq!(
        full.request_restart_at(&id, "stranger", 102, "r".into()).unwrap_err(),
        "你不在当前房间中"
    );
    assert_eq!(
        full.accept_restart_at(&id, "guest", 102, "a".into()).unwrap_err(),
        "当前没有待确认的重新开始请求"
    );
    let refused = full
        .join_room_request_at(
            GameJoinRequest {
                room_id: id.clone(),
                user_id: "late".to_string(),
                nickname: "晚到".to_string(),
                password_hash: None,
            },
            102,
            "j".into(),
        )
        .unwrap();
    assert_eq!(refused.reason, Some("房间已满".to_string()));
}
