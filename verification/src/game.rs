use crate::game_types::{
    moves_view, snaps, summaries, CreateGameRoomRequest, GameActivation, GameJoinRequest, GameJoinResponse,
    GameRoomSnapshot, GameRoomStatus, GameRoomSummary, GameRoomVisibility, GameType,
    GomokuModel, GomokuMoveRecord, GomokuPoint, GomokuState, JoinResponseModel, MoveModel, RoomModel,
    SnapshotModel,
};
use crate::gomoku::{board_ok, grid, is_winning_move, wins, BOARD_SIZE};
use crate::system::{new_id, now_secs};
use crate::text::{
    clean_chars, clean_text, lemma_filter_insert, lemma_seq_lt_irreflexive, lemma_seq_lt_transitive, opt_is, opt_str_eq,
    opt_view, seq_lt, str_eq, str_lt, trim, trimmed,
};
use vstd::prelude::*;

verus! {

/// How long, in seconds, a room hosted elsewhere stays listed after its last update.
pub const REMOTE_ROOM_STALE_SECS: i64 = 8;

// ---------------------------------------------------------------------------
// The model of the rooms a device knows.
// ---------------------------------------------------------------------------

/// A room stays listed while this device hosts it or it was updated in the last
/// `REMOTE_ROOM_STALE_SECS` seconds.
pub open spec fn keep_room(s: SnapshotModel, local: Seq<char>, now: i64) -> bool {
    s.room.host_peer_id == local || now - s.room.updated_at <= REMOTE_ROOM_STALE_SECS
}

/// The rooms left once stale rooms hosted elsewhere are dropped.
pub open spec fn pruned(rooms: Seq<SnapshotModel>, local: Seq<char>, now: i64) -> Seq<SnapshotModel> {
    rooms.filter(|s: SnapshotModel| keep_room(s, local, now))
}

/// `i` is the first position of a room with id `id`.
pub open spec fn is_first(rooms: Seq<SnapshotModel>, id: Seq<char>, i: int) -> bool {
    &&& 0 <= i < rooms.len()
    &&& rooms[i].room.room_id == id
    &&& forall|j: int| 0 <= j < i ==> #[trigger] rooms[j].room.room_id != id
}

/// The first position of a room with id `id`, or -1 when there is none.
pub open spec fn index_of(rooms: Seq<SnapshotModel>, id: Seq<char>) -> int {
    if exists|i: int| is_first(rooms, id, i) {
        choose|i: int| is_first(rooms, id, i)
    } else {
        -1
    }
}

/// The room with id `id`, if there is one.
pub open spec fn lookup(rooms: Seq<SnapshotModel>, id: Seq<char>) -> Option<SnapshotModel> {
    let i = index_of(rooms, id);
    if i >= 0 {
        Some(rooms[i])
    } else {
        None
    }
}

/// `rooms` with `s` in place of the room that has its id, or with `s` added at
/// the end when none has.
pub open spec fn upsert(rooms: Seq<SnapshotModel>, s: SnapshotModel) -> Seq<SnapshotModel> {
    let i = index_of(rooms, s.room.room_id);
    if i >= 0 {
        rooms.update(i, s)
    } else {
        rooms.push(s)
    }
}

/// A peer takes part in a room as its host or its guest.
pub open spec fn is_member(s: SnapshotModel, peer: Seq<char>) -> bool {
    s.room.host_peer_id == peer || s.room.guest_peer_id == Some(peer)
}

/// The colour a peer plays: 1 for black, 2 for white.
pub open spec fn color_of(s: SnapshotModel, peer: Seq<char>) -> Option<u8> {
    if s.state.black_peer_id == peer {
        Some(1u8)
    } else if s.state.white_peer_id == Some(peer) {
        Some(2u8)
    } else {
        None
    }
}

/// An empty board.
pub open spec fn empty_board() -> Seq<Seq<u8>> {
    Seq::new(BOARD_SIZE as nat, |i: int| Seq::new(BOARD_SIZE as nat, |j: int| 0u8))
}

/// The game state a room starts from.
pub open spec fn fresh_state(room: RoomModel) -> GomokuModel {
    GomokuModel {
        room_id: room.room_id,
        board: empty_board(),
        current_turn: 1,
        black_peer_id: room.host_peer_id,
        white_peer_id: room.guest_peer_id,
        winner: None,
        last_move: None,
        move_history: Seq::empty(),
        restart_requested_by: None,
        ended_reason: None,
        status_text: if room.guest_peer_id is Some {
            "黑方回合"@
        } else {
            "等待玩家加入"@
        },
    }
}

/// A snapshot after an event: its version one higher and the event's id recorded.
pub open spec fn touched(s: SnapshotModel, event_id: Seq<char>) -> SnapshotModel {
    SnapshotModel { version: (s.version + 1) as i64, last_event_id: event_id, ..s }
}

/// A room after its guest is gone: waiting for a player, on a fresh board, with
/// the host still playing black.
pub open spec fn without_guest(s: SnapshotModel, now: i64, event_id: Seq<char>) -> SnapshotModel {
    let room = RoomModel {
        guest_peer_id: None,
        guest_name: None,
        status: GameRoomStatus::Waiting,
        updated_at: now,
        ..s.room
    };
    let state = GomokuModel {
        black_peer_id: s.state.black_peer_id,
        white_peer_id: None,
        ..fresh_state(room)
    };
    touched(SnapshotModel { room, state, ..s }, event_id)
}

/// Why a move is refused, if it is.
pub open spec fn move_error(s: SnapshotModel, local: Seq<char>, actor: Seq<char>, x: int, y: int) -> Option<Seq<char>> {
    if s.room.host_peer_id != local {
        Some("当前设备不是房主"@)
    } else if !is_member(s, actor) {
        Some("你不在当前房间中"@)
    } else if s.room.status != GameRoomStatus::Playing {
        Some("当前房间不在对局中"@)
    } else if x >= BOARD_SIZE || y >= BOARD_SIZE {
        Some("落子位置超出棋盘范围"@)
    } else if color_of(s, actor) is None {
        Some("当前玩家没有执棋资格"@)
    } else if s.state.current_turn != color_of(s, actor)->0 {
        Some("当前还不是你的回合"@)
    } else if s.state.board[y][x] != 0 {
        Some("该位置已有棋子"@)
    } else {
        None
    }
}

/// A room after `actor` places a stone of `color` at `(x, y)`: the game ends
/// with a win when the stone completes five in a row, and the turn passes
/// otherwise.
pub open spec fn played(s: SnapshotModel, actor: Seq<char>, x: usize, y: usize, color: u8, now: i64, event_id: Seq<char>) -> SnapshotModel {
    let board = s.state.board.update(y as int, s.state.board[y as int].update(x as int, color));
    let won = wins(board, x as int, y as int, color);
    let placed = GomokuModel {
        board,
        last_move: Some(GomokuPoint { x, y }),
        move_history: s.state.move_history.push(
            MoveModel { x, y, color, peer_id: actor, timestamp: now },
        ),
        restart_requested_by: None,
        ..s.state
    };
    let next_turn: u8 = if color == 1 { 2 } else { 1 };
    let state = if won {
        GomokuModel {
            winner: Some(color),
            ended_reason: Some("win"@),
            status_text: if color == 1 { "黑方获胜"@ } else { "白方获胜"@ },
            ..placed
        }
    } else {
        GomokuModel {
            current_turn: next_turn,
            status_text: if next_turn == 1 { "黑方回合"@ } else { "白方回合"@ },
            ..placed
        }
    };
    let room = RoomModel {
        status: if won { GameRoomStatus::Finished } else { s.room.status },
        updated_at: now,
        ..s.room
    };
    touched(SnapshotModel { room, state, ..s }, event_id)
}

/// What an operation on one room ends with: the room is looked up among
/// `rooms`; the operation is refused with `error` or the room is replaced by
/// `next` and returned.
pub open spec fn settles(
    rooms: Seq<SnapshotModel>,
    room_id: Seq<char>,
    error: spec_fn(SnapshotModel) -> Option<Seq<char>>,
    next: spec_fn(SnapshotModel) -> SnapshotModel,
    r: Result<GameRoomSnapshot, String>,
    after: Seq<SnapshotModel>,
) -> bool {
    let i = index_of(rooms, room_id);
    if i < 0 {
        &&& r is Err
        &&& r->Err_0@ == "小游戏房间不存在"@
        &&& after == rooms
    } else {
        match error(rooms[i]) {
            Some(e) => {
                &&& r is Err
                &&& r->Err_0@ == e
                &&& after == rooms
            },
            None => {
                &&& r is Ok
                &&& r->Ok_0@ == next(rooms[i])
                &&& after == rooms.update(i, next(rooms[i]))
            },
        }
    }
}

/// What a move request ends with, from the rooms as they stand.
pub open spec fn move_outcome(rooms: Seq<SnapshotModel>, local: Seq<char>, room_id: Seq<char>, actor: Seq<char>, x: usize, y: usize, now: i64, event_id: Seq<char>, r: Result<GameRoomSnapshot, String>, after: Seq<SnapshotModel>) -> bool {
    settles(
        rooms,
        room_id,
        |s: SnapshotModel| move_error(s, local, actor, x as int, y as int),
        |s: SnapshotModel| played(s, actor, x, y, color_of(s, actor)->0, now, event_id),
        r,
        after,
    )
}

/// What a request to start over ends with, from the rooms as they stand.
pub open spec fn restart_request_outcome(rooms: Seq<SnapshotModel>, local: Seq<char>, room_id: Seq<char>, actor: Seq<char>, now: i64, event_id: Seq<char>, r: Result<GameRoomSnapshot, String>, after: Seq<SnapshotModel>) -> bool {
    settles(
        rooms,
        room_id,
        |s: SnapshotModel| member_error(s, local, actor),
        |s: SnapshotModel| restart_requested(s, actor, now, event_id),
        r,
        after,
    )
}

/// What agreeing to start over ends with, from the rooms as they stand.
pub open spec fn restart_accept_outcome(rooms: Seq<SnapshotModel>, local: Seq<char>, room_id: Seq<char>, actor: Seq<char>, now: i64, event_id: Seq<char>, r: Result<GameRoomSnapshot, String>, after: Seq<SnapshotModel>) -> bool {
    settles(
        rooms,
        room_id,
        |s: SnapshotModel| accept_restart_error(s, local, actor),
        |s: SnapshotModel| restarted(s, now, event_id),
        r,
        after,
    )
}

/// What a surrender ends with, from the rooms as they stand.
pub open spec fn surrender_outcome(rooms: Seq<SnapshotModel>, local: Seq<char>, room_id: Seq<char>, actor: Seq<char>, now: i64, event_id: Seq<char>, r: Result<GameRoomSnapshot, String>, after: Seq<SnapshotModel>) -> bool {
    settles(
        rooms,
        room_id,
        |s: SnapshotModel| surrender_error(s, local, actor),
        |s: SnapshotModel| surrendered(s, color_of(s, actor)->0, now, event_id),
        r,
        after,
    )
}

/// A move by `actor` at `(x, y)` gets past every check that comes before its
/// point on the board is read: this device hosts the room, the actor is in
/// it, the game is on, the point is on the board, and it is the actor's turn.
pub open spec fn move_reaches_board(s: SnapshotModel, local: Seq<char>, actor: Seq<char>, x: int, y: int) -> bool {
    &&& s.room.host_peer_id == local
    &&& is_member(s, actor)
    &&& s.room.status == GameRoomStatus::Playing
    &&& x < BOARD_SIZE && y < BOARD_SIZE
    &&& color_of(s, actor) is Some
    &&& s.state.current_turn == color_of(s, actor)->0
}

/// Every stored room with id `id` that a move by `actor` at `(x, y)` reads
/// the board of has a full board, and can take one more event when that
/// point is free.
pub open spec fn move_ready(rooms: Seq<SnapshotModel>, local: Seq<char>, id: Seq<char>, actor: Seq<char>, x: int, y: int) -> bool {
    forall|i: int|
        0 <= i < rooms.len() && #[trigger] rooms[i].room.room_id == id && move_reaches_board(
            rooms[i],
            local,
            actor,
            x,
            y,
        ) ==> {
            &&& board_ok(rooms[i].state.board)
            &&& rooms[i].state.board[y][x] == 0 ==> rooms[i].version < i64::MAX
        }
}

/// An event on a game room that counts in the room's version.
#[derive(Clone, Copy, Debug, PartialEq, Eq, Structural)]
pub enum RoomEvent {
    Join,
    Leave,
    RestartRequest,
    RestartAccept,
    Surrender,
}

/// Whether `event` by `actor` (with `password` for a join) gets past its
/// checks on the room `s` to where the room's version goes up: a join of a
/// free seat in a room hosted here with the right password; the guest, not
/// the host, leaving; a request, an answer or a surrender that is not
/// refused.
pub open spec fn event_counts(s: SnapshotModel, local: Seq<char>, event: RoomEvent, actor: Seq<char>, password: Option<Seq<char>>) -> bool {
    match event {
        RoomEvent::Join => s.room.host_peer_id == local && !(s.room.visibility == GameRoomVisibility::Password
            && s.room.password_hash != password) && s.room.guest_peer_id is None,
        RoomEvent::Leave => s.room.host_peer_id != actor && s.room.guest_peer_id == Some(actor),
        RoomEvent::RestartRequest => member_error(s, local, actor) is None,
        RoomEvent::RestartAccept => accept_restart_error(s, local, actor) is None,
        RoomEvent::Surrender => surrender_error(s, local, actor) is None,
    }
}

/// Every stored room with id `id` on which `event` counts can take one more
/// event.
pub open spec fn event_versions_ok(rooms: Seq<SnapshotModel>, local: Seq<char>, id: Seq<char>, event: RoomEvent, actor: Seq<char>, password: Option<Seq<char>>) -> bool {
    forall|i: int|
        0 <= i < rooms.len() && #[trigger] rooms[i].room.room_id == id && event_counts(
            rooms[i],
            local,
            event,
            actor,
            password,
        ) ==> rooms[i].version < i64::MAX
}

/// Why a request or an answer on a restart is refused for not being this
/// device's room or the actor's, if it is.
pub open spec fn member_error(s: SnapshotModel, local: Seq<char>, actor: Seq<char>) -> Option<Seq<char>> {
    if s.room.host_peer_id != local {
        Some("当前设备不是房主"@)
    } else if !is_member(s, actor) {
        Some("你不在当前房间中"@)
    } else {
        None
    }
}

/// A room after `actor` asks to start over.
pub open spec fn restart_requested(s: SnapshotModel, actor: Seq<char>, now: i64, event_id: Seq<char>) -> SnapshotModel {
    touched(
        SnapshotModel {
            room: RoomModel { updated_at: now, ..s.room },
            state: GomokuModel {
                restart_requested_by: Some(actor),
                status_text: "等待对方确认重新开始"@,
                ..s.state
            },
            ..s
        },
        event_id,
    )
}

/// Why accepting a restart is refused, if it is.
pub open spec fn accept_restart_error(s: SnapshotModel, local: Seq<char>, actor: Seq<char>) -> Option<Seq<char>> {
    if member_error(s, local, actor) is Some {
        member_error(s, local, actor)
    } else if s.state.restart_requested_by is None {
        Some("当前没有待确认的重新开始请求"@)
    } else if s.state.restart_requested_by == Some(actor) {
        Some("不能由发起者自己确认重新开始"@)
    } else {
        None
    }
}

/// A room after both players agree to start over: a fresh board, the same
/// colours, and play resumes at once when there is a guest.
pub open spec fn restarted(s: SnapshotModel, now: i64, event_id: Seq<char>) -> SnapshotModel {
    let playing = s.room.guest_peer_id is Some;
    let room = RoomModel {
        status: if playing { GameRoomStatus::Playing } else { GameRoomStatus::Waiting },
        updated_at: now,
        ..s.room
    };
    let state = GomokuModel {
        black_peer_id: s.state.black_peer_id,
        white_peer_id: s.state.white_peer_id,
        status_text: if playing { "黑方回合"@ } else { "等待玩家加入"@ },
        ..fresh_state(s.room)
    };
    touched(SnapshotModel { room, state, ..s }, event_id)
}

/// Why a surrender is refused, if it is.
pub open spec fn surrender_error(s: SnapshotModel, local: Seq<char>, actor: Seq<char>) -> Option<Seq<char>> {
    if member_error(s, local, actor) is Some {
        member_error(s, local, actor)
    } else if color_of(s, actor) is None {
        Some("当前玩家没有执棋资格"@)
    } else {
        None
    }
}

/// A room after the player of `color` gives up: the other colour wins.
pub open spec fn surrendered(s: SnapshotModel, color: u8, now: i64, event_id: Seq<char>) -> SnapshotModel {
    let winner: u8 = if color == 1 { 2 } else { 1 };
    touched(
        SnapshotModel {
            room: RoomModel { status: GameRoomStatus::Finished, updated_at: now, ..s.room },
            state: GomokuModel {
                winner: Some(winner),
                ended_reason: Some("surrender"@),
                restart_requested_by: None,
                status_text: if winner == 1 { "黑方获胜（对手认输）"@ } else { "白方获胜（对手认输）"@ },
                ..s.state
            },
            ..s
        },
        event_id,
    )
}

/// The name a joining player is shown by: the trimmed nickname cut to 32
/// characters, or "玩家" when nothing is left.
pub open spec fn player_name(nickname: Seq<char>) -> Seq<char> {
    if clean_text(nickname, 32).len() == 0 {
        "玩家"@
    } else {
        clean_text(nickname, 32)
    }
}

/// A room after `user` joins it as the guest, playing white.
pub open spec fn joined(s: SnapshotModel, user: Seq<char>, nickname: Seq<char>, now: i64, event_id: Seq<char>) -> SnapshotModel {
    touched(
        SnapshotModel {
            room: RoomModel {
                guest_peer_id: Some(user),
                guest_name: Some(player_name(nickname)),
                status: GameRoomStatus::Playing,
                updated_at: now,
                ..s.room
            },
            state: GomokuModel {
                white_peer_id: Some(user),
                current_turn: 1,
                status_text: "黑方回合"@,
                ..s.state
            },
            ..s
        },
        event_id,
    )
}

/// What a join request ends with, from the rooms as they stand.
pub open spec fn join_outcome(
    rooms: Seq<SnapshotModel>,
    local: Seq<char>,
    room_id: Seq<char>,
    user: Seq<char>,
    nickname: Seq<char>,
    password_hash: Option<Seq<char>>,
    now: i64,
    event_id: Seq<char>,
    r: Result<GameJoinResponse, String>,
    after: Seq<SnapshotModel>,
) -> bool {
    let i = index_of(rooms, room_id);
    if i < 0 {
        &&& r is Err
        &&& r->Err_0@ == "小游戏房间不存在"@
        &&& after == rooms
    } else {
        let s = rooms[i];
        if s.room.host_peer_id != local {
            &&& r is Err
            &&& r->Err_0@ == "当前设备不是房主"@
            &&& after == rooms
        } else if s.room.visibility == GameRoomVisibility::Password && s.room.password_hash
            != password_hash {
            &&& r is Ok
            &&& r->Ok_0@ == (JoinResponseModel {
                accepted: false,
                reason: Some("密码错误"@),
                snapshot: None,
            })
            &&& after == rooms
        } else if s.room.guest_peer_id == Some(user) {
            &&& r is Ok
            &&& r->Ok_0@ == (JoinResponseModel { accepted: true, reason: None, snapshot: Some(s) })
            &&& after == rooms
        } else if s.room.guest_peer_id is Some {
            &&& r is Ok
            &&& r->Ok_0@ == (JoinResponseModel {
                accepted: false,
                reason: Some("房间已满"@),
                snapshot: None,
            })
            &&& after == rooms
        } else {
            let t = joined(s, user, nickname, now, event_id);
            &&& r is Ok
            &&& r->Ok_0@ == (JoinResponseModel { accepted: true, reason: None, snapshot: Some(t) })
            &&& after == rooms.update(i, t)
        }
    }
}

/// The rooms after `user` leaves the room `room_id`: the host's leaving closes
/// the room, the guest's leaving frees the seat.
pub open spec fn left(rooms: Seq<SnapshotModel>, room_id: Seq<char>, user: Seq<char>, now: i64, event_id: Seq<char>) -> (Seq<SnapshotModel>, Option<SnapshotModel>) {
    let i = index_of(rooms, room_id);
    if i < 0 {
        (rooms, None)
    } else if rooms[i].room.host_peer_id == user {
        (rooms.remove(i), None)
    } else if rooms[i].room.guest_peer_id == Some(user) {
        let t = without_guest(rooms[i], now, event_id);
        (rooms.update(i, t), Some(t))
    } else {
        (rooms, None)
    }
}

/// The rooms other than those with id `room_id`.
pub open spec fn without_room(rooms: Seq<SnapshotModel>, room_id: Seq<char>) -> Seq<SnapshotModel> {
    rooms.filter(|s: SnapshotModel| s.room.room_id != room_id)
}

/// A room hosted here whose guest is no longer online.
pub open spec fn guest_gone(s: SnapshotModel, local: Seq<char>, online: Seq<Seq<char>>) -> bool {
    &&& s.room.host_peer_id == local
    &&& s.room.guest_peer_id is Some
    &&& !online.contains(s.room.guest_peer_id->0)
}

/// The rooms after every room hosted here loses its offline guest; the `i`-th
/// room records the `i`-th event id.
pub open spec fn reconciled(rooms: Seq<SnapshotModel>, local: Seq<char>, online: Seq<Seq<char>>, now: i64, ids: Seq<Seq<char>>) -> Seq<SnapshotModel> {
    Seq::new(
        rooms.len(),
        |i: int|
            if guest_gone(rooms[i], local, online) {
                without_guest(rooms[i], now, ids[i])
            } else {
                rooms[i]
            },
    )
}

/// The rooms among the first `n` that lost their guest, as they stand after.
pub open spec fn reconciled_changes(rooms: Seq<SnapshotModel>, local: Seq<char>, online: Seq<Seq<char>>, now: i64, ids: Seq<Seq<char>>, n: int) -> Seq<SnapshotModel>
    decreases n,
{
    if n <= 0 {
        Seq::empty()
    } else {
        let prev = reconciled_changes(rooms, local, online, now, ids, n - 1);
        if guest_gone(rooms[n - 1], local, online) {
            prev.push(without_guest(rooms[n - 1], now, ids[n - 1]))
        } else {
            prev
        }
    }
}

/// `a` is listed before `b`: newer rooms first, then by name.
pub open spec fn listed_before(a: RoomModel, b: RoomModel) -> bool {
    a.created_at > b.created_at || (a.created_at == b.created_at && seq_lt(a.room_name, b.room_name))
}

/// The rooms of a list, in listing order.
pub open spec fn sorted_for_listing(s: Seq<RoomModel>) -> bool {
    forall|i: int, j: int| 0 <= i < j < s.len() ==> !listed_before(#[trigger] s[j], #[trigger] s[i])
}

/// The summaries of the rooms of the given type (of any type for `None`).
pub open spec fn rooms_of_type(rooms: Seq<SnapshotModel>, game_type: Option<GameType>) -> Seq<RoomModel> {
    rooms.filter(|s: SnapshotModel| game_type is None || s.room.game_type == game_type->0).map_values(
        |s: SnapshotModel| s.room,
    )
}

// ---------------------------------------------------------------------------
// Lemmas on the model.
// ---------------------------------------------------------------------------

pub proof fn lemma_index_of_first(rooms: Seq<SnapshotModel>, id: Seq<char>, i: int)
    requires
        is_first(rooms, id, i),
    ensures
        index_of(rooms, id) == i,
{
    let k = choose|k: int| is_first(rooms, id, k);
    if k < i {
        assert(rooms[k].room.room_id != id);
    } else if k > i {
        assert(rooms[i].room.room_id != id);
    }
}

pub proof fn lemma_index_of_none(rooms: Seq<SnapshotModel>, id: Seq<char>)
    requires
        forall|j: int| 0 <= j < rooms.len() ==> #[trigger] rooms[j].room.room_id != id,
    ensures
        index_of(rooms, id) == -1,
{
}

pub proof fn lemma_index_of_range(rooms: Seq<SnapshotModel>, id: Seq<char>)
    ensures
        index_of(rooms, id) >= 0 ==> is_first(rooms, id, index_of(rooms, id)),
        index_of(rooms, id) >= -1,
        index_of(rooms, id) < rooms.len(),
{
}

proof fn lemma_pruned_ready(rooms: Seq<SnapshotModel>, local: Seq<char>, now: i64, id: Seq<char>, actor: Seq<char>, x: int, y: int)
    requires
        move_ready(rooms, local, id, actor, x, y),
    ensures
        move_ready(pruned(rooms, local, now), local, id, actor, x, y),
{
    let p = pruned(rooms, local, now);
    let pred = |s: SnapshotModel| keep_room(s, local, now);
    assert forall|i: int| 0 <= i < p.len() && #[trigger] p[i].room.room_id == id && move_reaches_board(p[i], local, actor, x, y) implies {
        &&& board_ok(p[i].state.board)
        &&& p[i].state.board[y][x] == 0 ==> p[i].version < i64::MAX
    } by {
        assert(p.contains(p[i]));
        rooms.lemma_filter_contains_rev(pred, p[i]);
        let k = choose|k: int| 0 <= k < rooms.len() && rooms[k] == p[i];
        assert(rooms[k].room.room_id == id);
    }
}

// ---------------------------------------------------------------------------
// Helpers on one room.
// ---------------------------------------------------------------------------

fn text(s: &str) -> (r: String)
    ensures
        r@ == s@,
{
    s.to_string()
}

/// Adds one to the version and records a fresh event id.
pub fn touch_snapshot(snapshot: &mut GameRoomSnapshot, event_id: String)
    requires
        old(snapshot).version < i64::MAX,
    ensures
        final(snapshot)@ == touched(old(snapshot)@, event_id@),
{
    snapshot.version = snapshot.version + 1;
    snapshot.last_event_id = event_id;
}

/// An empty board.
pub fn new_board() -> (r: Vec<Vec<u8>>)
    ensures
        grid(r@) == empty_board(),
{
    let mut board: Vec<Vec<u8>> = Vec::new();
    let mut i: usize = 0;
    while i < BOARD_SIZE
        invariant
            i <= BOARD_SIZE,
            board@.len() == i,
            forall|k: int| 0 <= k < i ==> #[trigger] board@[k]@ == Seq::new(BOARD_SIZE as nat, |j: int| 0u8),
        decreases BOARD_SIZE - i,
    {
        let mut row: Vec<u8> = Vec::new();
        let mut j: usize = 0;
        while j < BOARD_SIZE
            invariant
                j <= BOARD_SIZE,
                row@ =~= Seq::new(j as nat, |k: int| 0u8),
            decreases BOARD_SIZE - j,
        {
            row.push(0);
            j = j + 1;
        }
        board.push(row);
        i = i + 1;
    }
    assert(grid(board@) =~= empty_board());
    board
}

/// The game state a room starts from.
pub fn new_gomoku_state(room: &GameRoomSummary) -> (r: GomokuState)
    ensures
        r@ == fresh_state(room@),
{
    let r = GomokuState {
        room_id: room.room_id.clone(),
        board: new_board(),
        current_turn: 1,
        black_peer_id: room.host_peer_id.clone(),
        white_peer_id: room.guest_peer_id.clone(),
        winner: None,
        last_move: None,
        move_history: Vec::new(),
        restart_requested_by: None,
        ended_reason: None,
        status_text: if room.guest_peer_id.is_some() {
            text("黑方回合")
        } else {
            text("等待玩家加入")
        },
    };
    assert(r@.move_history =~= Seq::<MoveModel>::empty());
    r
}

/// Lets the guest go: the room waits for a player on a fresh board.
pub fn reset_guest(snapshot: &mut GameRoomSnapshot, now: i64, event_id: String)
    requires
        old(snapshot).version < i64::MAX,
    ensures
        final(snapshot)@ == without_guest(old(snapshot)@, now, event_id@),
{
    snapshot.room.guest_peer_id = None;
    snapshot.room.guest_name = None;
    snapshot.room.status = GameRoomStatus::Waiting;
    snapshot.room.updated_at = now;
    let black_peer_id = snapshot.gomoku_state.black_peer_id.clone();
    snapshot.gomoku_state = new_gomoku_state(&snapshot.room);
    snapshot.gomoku_state.black_peer_id = black_peer_id;
    snapshot.gomoku_state.white_peer_id = None;
    touch_snapshot(snapshot, event_id);
}

/// Whether `event` by `actor` (with `password` for a join) counts on the room.
fn counts_on(snapshot: &GameRoomSnapshot, local_device_id: &str, event: RoomEvent, actor: &str, password: &Option<String>) -> (r: bool)
    ensures
        r == event_counts(snapshot@, local_device_id@, event, actor@, opt_view(*password)),
{
    match event {
        RoomEvent::Join => {
            str_eq(snapshot.room.host_peer_id.as_str(), local_device_id) && !(snapshot.room.visibility
                == GameRoomVisibility::Password && !opt_str_eq(&snapshot.room.password_hash, password))
                && snapshot.room.guest_peer_id.is_none()
        },
        RoomEvent::Leave => {
            !str_eq(snapshot.room.host_peer_id.as_str(), actor) && opt_is(&snapshot.room.guest_peer_id, actor)
        },
        RoomEvent::RestartRequest => {
            ensure_host(snapshot, local_device_id).is_ok() && ensure_member(snapshot, actor).is_ok()
        },
        RoomEvent::RestartAccept => {
            ensure_host(snapshot, local_device_id).is_ok() && ensure_member(snapshot, actor).is_ok()
                && snapshot.gomoku_state.restart_requested_by.is_some() && !opt_is(
                &snapshot.gomoku_state.restart_requested_by,
                actor,
            )
        },
        RoomEvent::Surrender => {
            ensure_host(snapshot, local_device_id).is_ok() && ensure_member(snapshot, actor).is_ok()
                && color_for_peer(snapshot, actor).is_ok()
        },
    }
}

/// Whether a move by `actor` at `(x, y)` gets past the checks before its
/// point on the board is read.
fn reaches_board(snapshot: &GameRoomSnapshot, local_device_id: &str, actor: &str, x: usize, y: usize) -> (r: bool)
    ensures
        r == move_reaches_board(snapshot@, local_device_id@, actor@, x as int, y as int),
{
    if ensure_host(snapshot, local_device_id).is_err() || ensure_member(snapshot, actor).is_err() {
        return false;
    }
    if snapshot.room.status != GameRoomStatus::Playing || x >= BOARD_SIZE || y >= BOARD_SIZE {
        return false;
    }
    match color_for_peer(snapshot, actor) {
        Ok(c) => snapshot.gomoku_state.current_turn == c,
        Err(_) => false,
    }
}

/// Whether a board has all its rows and columns.
fn board_full(board: &Vec<Vec<u8>>) -> (r: bool)
    ensures
        r == board_ok(grid(board@)),
{
    if board.len() < BOARD_SIZE {
        return false;
    }
    let mut r: usize = 0;
    while r < BOARD_SIZE
        invariant
            r <= BOARD_SIZE,
            board@.len() >= BOARD_SIZE,
            forall|q: int| 0 <= q < r ==> #[trigger] board@[q]@.len() >= BOARD_SIZE,
        decreases BOARD_SIZE - r,
    {
        if board[r].len() < BOARD_SIZE {
            assert(grid(board@)[r as int].len() < BOARD_SIZE);
            return false;
        }
        r = r + 1;
    }
    assert forall|q: int| 0 <= q < BOARD_SIZE implies #[trigger] grid(board@)[q].len() >= BOARD_SIZE by {
        assert(grid(board@)[q] == board@[q]@);
    }
    true
}

/// Succeeds when this device hosts the room.
pub fn ensure_host(snapshot: &GameRoomSnapshot, local_device_id: &str) -> (r: Result<(), String>)
    ensures
        r is Ok <==> snapshot.room.host_peer_id@ == local_device_id@,
        r matches Err(e) ==> e@ == "当前设备不是房主"@,
{
    if str_eq(snapshot.room.host_peer_id.as_str(), local_device_id) {
        Ok(())
    } else {
        Err(text("当前设备不是房主"))
    }
}

/// Succeeds when the peer is the room's host or guest.
pub fn ensure_member(snapshot: &GameRoomSnapshot, peer_id: &str) -> (r: Result<(), String>)
    ensures
        r is Ok <==> is_member(snapshot@, peer_id@),
        r matches Err(e) ==> e@ == "你不在当前房间中"@,
{
    if str_eq(snapshot.room.host_peer_id.as_str(), peer_id) || opt_is(
        &snapshot.room.guest_peer_id,
        peer_id,
    ) {
        Ok(())
    } else {
        Err(text("你不在当前房间中"))
    }
}

/// The colour the peer plays.
pub fn color_for_peer(snapshot: &GameRoomSnapshot, peer_id: &str) -> (r: Result<u8, String>)
    ensures
        match color_of(snapshot@, peer_id@) {
            Some(c) => r == Ok::<u8, String>(c),
            None => r is Err && r->Err_0@ == "当前玩家没有执棋资格"@,
        },
{
    if str_eq(snapshot.gomoku_state.black_peer_id.as_str(), peer_id) {
        Ok(1)
    } else if opt_is(&snapshot.gomoku_state.white_peer_id, peer_id) {
        Ok(2)
    } else {
        Err(text("当前玩家没有执棋资格"))
    }
}

/// Replaces the room with the same id, or adds the room at the end.
pub fn upsert_snapshot(rooms: &mut Vec<GameRoomSnapshot>, snapshot: GameRoomSnapshot)
    ensures
        snaps(final(rooms)@) == upsert(snaps(old(rooms)@), snapshot@),
{
    let ghost model = snaps(rooms@);
    let found = position_in(rooms, snapshot.room.room_id.as_str());
    let ghost s = snapshot@;
    match found {
        Some(i) => {
            rooms.set(i, snapshot);
            assert(snaps(rooms@) =~= model.update(i as int, s));
        },
        None => {
            rooms.push(snapshot);
            assert(snaps(rooms@) =~= model.push(s));
        },
    }
}

/// The first position of a room with id `room_id`.
pub fn position_in(rooms: &Vec<GameRoomSnapshot>, room_id: &str) -> (r: Option<usize>)
    ensures
        match r {
            Some(i) => index_of(snaps(rooms@), room_id@) == i,
            None => index_of(snaps(rooms@), room_id@) == -1,
        },
{
    let ghost model = snaps(rooms@);
    let mut i: usize = 0;
    while i < rooms.len()
        invariant
            i <= rooms@.len(),
            model == snaps(rooms@),
            forall|j: int| 0 <= j < i ==> #[trigger] model[j].room.room_id != room_id@,
        decreases rooms.len() - i,
    {
        assert(model[i as int] == rooms@[i as int]@);
        if str_eq(rooms[i].room.room_id.as_str(), room_id) {
            proof {
                lemma_index_of_first(model, room_id@, i as int);
            }
            return Some(i);
        }
        i = i + 1;
    }
    proof {
        lemma_index_of_none(model, room_id@);
    }
    None
}

/// A password room was asked for without a usable password.
pub open spec fn hash_missing(visibility: GameRoomVisibility, hash: Option<Seq<char>>) -> bool {
    visibility == GameRoomVisibility::Password && (hash is None || trim(hash->0).len() == 0)
}

/// The password hash a room keeps: none for a public room, the trimmed hash
/// otherwise.
pub open spec fn kept_hash(visibility: GameRoomVisibility, hash: Option<Seq<char>>) -> Option<Seq<char>> {
    if visibility == GameRoomVisibility::Public {
        None
    } else {
        Some(trim(hash->0))
    }
}

/// A room as it is opened: waiting for a player, hosted here, on a fresh board.
pub open spec fn created(
    room_id: Seq<char>,
    room_name: Seq<char>,
    local: Seq<char>,
    host_name: Seq<char>,
    visibility: GameRoomVisibility,
    hash: Option<Seq<char>>,
    now: i64,
    event_id: Seq<char>,
) -> SnapshotModel {
    let room = RoomModel {
        room_id,
        game_type: GameType::Gomoku,
        room_name,
        host_peer_id: local,
        host_name,
        guest_peer_id: None,
        guest_name: None,
        visibility,
        password_hash: kept_hash(visibility, hash),
        status: GameRoomStatus::Waiting,
        created_at: now,
        updated_at: now,
    };
    SnapshotModel { room, state: fresh_state(room), version: 1, last_event_id: event_id }
}

/// The name of a new room: trimmed and cut to 48 characters, and not empty.
pub fn clean_room_name(value: &str) -> (r: Result<String, String>)
    ensures
        match r {
            Ok(name) => name@ == clean_text(value@, 48) && name@.len() > 0,
            Err(e) => e@ == "小游戏房间名称不能为空"@ && clean_text(value@, 48).len() == 0,
        },
{
    let name = clean_chars(value, 48);
    if name.as_str().is_empty() {
        Err(text("小游戏房间名称不能为空"))
    } else {
        Ok(name)
    }
}

/// The password hash a new room keeps, or the error for a password room
/// without one.
pub fn normalized_password_hash(visibility: GameRoomVisibility, password_hash: Option<String>) -> (r: Result<Option<String>, String>)
    ensures
        match r {
            Ok(h) => !hash_missing(visibility, opt_view(password_hash)) && opt_view(h) == kept_hash(
                visibility,
                opt_view(password_hash),
            ),
            Err(e) => e@ == "密码房间必须提供密码"@ && hash_missing(visibility, opt_view(password_hash)),
        },
{
    if visibility == GameRoomVisibility::Public {
        return Ok(None);
    }
    match password_hash {
        Some(item) => {
            let value = trimmed(item.as_str());
            if value.as_str().is_empty() {
                Err(text("密码房间必须提供密码"))
            } else {
                Ok(Some(value))
            }
        },
        None => Err(text("密码房间必须提供密码")),
    }
}

/// Whether `a` is listed before `b`.
fn listed_first(a: &GameRoomSummary, b: &GameRoomSummary) -> (r: bool)
    ensures
        r == listed_before(a@, b@),
{
    a.created_at > b.created_at || (a.created_at == b.created_at && str_lt(
        a.room_name.as_str(),
        b.room_name.as_str(),
    ))
}

proof fn lemma_listed_before_order(a: RoomModel, b: RoomModel, c: RoomModel)
    ensures
        !listed_before(a, a),
        listed_before(a, b) && listed_before(b, c) ==> listed_before(a, c),
{
    lemma_seq_lt_irreflexive(a.room_name);
    if listed_before(a, b) && listed_before(b, c) && a.created_at == b.created_at && b.created_at
        == c.created_at {
        lemma_seq_lt_transitive(a.room_name, b.room_name, c.room_name);
    }
}

/// Rooms of the same listing rank: created at the same second, with the same
/// name.
pub open spec fn same_listing_rank(a: RoomModel, b: RoomModel) -> bool {
    a.created_at == b.created_at && a.room_name == b.room_name
}

/// The rooms of `rooms` of the same listing rank as `k`, in their order.
pub open spec fn listing_group(rooms: Seq<RoomModel>, k: RoomModel) -> Seq<RoomModel> {
    rooms.filter(|c: RoomModel| same_listing_rank(c, k))
}

/// Sorts rooms newest first and then by name, keeping rooms of the same rank
/// in the order given.
pub fn sort_for_listing(rooms: Vec<GameRoomSummary>) -> (r: Vec<GameRoomSummary>)
    ensures
        summaries(r@).to_multiset() == summaries(rooms@).to_multiset(),
        sorted_for_listing(summaries(r@)),
        forall|k: RoomModel| #[trigger] listing_group(summaries(r@), k) == listing_group(summaries(rooms@), k),
{
    let ghost input = summaries(rooms@);
    let mut out: Vec<GameRoomSummary> = Vec::new();
    let mut i: usize = 0;
    assert(summaries(out@) =~= input.take(0));
    while i < rooms.len()
        invariant
            i <= rooms@.len(),
            input == summaries(rooms@),
            summaries(out@).to_multiset() == input.take(i as int).to_multiset(),
            sorted_for_listing(summaries(out@)),
            forall|k: RoomModel| #[trigger] listing_group(summaries(out@), k) == listing_group(input.take(i as int), k),
        decreases rooms.len() - i,
    {
        let item = rooms[i].clone();
        let ghost x = item@;
        assert(x == input[i as int]);
        let ghost cur = summaries(out@);
        let mut p: usize = 0;
        while p < out.len() && !listed_first(&item, &out[p])
            invariant
                p <= out@.len(),
                cur == summaries(out@),
                x == item@,
                forall|k: int| 0 <= k < p ==> !listed_before(x, #[trigger] cur[k]),
            decreases out.len() - p,
        {
            assert(cur[p as int] == out@[p as int]@);
            p = p + 1;
        }
        proof {
            if p < cur.len() {
                assert(cur[p as int] == out@[p as int]@);
            }
        }
        out.insert(p, item);
        let ghost next = summaries(out@);
        assert(next =~= cur.insert(p as int, x));
        proof {
            vstd::seq_lib::to_multiset_insert(cur, p as int, x);
            vstd::seq_lib::to_multiset_build(input.take(i as int), x);
            assert(input.take(i + 1) =~= input.take(i as int).push(x));
            assert forall|j: int| p <= j < cur.len() implies !same_listing_rank(#[trigger] cur[j], x) by {
                assert(listed_before(x, cur[p as int]));
                if same_listing_rank(cur[j], x) {
                    lemma_seq_lt_irreflexive(x.room_name);
                    if j > p {
                        assert(!listed_before(cur[j], cur[p as int]));
                    }
                }
            }
            assert forall|k: RoomModel| #[trigger] listing_group(next, k) == listing_group(input.take(i + 1), k) by {
                let pred = |c: RoomModel| same_listing_rank(c, k);
                assert forall|j: int| pred(x) && p <= j < cur.len() implies !pred(#[trigger] cur[j]) by {
                    assert(!same_listing_rank(cur[j], x));
                }
                lemma_filter_insert(cur, p as int, x, pred);
                input.take(i as int).lemma_filter_push(x, pred);
                assert(listing_group(cur, k) == cur.filter(pred));
                assert(listing_group(cur, k) == listing_group(input.take(i as int), k));
                assert(next.filter(pred) == cur.insert(p as int, x).filter(pred));
                assert(input.take(i + 1).filter(pred) == input.take(i as int).push(x).filter(pred));
            }
            assert forall|a: int, b: int| 0 <= a < b < next.len() implies !listed_before(#[trigger] next[b], #[trigger] next[a]) by {
                if a < p && b == p {
                    assert(next[a] == cur[a]);
                } else if a == p && b > p {
                    assert(next[b] == cur[b - 1]);
                    if listed_before(cur[b - 1], x) {
                        lemma_listed_before_order(cur[b - 1], x, cur[p as int]);
                        lemma_listed_before_order(cur[p as int], cur[b - 1], cur[b - 1]);
                        if b - 1 > p {
                            assert(!listed_before(cur[b - 1], cur[p as int]));
                        }
                    }
                } else if a < p && b > p {
                    assert(next[a] == cur[a]);
                    assert(next[b] == cur[b - 1]);
                } else if a > p {
                    assert(next[a] == cur[a - 1]);
                    assert(next[b] == cur[b - 1]);
                } else {
                    assert(next[a] == cur[a]);
                    assert(next[b] == cur[b]);
                }
            }
        }
        i = i + 1;
    }
    assert(input.take(i as int) =~= input);
    out
}

/// The texts of a list of ids.
pub open spec fn ids_view(ids: Seq<String>) -> Seq<Seq<char>> {
    ids.map_values(|id: String| id@)
}

/// Whether `id` is among `ids`.
pub fn contains_id(ids: &Vec<String>, id: &str) -> (r: bool)
    ensures
        r == ids_view(ids@).contains(id@),
{
    let mut i: usize = 0;
    while i < ids.len()
        invariant
            i <= ids@.len(),
            forall|k: int| 0 <= k < i ==> ids_view(ids@)[k] != id@,
        decreases ids.len() - i,
    {
        assert(ids_view(ids@)[i as int] == ids@[i as int]@);
        if str_eq(ids[i].as_str(), id) {
            assert(ids_view(ids@)[i as int] == id@);
            return true;
        }
        i = i + 1;
    }
    false
}

spec fn room_id_of(request: &GameJoinRequest) -> Seq<char> {
    request.room_id@
}

/// The name a joining player is shown by.
pub fn clean_nickname(value: &str) -> (r: String)
    ensures
        r@ == player_name(value@),
{
    let nickname = clean_chars(value, 32);
    if nickname.as_str().is_empty() {
        text("玩家")
    } else {
        nickname
    }
}

proof fn lemma_pruned_versions(rooms: Seq<SnapshotModel>, local: Seq<char>, now: i64, id: Seq<char>, event: RoomEvent, actor: Seq<char>, password: Option<Seq<char>>)
    requires
        event_versions_ok(rooms, local, id, event, actor, password),
    ensures
        event_versions_ok(pruned(rooms, local, now), local, id, event, actor, password),
{
    let p = pruned(rooms, local, now);
    let pred = |s: SnapshotModel| keep_room(s, local, now);
    assert forall|i: int| 0 <= i < p.len() && #[trigger] p[i].room.room_id == id && event_counts(p[i], local, event, actor, password) implies p[i].version < i64::MAX by {
        assert(p.contains(p[i]));
        rooms.lemma_filter_contains_rev(pred, p[i]);
        let k = choose|k: int| 0 <= k < rooms.len() && rooms[k] == p[i];
        assert(rooms[k].room.room_id == id);
    }
}

// ---------------------------------------------------------------------------
// The rooms this device knows.
// ---------------------------------------------------------------------------

/// The gomoku rooms this device knows, hosted here or elsewhere.
pub struct GameService {
    rooms: Vec<GameRoomSnapshot>,
    local_device_id: String,
}

impl View for GameService {
    type V = Seq<SnapshotModel>;

    closed spec fn view(&self) -> Seq<SnapshotModel> {
        snaps(self.rooms@)
    }
}

impl GameService {
    /// The id of this device.
    pub closed spec fn local(&self) -> Seq<char> {
        self.local_device_id@
    }

    /// A service for this device that knows the given rooms.
    pub fn new(local_device_id: String, rooms: Vec<GameRoomSnapshot>) -> (r: Self)
        ensures
            r@ == snaps(rooms@),
            r.local() == local_device_id@,
    {
        GameService { rooms, local_device_id }
    }

    /// The position of the room `room_id` among the rooms, if it is there.
    fn position(&self, room_id: &str) -> (r: Option<usize>)
        ensures
            match r {
                Some(i) => index_of(self@, room_id@) == i && i < self@.len(),
                None => index_of(self@, room_id@) == -1,
            },
    {
        let r = position_in(&self.rooms, room_id);
        proof {
            lemma_index_of_range(self@, room_id@);
        }
        r
    }

    /// Places a stone for `actor_peer_id` at `(x, y)` in a room this device
    /// hosts, at time `now`, recording the event as `event_id`.
    pub fn request_move_at(
        &mut self,
        room_id: &str,
        actor_peer_id: &str,
        x: usize,
        y: usize,
        now: i64,
        event_id: String,
    ) -> (r: Result<GameRoomSnapshot, String>)
        requires
            move_ready(old(self)@, old(self).local(), room_id@, actor_peer_id@, x as int, y as int),
        ensures
            final(self).local() == old(self).local(),
            move_outcome(
                pruned(old(self)@, old(self).local(), now),
                old(self).local(),
                room_id@,
                actor_peer_id@,
                x,
                y,
                now,
                event_id@,
                r,
                final(self)@,
            ),
    {
        proof {
            lemma_pruned_ready(self@, self.local(), now, room_id@, actor_peer_id@, x as int, y as int);
        }
        self.prune_stale_remote_rooms_at(now);
        let ghost rooms = self@;
        let i = match self.position(room_id) {
            Some(i) => i,
            None => {
                return Err(text("小游戏房间不存在"));
            },
        };
        let mut snapshot = self.rooms[i].clone();
        assert(snapshot@ == rooms[i as int]);
        if let Err(e) = ensure_host(&snapshot, self.local_device_id.as_str()) {
            return Err(e);
        }
        if let Err(e) = ensure_member(&snapshot, actor_peer_id) {
            return Err(e);
        }
        if snapshot.room.status != GameRoomStatus::Playing {
            return Err(text("当前房间不在对局中"));
        }
        if x >= BOARD_SIZE || y >= BOARD_SIZE {
            return Err(text("落子位置超出棋盘范围"));
        }
        let color = match color_for_peer(&snapshot, actor_peer_id) {
            Ok(c) => c,
            Err(e) => {
                return Err(e);
            },
        };
        if snapshot.gomoku_state.current_turn != color {
            return Err(text("当前还不是你的回合"));
        }
        assert(grid(snapshot.gomoku_state.board@)[y as int] == snapshot.gomoku_state.board@[y as int]@);
        if snapshot.gomoku_state.board[y][x] != 0 {
            return Err(text("该位置已有棋子"));
        }
        let ghost before = snapshot@;
        let mut row = snapshot.gomoku_state.board[y].clone();
        assert(cloned(snapshot.gomoku_state.board@[y as int], row));
        assert(row@ =~= before.state.board[y as int]);
        row.set(x, color);
        snapshot.gomoku_state.board.set(y, row);
        assert(grid(snapshot.gomoku_state.board@) =~= before.state.board.update(
            y as int,
            before.state.board[y as int].update(x as int, color),
        ));
        snapshot.gomoku_state.last_move = Some(GomokuPoint { x, y });
        let ghost history = snapshot.gomoku_state.move_history@;
        snapshot.gomoku_state.move_history.push(
            GomokuMoveRecord { x, y, color, peer_id: text(actor_peer_id), timestamp: now },
        );
        assert(moves_view(snapshot.gomoku_state.move_history@) =~= moves_view(history).push(
            MoveModel { x, y, color, peer_id: actor_peer_id@, timestamp: now },
        ));
        snapshot.gomoku_state.restart_requested_by = None;
        if is_winning_move(&snapshot.gomoku_state.board, x, y, color) {
            snapshot.gomoku_state.winner = Some(color);
            snapshot.room.status = GameRoomStatus::Finished;
            snapshot.gomoku_state.ended_reason = Some(text("win"));
            snapshot.gomoku_state.status_text = if color == 1 {
                text("黑方获胜")
            } else {
                text("白方获胜")
            };
        } else {
            snapshot.gomoku_state.current_turn = if color == 1 {
                2
            } else {
                1
            };
            snapshot.gomoku_state.status_text = if snapshot.gomoku_state.current_turn == 1 {
                text("黑方回合")
            } else {
                text("白方回合")
            };
        }
        snapshot.room.updated_at = now;
        touch_snapshot(&mut snapshot, event_id);
        assert(snapshot@ == played(before, actor_peer_id@, x, y, color, now, event_id@));
        upsert_snapshot(&mut self.rooms, snapshot.clone());
        proof {
            lemma_index_of_first(rooms, room_id@, i as int);
        }
        Ok(snapshot)
    }

    /// `actor_peer_id` asks, in a room this device hosts, to start the game over.
    pub fn request_restart_at(&mut self, room_id: &str, actor_peer_id: &str, now: i64, event_id: String) -> (r: Result<GameRoomSnapshot, String>)
        requires
            event_versions_ok(old(self)@, old(self).local(), room_id@, RoomEvent::RestartRequest, actor_peer_id@, None),
        ensures
            final(self).local() == old(self).local(),
            restart_request_outcome(
                pruned(old(self)@, old(self).local(), now),
                old(self).local(),
                room_id@,
                actor_peer_id@,
                now,
                event_id@,
                r,
                final(self)@,
            ),
    {
        proof {
            lemma_pruned_versions(self@, self.local(), now, room_id@, RoomEvent::RestartRequest, actor_peer_id@, None);
        }
        self.prune_stale_remote_rooms_at(now);
        let ghost rooms = self@;
        let i = match self.position(room_id) {
            Some(i) => i,
            None => {
                return Err(text("小游戏房间不存在"));
            },
        };
        let mut snapshot = self.rooms[i].clone();
        assert(snapshot@ == rooms[i as int]);
        if let Err(e) = ensure_host(&snapshot, self.local_device_id.as_str()) {
            return Err(e);
        }
        if let Err(e) = ensure_member(&snapshot, actor_peer_id) {
            return Err(e);
        }
        snapshot.gomoku_state.restart_requested_by = Some(text(actor_peer_id));
        snapshot.gomoku_state.status_text = text("等待对方确认重新开始");
        snapshot.room.updated_at = now;
        touch_snapshot(&mut snapshot, event_id);
        upsert_snapshot(&mut self.rooms, snapshot.clone());
        proof {
            lemma_index_of_first(rooms, room_id@, i as int);
        }
        Ok(snapshot)
    }

    /// `actor_peer_id` agrees, in a room this device hosts, to the other
    /// player's request to start over.
    pub fn accept_restart_at(&mut self, room_id: &str, actor_peer_id: &str, now: i64, event_id: String) -> (r: Result<GameRoomSnapshot, String>)
        requires
            event_versions_ok(old(self)@, old(self).local(), room_id@, RoomEvent::RestartAccept, actor_peer_id@, None),
        ensures
            final(self).local() == old(self).local(),
            restart_accept_outcome(
                pruned(old(self)@, old(self).local(), now),
                old(self).local(),
                room_id@,
                actor_peer_id@,
                now,
                event_id@,
                r,
                final(self)@,
            ),
    {
        proof {
            lemma_pruned_versions(self@, self.local(), now, room_id@, RoomEvent::RestartAccept, actor_peer_id@, None);
        }
        self.prune_stale_remote_rooms_at(now);
        let ghost rooms = self@;
        let i = match self.position(room_id) {
            Some(i) => i,
            None => {
                return Err(text("小游戏房间不存在"));
            },
        };
        let mut snapshot = self.rooms[i].clone();
        assert(snapshot@ == rooms[i as int]);
        if let Err(e) = ensure_host(&snapshot, self.local_device_id.as_str()) {
            return Err(e);
        }
        if let Err(e) = ensure_member(&snapshot, actor_peer_id) {
            return Err(e);
        }
        let requester = match &snapshot.gomoku_state.restart_requested_by {
            Some(requester) => requester.clone(),
            None => {
                return Err(text("当前没有待确认的重新开始请求"));
            },
        };
        if str_eq(requester.as_str(), actor_peer_id) {
            return Err(text("不能由发起者自己确认重新开始"));
        }
        let black_peer_id = snapshot.gomoku_state.black_peer_id.clone();
        let white_peer_id = snapshot.gomoku_state.white_peer_id.clone();
        snapshot.gomoku_state = new_gomoku_state(&snapshot.room);
        snapshot.gomoku_state.black_peer_id = black_peer_id;
        snapshot.gomoku_state.white_peer_id = white_peer_id;
        snapshot.room.status = if snapshot.room.guest_peer_id.is_some() {
            GameRoomStatus::Playing
        } else {
            GameRoomStatus::Waiting
        };
        snapshot.gomoku_state.status_text = if snapshot.room.status == GameRoomStatus::Playing {
            text("黑方回合")
        } else {
            text("等待玩家加入")
        };
        snapshot.room.updated_at = now;
        touch_snapshot(&mut snapshot, event_id);
        upsert_snapshot(&mut self.rooms, snapshot.clone());
        proof {
            lemma_index_of_first(rooms, room_id@, i as int);
        }
        Ok(snapshot)
    }

    /// `actor_peer_id` gives up the game in a room this device hosts.
    pub fn surrender_at(&mut self, room_id: &str, actor_peer_id: &str, now: i64, event_id: String) -> (r: Result<GameRoomSnapshot, String>)
        requires
            event_versions_ok(old(self)@, old(self).local(), room_id@, RoomEvent::Surrender, actor_peer_id@, None),
        ensures
            final(self).local() == old(self).local(),
            surrender_outcome(
                pruned(old(self)@, old(self).local(), now),
                old(self).local(),
                room_id@,
                actor_peer_id@,
                now,
                event_id@,
                r,
                final(self)@,
            ),
    {
        proof {
            lemma_pruned_versions(self@, self.local(), now, room_id@, RoomEvent::Surrender, actor_peer_id@, None);
        }
        self.prune_stale_remote_rooms_at(now);
        let ghost rooms = self@;
        let i = match self.position(room_id) {
            Some(i) => i,
            None => {
                return Err(text("小游戏房间不存在"));
            },
        };
        let mut snapshot = self.rooms[i].clone();
        assert(snapshot@ == rooms[i as int]);
        if let Err(e) = ensure_host(&snapshot, self.local_device_id.as_str()) {
            return Err(e);
        }
        if let Err(e) = ensure_member(&snapshot, actor_peer_id) {
            return Err(e);
        }
        let color = match color_for_peer(&snapshot, actor_peer_id) {
            Ok(c) => c,
            Err(e) => {
                return Err(e);
            },
        };
        let winner: u8 = if color == 1 {
            2
        } else {
            1
        };
        snapshot.room.status = GameRoomStatus::Finished;
        snapshot.gomoku_state.winner = Some(winner);
        snapshot.gomoku_state.ended_reason = Some(text("surrender"));
        snapshot.gomoku_state.restart_requested_by = None;
        snapshot.gomoku_state.status_text = if winner == 1 {
            text("黑方获胜（对手认输）")
        } else {
            text("白方获胜（对手认输）")
        };
        snapshot.room.updated_at = now;
        touch_snapshot(&mut snapshot, event_id);
        upsert_snapshot(&mut self.rooms, snapshot.clone());
        proof {
            lemma_index_of_first(rooms, room_id@, i as int);
        }
        Ok(snapshot)
    }

    /// Answers a request to join a room this device hosts.
    pub fn join_room_request_at(&mut self, request: GameJoinRequest, now: i64, event_id: String) -> (r: Result<GameJoinResponse, String>)
        requires
            event_versions_ok(old(self)@, old(self).local(), request.room_id@, RoomEvent::Join, request.user_id@, opt_view(request.password_hash)),
        ensures
            final(self).local() == old(self).local(),
            join_outcome(
                pruned(old(self)@, old(self).local(), now),
                old(self).local(),
                request.room_id@,
                request.user_id@,
                request.nickname@,
                opt_view(request.password_hash),
                now,
                event_id@,
                r,
                final(self)@,
            ),
    {
        proof {
            lemma_pruned_versions(self@, self.local(), now, request.room_id@, RoomEvent::Join, request.user_id@, opt_view(request.password_hash));
        }
        self.prune_stale_remote_rooms_at(now);
        let ghost rooms = self@;
        let i = match self.position(request.room_id.as_str()) {
            Some(i) => i,
            None => {
                return Err(text("小游戏房间不存在"));
            },
        };
        let mut snapshot = self.rooms[i].clone();
        assert(snapshot@ == rooms[i as int]);
        if !str_eq(snapshot.room.host_peer_id.as_str(), self.local_device_id.as_str()) {
            return Err(text("当前设备不是房主"));
        }
        if snapshot.room.visibility == GameRoomVisibility::Password && !opt_str_eq(
            &snapshot.room.password_hash,
            &request.password_hash,
        ) {
            return Ok(
                GameJoinResponse { accepted: false, reason: Some(text("密码错误")), snapshot: None },
            );
        }
        if opt_is(&snapshot.room.guest_peer_id, request.user_id.as_str()) {
            return Ok(GameJoinResponse { accepted: true, reason: None, snapshot: Some(snapshot) });
        }
        if snapshot.room.guest_peer_id.is_some() {
            return Ok(
                GameJoinResponse { accepted: false, reason: Some(text("房间已满")), snapshot: None },
            );
        }
        snapshot.room.guest_peer_id = Some(request.user_id.clone());
        snapshot.room.guest_name = Some(clean_nickname(request.nickname.as_str()));
        snapshot.room.status = GameRoomStatus::Playing;
        snapshot.room.updated_at = now;
        snapshot.gomoku_state.white_peer_id = Some(request.user_id);
        snapshot.gomoku_state.current_turn = 1;
        snapshot.gomoku_state.status_text = text("黑方回合");
        touch_snapshot(&mut snapshot, event_id);
        upsert_snapshot(&mut self.rooms, snapshot.clone());
        proof {
            lemma_index_of_first(rooms, room_id_of(&request), i as int);
        }
        Ok(GameJoinResponse { accepted: true, reason: None, snapshot: Some(snapshot) })
    }

    /// Whether every stored room with id `room_id` on which `event` by `actor`
    /// (with `password` for a join) counts can take one more event: what that
    /// event asks before it is applied.
    pub fn ready_for_event(&self, room_id: &str, event: RoomEvent, actor: &str, password: &Option<String>) -> (r: bool)
        ensures
            r == event_versions_ok(self@, self.local(), room_id@, event, actor@, opt_view(*password)),
    {
        let mut i: usize = 0;
        while i < self.rooms.len()
            invariant
                i <= self.rooms@.len(),
                forall|k: int|
                    0 <= k < i && #[trigger] self@[k].room.room_id == room_id@ && event_counts(
                        self@[k],
                        self.local(),
                        event,
                        actor@,
                        opt_view(*password),
                    ) ==> self@[k].version < i64::MAX,
            decreases self.rooms.len() - i,
        {
            let snapshot = &self.rooms[i];
            assert(self@[i as int] == snapshot@);
            if str_eq(snapshot.room.room_id.as_str(), room_id) && counts_on(
                snapshot,
                self.local_device_id.as_str(),
                event,
                actor,
                password,
            ) && snapshot.version == i64::MAX {
                assert(self@[i as int].room.room_id == room_id@);
                return false;
            }
            i = i + 1;
        }
        true
    }

    /// Whether a move by `actor_peer_id` at `(x, y)` finds, in every stored
    /// room with id `room_id` whose board it reads, a full board and, when the
    /// point is free, room for one more event: what a move asks before it is
    /// applied.
    pub fn ready_for_move(&self, room_id: &str, actor_peer_id: &str, x: usize, y: usize) -> (r: bool)
        ensures
            r == move_ready(self@, self.local(), room_id@, actor_peer_id@, x as int, y as int),
    {
        let mut i: usize = 0;
        while i < self.rooms.len()
            invariant
                i <= self.rooms@.len(),
                forall|k: int|
                    0 <= k < i && #[trigger] self@[k].room.room_id == room_id@ && move_reaches_board(
                        self@[k],
                        self.local(),
                        actor_peer_id@,
                        x as int,
                        y as int,
                    ) ==> {
                        &&& board_ok(self@[k].state.board)
                        &&& self@[k].state.board[y as int][x as int] == 0 ==> self@[k].version < i64::MAX
                    },
            decreases self.rooms.len() - i,
        {
            let snapshot = &self.rooms[i];
            assert(self@[i as int] == snapshot@);
            if str_eq(snapshot.room.room_id.as_str(), room_id) && reaches_board(
                snapshot,
                self.local_device_id.as_str(),
                actor_peer_id,
                x,
                y,
            ) {
                assert(self@[i as int].room.room_id == room_id@);
                assert(self@[i as int].state.board == grid(snapshot.gomoku_state.board@));
                if !board_full(&snapshot.gomoku_state.board) {
                    return false;
                }
                assert(grid(snapshot.gomoku_state.board@)[y as int] == snapshot.gomoku_state.board@[y as int]@);
                if snapshot.gomoku_state.board[y][x] == 0 && snapshot.version == i64::MAX {
                    assert(self@[i as int].version == i64::MAX);
                    return false;
                }
            }
            i = i + 1;
        }
        true
    }

    /// Every room this device knows, as stored.
    pub fn snapshots(&self) -> (r: Vec<GameRoomSnapshot>)
        ensures
            snaps(r@) == self@,
    {
        let mut out: Vec<GameRoomSnapshot> = Vec::new();
        let mut i: usize = 0;
        while i < self.rooms.len()
            invariant
                i <= self.rooms@.len(),
                snaps(out@) == self@.take(i as int),
            decreases self.rooms.len() - i,
        {
            let ghost before = snaps(out@);
            out.push(self.rooms[i].clone());
            assert(snaps(out@) =~= before.push(self@[i as int]));
            assert(self@.take(i + 1) =~= self@.take(i as int).push(self@[i as int]));
            i = i + 1;
        }
        assert(self@.take(i as int) =~= self@);
        out
    }

    /// Stores a room as received: it replaces the room with its id, or is added.
    pub fn accept_room(&mut self, snapshot: GameRoomSnapshot)
        ensures
            final(self)@ == upsert(old(self)@, snapshot@),
            final(self).local() == old(self).local(),
    {
        upsert_snapshot(&mut self.rooms, snapshot);
    }

    /// Forgets every room with id `room_id`.
    pub fn remove_room(&mut self, room_id: &str)
        ensures
            final(self)@ == without_room(old(self)@, room_id@),
            final(self).local() == old(self).local(),
    {
        let ghost model = self@;
        let ghost pred = |s: SnapshotModel| s.room.room_id != room_id@;
        let mut kept: Vec<GameRoomSnapshot> = Vec::new();
        let mut i: usize = 0;
        while i < self.rooms.len()
            invariant
                i <= self.rooms@.len(),
                model == snaps(self.rooms@),
                pred == (|s: SnapshotModel| s.room.room_id != room_id@),
                snaps(kept@) == model.take(i as int).filter(pred),
            decreases self.rooms.len() - i,
        {
            assert(model.take(i + 1).drop_last() =~= model.take(i as int));
            let s = &self.rooms[i];
            assert(model[i as int] == s@);
            assert(model.take(i + 1).last() == s@);
            let keep = !str_eq(s.room.room_id.as_str(), room_id);
            reveal_with_fuel(Seq::<_>::filter, 1);
            assert(pred(s@) == keep);
            if keep {
                let ghost old_kept = snaps(kept@);
                kept.push(s.clone());
                assert(snaps(kept@) =~= old_kept.push(s@));
            }
            i = i + 1;
        }
        assert(model.take(i as int) =~= model);
        self.rooms = kept;
    }

    /// The room `room_id`, once stale rooms are dropped as of `now`.
    pub fn find_snapshot_at(&mut self, room_id: &str, now: i64) -> (r: Option<GameRoomSnapshot>)
        ensures
            final(self)@ == pruned(old(self)@, old(self).local(), now),
            final(self).local() == old(self).local(),
            match r {
                Some(s) => lookup(final(self)@, room_id@) == Some(s@),
                None => lookup(final(self)@, room_id@) is None,
            },
    {
        self.prune_stale_remote_rooms_at(now);
        match self.position(room_id) {
            Some(i) => Some(self.rooms[i].clone()),
            None => None,
        }
    }

    /// The summary of the room `room_id`, once stale rooms are dropped as of `now`.
    pub fn find_room_at(&mut self, room_id: &str, now: i64) -> (r: Option<GameRoomSummary>)
        ensures
            final(self)@ == pruned(old(self)@, old(self).local(), now),
            final(self).local() == old(self).local(),
            match r {
                Some(s) => lookup(final(self)@, room_id@) matches Some(t) && t.room == s@,
                None => lookup(final(self)@, room_id@) is None,
            },
    {
        match self.find_snapshot_at(room_id, now) {
            Some(snapshot) => Some(snapshot.room),
            None => None,
        }
    }

    /// How the device `local_id` stands in the room `room_id`: whether it
    /// hosts it and whether it plays in it.
    pub fn activation_at(&mut self, room_id: &str, local_id: &str, now: i64) -> (r: Result<GameActivation, String>)
        ensures
            final(self)@ == pruned(old(self)@, old(self).local(), now),
            final(self).local() == old(self).local(),
            match lookup(final(self)@, room_id@) {
                Some(t) => r matches Ok(a) && a.room@ == t.room && a.is_host == (t.room.host_peer_id
                    == local_id@) && a.is_member == is_member(t, local_id@),
                None => r matches Err(e) && e@ == "小游戏房间不存在"@,
            },
    {
        let room = match self.find_room_at(room_id, now) {
            Some(room) => room,
            None => {
                return Err(text("小游戏房间不存在"));
            },
        };
        let is_host = str_eq(room.host_peer_id.as_str(), local_id);
        let is_member = is_host || opt_is(&room.guest_peer_id, local_id);
        Ok(GameActivation { room, is_host, is_member })
    }

    /// Dissolves the room `room_id`, which only its host may do.
    pub fn close_room_at(&mut self, room_id: &str, requester_id: &str, now: i64) -> (r: Result<(), String>)
        ensures
            final(self).local() == old(self).local(),
            match lookup(pruned(old(self)@, old(self).local(), now), room_id@) {
                Some(t) => if t.room.host_peer_id == requester_id@ {
                    r is Ok && final(self)@ == without_room(
                        pruned(old(self)@, old(self).local(), now),
                        room_id@,
                    )
                } else {
                    r matches Err(e) && e@ == "只有房主可以解散房间"@ && final(self)@ == pruned(
                        old(self)@,
                        old(self).local(),
                        now,
                    )
                },
                None => r matches Err(e) && e@ == "小游戏房间不存在"@ && final(self)@ == pruned(
                    old(self)@,
                    old(self).local(),
                    now,
                ),
            },
    {
        let room = match self.find_room_at(room_id, now) {
            Some(room) => room,
            None => {
                return Err(text("小游戏房间不存在"));
            },
        };
        if !str_eq(room.host_peer_id.as_str(), requester_id) {
            return Err(text("只有房主可以解散房间"));
        }
        self.remove_room(room_id);
        Ok(())
    }

    /// `user_id` leaves the room `room_id`: the host's leaving removes the
    /// room, the guest's leaving frees the seat and gives the room back.
    pub fn leave_room_at(&mut self, room_id: &str, user_id: &str, now: i64, event_id: String) -> (r: Option<GameRoomSnapshot>)
        requires
            event_versions_ok(old(self)@, old(self).local(), room_id@, RoomEvent::Leave, user_id@, None),
        ensures
            final(self).local() == old(self).local(),
            final(self)@ == left(old(self)@, room_id@, user_id@, now, event_id@).0,
            match r {
                Some(s) => left(old(self)@, room_id@, user_id@, now, event_id@).1 == Some(s@),
                None => left(old(self)@, room_id@, user_id@, now, event_id@).1 is None,
            },
    {
        let ghost rooms = self@;
        let i = match self.position(room_id) {
            Some(i) => i,
            None => {
                return None;
            },
        };
        proof {
            lemma_index_of_range(rooms, room_id@);
        }
        if str_eq(self.rooms[i].room.host_peer_id.as_str(), user_id) {
            self.rooms.remove(i);
            assert(self@ =~= rooms.remove(i as int));
            None
        } else if opt_is(&self.rooms[i].room.guest_peer_id, user_id) {
            let mut snapshot = self.rooms[i].clone();
            reset_guest(&mut snapshot, now, event_id);
            let ghost t = snapshot@;
            self.rooms.set(i, snapshot.clone());
            assert(self@ =~= rooms.update(i as int, t));
            Some(snapshot)
        } else {
            None
        }
    }

    /// The rooms this device hosts, as stored.
    pub fn hosted_rooms(&self) -> (r: Vec<GameRoomSnapshot>)
        ensures
            snaps(r@) == self@.filter(|s: SnapshotModel| s.room.host_peer_id == self.local()),
    {
        let ghost model = self@;
        let ghost pred = |s: SnapshotModel| s.room.host_peer_id == self.local();
        let mut out: Vec<GameRoomSnapshot> = Vec::new();
        let mut i: usize = 0;
        while i < self.rooms.len()
            invariant
                i <= self.rooms@.len(),
                model == snaps(self.rooms@),
                pred == (|s: SnapshotModel| s.room.host_peer_id == self.local()),
                snaps(out@) == model.take(i as int).filter(pred),
            decreases self.rooms.len() - i,
        {
            assert(model.take(i + 1).drop_last() =~= model.take(i as int));
            let s = &self.rooms[i];
            assert(model[i as int] == s@);
            assert(model.take(i + 1).last() == s@);
            let keep = str_eq(s.room.host_peer_id.as_str(), self.local_device_id.as_str());
            reveal_with_fuel(Seq::<_>::filter, 1);
            assert(pred(s@) == keep);
            if keep {
                let ghost old_out = snaps(out@);
                out.push(s.clone());
                assert(snaps(out@) =~= old_out.push(s@));
            }
            i = i + 1;
        }
        assert(model.take(i as int) =~= model);
        out
    }

    /// Frees the seat in every room hosted here whose guest is not among
    /// `online_ids`; the `i`-th room records `event_ids[i]`.  Returns the
    /// rooms that changed, in order.
    pub fn reconcile_hosted_rooms_at(&mut self, online_ids: &Vec<String>, now: i64, event_ids: &Vec<String>) -> (r: Vec<GameRoomSnapshot>)
        requires
            event_ids@.len() >= old(self)@.len(),
            forall|i: int|
                0 <= i < old(self)@.len() && guest_gone(#[trigger] old(self)@[i], old(self).local(), ids_view(online_ids@))
                    ==> old(self)@[i].version < i64::MAX,
        ensures
            final(self).local() == old(self).local(),
            final(self)@ == reconciled(
                old(self)@,
                old(self).local(),
                ids_view(online_ids@),
                now,
                ids_view(event_ids@),
            ),
            snaps(r@) == reconciled_changes(
                old(self)@,
                old(self).local(),
                ids_view(online_ids@),
                now,
                ids_view(event_ids@),
                old(self)@.len() as int,
            ),
    {
        let ghost model = self@;
        let ghost local = self.local();
        let ghost online = ids_view(online_ids@);
        let ghost ids = ids_view(event_ids@);
        let mut changed: Vec<GameRoomSnapshot> = Vec::new();
        let mut i: usize = 0;
        while i < self.rooms.len()
            invariant
                i <= self.rooms@.len() == model.len(),
                event_ids@.len() >= model.len(),
                local == self.local_device_id@,
                online == ids_view(online_ids@),
                ids == ids_view(event_ids@),
                forall|k: int|
                    0 <= k < model.len() && guest_gone(#[trigger] model[k], local, online) ==> model[k].version
                        < i64::MAX,
                forall|k: int| 0 <= k < i ==> #[trigger] self@[k] == reconciled(model, local, online, now, ids)[k],
                forall|k: int| i <= k < model.len() ==> #[trigger] self@[k] == model[k],
                snaps(changed@) == reconciled_changes(model, local, online, now, ids, i as int),
            decreases self.rooms.len() - i,
        {
            assert(self@[i as int] == self.rooms@[i as int]@);
            let gone = if str_eq(self.rooms[i].room.host_peer_id.as_str(), self.local_device_id.as_str()) {
                match &self.rooms[i].room.guest_peer_id {
                    Some(guest) => !contains_id(online_ids, guest.as_str()),
                    None => false,
                }
            } else {
                false
            };
            assert(gone == guest_gone(model[i as int], local, online));
            if gone {
                let mut snapshot = self.rooms[i].clone();
                assert(ids[i as int] == event_ids@[i as int]@);
                reset_guest(&mut snapshot, now, event_ids[i].clone());
                let ghost t = snapshot@;
                let ghost before = self@;
                self.rooms.set(i, snapshot.clone());
                assert forall|k: int| 0 <= k < model.len() && k != i implies #[trigger] self@[k] == before[k] by {}
                let ghost old_changed = snaps(changed@);
                changed.push(snapshot);
                assert(snaps(changed@) =~= old_changed.push(t));
            }
            i = i + 1;
        }
        assert(self@ =~= reconciled(model, local, online, now, ids));
        changed
    }

    /// The rooms of the given type (of every type for `None`), newest first and
    /// then by name, once stale rooms are dropped as of `now`.
    pub fn list_rooms_at(&mut self, game_type: Option<GameType>, now: i64) -> (r: Vec<GameRoomSummary>)
        ensures
            final(self)@ == pruned(old(self)@, old(self).local(), now),
            final(self).local() == old(self).local(),
            summaries(r@).to_multiset() == rooms_of_type(final(self)@, game_type).to_multiset(),
            sorted_for_listing(summaries(r@)),
    {
        self.prune_stale_remote_rooms_at(now);
        let ghost model = self@;
        let ghost pred = |s: SnapshotModel| game_type is None || s.room.game_type == game_type->0;
        let mut rooms: Vec<GameRoomSummary> = Vec::new();
        let mut i: usize = 0;
        while i < self.rooms.len()
            invariant
                i <= self.rooms@.len(),
                model == snaps(self.rooms@),
                pred == (|s: SnapshotModel| game_type is None || s.room.game_type == game_type->0),
                summaries(rooms@) == model.take(i as int).filter(pred).map_values(|s: SnapshotModel| s.room),
            decreases self.rooms.len() - i,
        {
            assert(model.take(i + 1).drop_last() =~= model.take(i as int));
            let s = &self.rooms[i];
            assert(model[i as int] == s@);
            assert(model.take(i + 1).last() == s@);
            let keep = match game_type {
                Some(t) => s.room.game_type == t,
                None => true,
            };
            reveal_with_fuel(Seq::<_>::filter, 1);
            assert(pred(s@) == keep);
            if keep {
                let ghost old_rooms = summaries(rooms@);
                rooms.push(s.room.clone());
                assert(summaries(rooms@) =~= old_rooms.push(s@.room));
                assert(model.take(i + 1).filter(pred) == model.take(i as int).filter(pred).push(s@));
                assert(model.take(i + 1).filter(pred).map_values(|s: SnapshotModel| s.room) =~= model.take(
                    i as int,
                ).filter(pred).map_values(|s: SnapshotModel| s.room).push(s@.room));
            }
            i = i + 1;
        }
        assert(model.take(i as int) =~= model);
        sort_for_listing(rooms)
    }

    /// Opens a new gomoku room hosted here, created at `now`, with id
    /// `room_id` and first event `event_id`.
    pub fn create_room_at(
        &mut self,
        request: CreateGameRoomRequest,
        host_name: String,
        now: i64,
        room_id: String,
        event_id: String,
    ) -> (r: Result<GameRoomSnapshot, String>)
        ensures
            final(self).local() == old(self).local(),
            if clean_text(request.room_name@, 48).len() == 0 {
                r matches Err(e) && e@ == "小游戏房间名称不能为空"@ && final(self)@ == old(self)@
            } else if hash_missing(request.visibility, opt_view(request.password_hash)) {
                r matches Err(e) && e@ == "密码房间必须提供密码"@ && final(self)@ == old(self)@
            } else {
                r matches Ok(s) && s@ == created(
                    room_id@,
                    clean_text(request.room_name@, 48),
                    old(self).local(),
                    host_name@,
                    request.visibility,
                    opt_view(request.password_hash),
                    now,
                    event_id@,
                ) && final(self)@ == upsert(old(self)@, s@)
            },
    {
        let room_name = match clean_room_name(request.room_name.as_str()) {
            Ok(name) => name,
            Err(e) => {
                return Err(e);
            },
        };
        let visibility = request.visibility;
        let password_hash = match normalized_password_hash(visibility, request.password_hash) {
            Ok(hash) => hash,
            Err(e) => {
                return Err(e);
            },
        };
        let room = GameRoomSummary {
            room_id,
            game_type: GameType::Gomoku,
            room_name,
            host_peer_id: self.local_device_id.clone(),
            host_name,
            guest_peer_id: None,
            guest_name: None,
            visibility,
            password_hash,
            status: GameRoomStatus::Waiting,
            created_at: now,
            updated_at: now,
        };
        let snapshot = GameRoomSnapshot {
            gomoku_state: new_gomoku_state(&room),
            room,
            version: 1,
            last_event_id: event_id,
        };
        upsert_snapshot(&mut self.rooms, snapshot.clone());
        Ok(snapshot)
    }

    /// The rooms of the given type, newest first, once stale rooms are dropped
    /// as of the current time.
    pub fn list_rooms(&mut self, game_type: Option<GameType>) -> (r: Vec<GameRoomSummary>)
        ensures
            final(self).local() == old(self).local(),
            exists|now: i64| final(self)@ == pruned(old(self)@, old(self).local(), now),
            summaries(r@).to_multiset() == rooms_of_type(final(self)@, game_type).to_multiset(),
            sorted_for_listing(summaries(r@)),
    {
        let now = now_secs();
        self.list_rooms_at(game_type, now)
    }

    /// The summary of the room `room_id`, once stale rooms are dropped as of
    /// the current time.
    pub fn find_room(&mut self, room_id: &str) -> (r: Option<GameRoomSummary>)
        ensures
            final(self).local() == old(self).local(),
            exists|now: i64| final(self)@ == pruned(old(self)@, old(self).local(), now),
            match r {
                Some(s) => lookup(final(self)@, room_id@) matches Some(t) && t.room == s@,
                None => lookup(final(self)@, room_id@) is None,
            },
    {
        let now = now_secs();
        self.find_room_at(room_id, now)
    }

    /// The room `room_id`, once stale rooms are dropped as of the current time.
    pub fn find_snapshot(&mut self, room_id: &str) -> (r: Option<GameRoomSnapshot>)
        ensures
            final(self).local() == old(self).local(),
            exists|now: i64| final(self)@ == pruned(old(self)@, old(self).local(), now),
            match r {
                Some(s) => lookup(final(self)@, room_id@) == Some(s@),
                None => lookup(final(self)@, room_id@) is None,
            },
    {
        let now = now_secs();
        self.find_snapshot_at(room_id, now)
    }

    /// Opens a new gomoku room hosted here, with a fresh id.
    pub fn create_room(&mut self, request: CreateGameRoomRequest, host_name: String) -> (r: Result<GameRoomSnapshot, String>)
        ensures
            final(self).local() == old(self).local(),
            if clean_text(request.room_name@, 48).len() == 0 {
                r matches Err(e) && e@ == "小游戏房间名称不能为空"@ && final(self)@ == old(self)@
            } else if hash_missing(request.visibility, opt_view(request.password_hash)) {
                r matches Err(e) && e@ == "密码房间必须提供密码"@ && final(self)@ == old(self)@
            } else {
                r matches Ok(s) && s@ == created(
                    s@.room.room_id,
                    clean_text(request.room_name@, 48),
                    old(self).local(),
                    host_name@,
                    request.visibility,
                    opt_view(request.password_hash),
                    s@.room.created_at,
                    s@.last_event_id,
                ) && final(self)@ == upsert(old(self)@, s@)
            },
    {
        let now = now_secs();
        let room_id = new_id();
        let event_id = new_id();
        self.create_room_at(request, host_name, now, room_id, event_id)
    }

    /// Answers a request to join a room this device hosts.
    pub fn join_room_request(&mut self, request: GameJoinRequest) -> (r: Result<GameJoinResponse, String>)
        requires
            event_versions_ok(old(self)@, old(self).local(), request.room_id@, RoomEvent::Join, request.user_id@, opt_view(request.password_hash)),
        ensures
            final(self).local() == old(self).local(),
            exists|now: i64, event_id: Seq<char>|
                join_outcome(
                    pruned(old(self)@, old(self).local(), now),
                    old(self).local(),
                    request.room_id@,
                    request.user_id@,
                    request.nickname@,
                    opt_view(request.password_hash),
                    now,
                    event_id,
                    r,
                    final(self)@,
                ),
    {
        let now = now_secs();
        let event_id = new_id();
        let ghost id = event_id@;
        let ghost req_room = request.room_id@;
        let ghost req_user = request.user_id@;
        let ghost req_nick = request.nickname@;
        let ghost req_hash = opt_view(request.password_hash);
        let ghost local = self.local();
        let ghost rooms = self@;
        let r = self.join_room_request_at(request, now, event_id);
        assert(join_outcome(pruned(rooms, local, now), local, req_room, req_user, req_nick, req_hash, now, id, r, self@));
        r
    }

    /// `user_id` leaves the room `room_id`.
    pub fn leave_room(&mut self, room_id: &str, user_id: &str) -> (r: Option<GameRoomSnapshot>)
        requires
            event_versions_ok(old(self)@, old(self).local(), room_id@, RoomEvent::Leave, user_id@, None),
        ensures
            final(self).local() == old(self).local(),
            exists|now: i64, event_id: Seq<char>|
                final(self)@ == left(old(self)@, room_id@, user_id@, now, event_id).0 && match r {
                    Some(s) => left(old(self)@, room_id@, user_id@, now, event_id).1 == Some(s@),
                    None => left(old(self)@, room_id@, user_id@, now, event_id).1 is None,
                },
    {
        let now = now_secs();
        let event_id = new_id();
        let ghost id = event_id@;
        self.leave_room_at(room_id, user_id, now, event_id)
    }

    /// Dissolves the room `room_id`, which only its host may do.
    pub fn close_room(&mut self, room_id: &str, requester_id: &str) -> (r: Result<(), String>)
        ensures
            final(self).local() == old(self).local(),
            exists|now: i64|
                match lookup(#[trigger] pruned(old(self)@, old(self).local(), now), room_id@) {
                    Some(t) => if t.room.host_peer_id == requester_id@ {
                        r is Ok && final(self)@ == without_room(
                            pruned(old(self)@, old(self).local(), now),
                            room_id@,
                        )
                    } else {
                        r matches Err(e) && e@ == "只有房主可以解散房间"@ && final(self)@ == pruned(
                            old(self)@,
                            old(self).local(),
                            now,
                        )
                    },
                    None => r matches Err(e) && e@ == "小游戏房间不存在"@ && final(self)@ == pruned(
                        old(self)@,
                        old(self).local(),
                        now,
                    ),
                },
    {
        let now = now_secs();
        self.close_room_at(room_id, requester_id, now)
    }

    /// How the device `local_id` stands in the room `room_id`.
    pub fn activation(&mut self, room_id: &str, local_id: &str) -> (r: Result<GameActivation, String>)
        ensures
            final(self).local() == old(self).local(),
            exists|now: i64| final(self)@ == pruned(old(self)@, old(self).local(), now),
            match lookup(final(self)@, room_id@) {
                Some(t) => r matches Ok(a) && a.room@ == t.room && a.is_host == (t.room.host_peer_id
                    == local_id@) && a.is_member == is_member(t, local_id@),
                None => r matches Err(e) && e@ == "小游戏房间不存在"@,
            },
    {
        let now = now_secs();
        self.activation_at(room_id, local_id, now)
    }

    /// Places a stone for `actor_peer_id` at `(x, y)` in a room this device hosts.
    pub fn request_move(&mut self, room_id: &str, actor_peer_id: &str, x: usize, y: usize) -> (r: Result<GameRoomSnapshot, String>)
        requires
            move_ready(old(self)@, old(self).local(), room_id@, actor_peer_id@, x as int, y as int),
        ensures
            final(self).local() == old(self).local(),
            exists|now: i64, event_id: Seq<char>|
                #[trigger] move_outcome(
                    pruned(old(self)@, old(self).local(), now),
                    old(self).local(),
                    room_id@,
                    actor_peer_id@,
                    x,
                    y,
                    now,
                    event_id,
                    r,
                    final(self)@,
                ),
    {
        let now = now_secs();
        let event_id = new_id();
        let ghost id = event_id@;
        self.request_move_at(room_id, actor_peer_id, x, y, now, event_id)
    }

    /// `actor_peer_id` asks to start the game over.
    pub fn request_restart(&mut self, room_id: &str, actor_peer_id: &str) -> (r: Result<GameRoomSnapshot, String>)
        requires
            event_versions_ok(old(self)@, old(self).local(), room_id@, RoomEvent::RestartRequest, actor_peer_id@, None),
        ensures
            final(self).local() == old(self).local(),
            exists|now: i64, event_id: Seq<char>|
                #[trigger] restart_request_outcome(
                    pruned(old(self)@, old(self).local(), now),
                    old(self).local(),
                    room_id@,
                    actor_peer_id@,
                    now,
                    event_id,
                    r,
                    final(self)@,
                ),
    {
        let now = now_secs();
        let event_id = new_id();
        let ghost id = event_id@;
        self.request_restart_at(room_id, actor_peer_id, now, event_id)
    }

    /// `actor_peer_id` agrees to the other player's request to start over.
    pub fn accept_restart(&mut self, room_id: &str, actor_peer_id: &str) -> (r: Result<GameRoomSnapshot, String>)
        requires
            event_versions_ok(old(self)@, old(self).local(), room_id@, RoomEvent::RestartAccept, actor_peer_id@, None),
        ensures
            final(self).local() == old(self).local(),
            exists|now: i64, event_id: Seq<char>|
                #[trigger] restart_accept_outcome(
                    pruned(old(self)@, old(self).local(), now),
                    old(self).local(),
                    room_id@,
                    actor_peer_id@,
                    now,
                    event_id,
                    r,
                    final(self)@,
                ),
    {
        let now = now_secs();
        let event_id = new_id();
        let ghost id = event_id@;
        self.accept_restart_at(room_id, actor_peer_id, now, event_id)
    }

    /// `actor_peer_id` gives up the game.
    pub fn surrender(&mut self, room_id: &str, actor_peer_id: &str) -> (r: Result<GameRoomSnapshot, String>)
        requires
            event_versions_ok(old(self)@, old(self).local(), room_id@, RoomEvent::Surrender, actor_peer_id@, None),
        ensures
            final(self).local() == old(self).local(),
            exists|now: i64, event_id: Seq<char>|
                #[trigger] surrender_outcome(
                    pruned(old(self)@, old(self).local(), now),
                    old(self).local(),
                    room_id@,
                    actor_peer_id@,
                    now,
                    event_id,
                    r,
                    final(self)@,
                ),
    {
        let now = now_secs();
        let event_id = new_id();
        let ghost id = event_id@;
        self.surrender_at(room_id, actor_peer_id, now, event_id)
    }

    /// Frees the seat in every room hosted here whose guest is not among
    /// `online_ids`, and returns the rooms that changed.
    pub fn reconcile_hosted_rooms(&mut self, online_ids: &Vec<String>) -> (r: Vec<GameRoomSnapshot>)
        requires
            forall|i: int|
                0 <= i < old(self)@.len() && guest_gone(#[trigger] old(self)@[i], old(self).local(), ids_view(online_ids@))
                    ==> old(self)@[i].version < i64::MAX,
        ensures
            final(self).local() == old(self).local(),
            exists|now: i64, ids: Seq<Seq<char>>|
                ids.len() >= old(self)@.len() && final(self)@ == reconciled(
                    old(self)@,
                    old(self).local(),
                    ids_view(online_ids@),
                    now,
                    ids,
                ) && snaps(r@) == reconciled_changes(
                    old(self)@,
                    old(self).local(),
                    ids_view(online_ids@),
                    now,
                    ids,
                    old(self)@.len() as int,
                ),
    {
        let now = now_secs();
        let mut event_ids: Vec<String> = Vec::new();
        let mut i: usize = 0;
        while i < self.rooms.len()
            invariant
                i <= self.rooms@.len(),
                event_ids@.len() == i,
            decreases self.rooms.len() - i,
        {
            event_ids.push(new_id());
            i = i + 1;
        }
        let ghost ids = ids_view(event_ids@);
        self.reconcile_hosted_rooms_at(online_ids, now, &event_ids)
    }

    /// Drops the rooms hosted elsewhere that were not updated lately, and tells
    /// whether any was dropped.
    pub fn prune_stale_remote_rooms_at(&mut self, now: i64) -> (changed: bool)
        ensures
            final(self)@ == pruned(old(self)@, old(self).local(), now),
            final(self).local() == old(self).local(),
            changed == (final(self)@.len() != old(self)@.len()),
    {
        let ghost model = self@;
        let ghost local = self.local();
        let ghost pred = |s: SnapshotModel| keep_room(s, local, now);
        let mut kept: Vec<GameRoomSnapshot> = Vec::new();
        let before = self.rooms.len();
        let mut i: usize = 0;
        while i < self.rooms.len()
            invariant
                i <= self.rooms@.len(),
                model == snaps(self.rooms@),
                local == self.local_device_id@,
                pred == (|s: SnapshotModel| keep_room(s, local, now)),
                snaps(kept@) == model.take(i as int).filter(pred),
            decreases self.rooms.len() - i,
        {
            assert(model.take(i + 1).drop_last() =~= model.take(i as int));
            let s = &self.rooms[i];
            assert(model[i as int] == s@);
            assert(model.take(i + 1).last() == s@);
            let keep = str_eq(s.room.host_peer_id.as_str(), self.local_device_id.as_str())
                || (now as i128) - (s.room.updated_at as i128) <= REMOTE_ROOM_STALE_SECS as i128;
            assert(pred(s@) == keep);
            reveal_with_fuel(Seq::<_>::filter, 1);
            assert(model.take(i + 1).filter(pred) == (if keep {
                model.take(i as int).filter(pred).push(s@)
            } else {
                model.take(i as int).filter(pred)
            }));
            if keep {
                let ghost old_kept = snaps(kept@);
                kept.push(s.clone());
                assert(snaps(kept@) =~= old_kept.push(s@));
            }
            i = i + 1;
        }
        assert(model.take(i as int) =~= model);
        self.rooms = kept;
        self.rooms.len() != before
    }
}

} // verus!
