use crate::gomoku::grid;
use crate::text::opt_view;
use vstd::prelude::*;

verus! {

#[derive(Clone, Copy, Debug, PartialEq, Eq, Structural)]
pub enum GameType {
    Gomoku,
}

#[derive(Clone, Copy, Debug, PartialEq, Eq, Structural)]
pub enum GameRoomVisibility {
    Public,
    Password,
}

#[derive(Clone, Copy, Debug, PartialEq, Eq, Structural)]
pub enum GameRoomStatus {
    Waiting,
    Playing,
    Finished,
}

#[derive(Debug)]
pub struct GameRoomSummary {
    pub room_id: String,
    pub game_type: GameType,
    pub room_name: String,
    pub host_peer_id: String,
    pub host_name: String,
    pub guest_peer_id: Option<String>,
    pub guest_name: Option<String>,
    pub visibility: GameRoomVisibility,
    pub password_hash: Option<String>,
    pub status: GameRoomStatus,
    pub created_at: i64,
    pub updated_at: i64,
}

/// What a room summary says, with its strings as character sequences.
pub struct RoomModel {
    pub room_id: Seq<char>,
    pub game_type: GameType,
    pub room_name: Seq<char>,
    pub host_peer_id: Seq<char>,
    pub host_name: Seq<char>,
    pub guest_peer_id: Option<Seq<char>>,
    pub guest_name: Option<Seq<char>>,
    pub visibility: GameRoomVisibility,
    pub password_hash: Option<Seq<char>>,
    pub status: GameRoomStatus,
    pub created_at: i64,
    pub updated_at: i64,
}

impl View for GameRoomSummary {
    type V = RoomModel;

    open spec fn view(&self) -> RoomModel {
        RoomModel {
            room_id: self.room_id@,
            game_type: self.game_type,
            room_name: self.room_name@,
            host_peer_id: self.host_peer_id@,
            host_name: self.host_name@,
            guest_peer_id: opt_view(self.guest_peer_id),
            guest_name: opt_view(self.guest_name),
            visibility: self.visibility,
            password_hash: opt_view(self.password_hash),
            status: self.status,
            created_at: self.created_at,
            updated_at: self.updated_at,
        }
    }
}

impl Clone for GameRoomSummary {
    fn clone(&self) -> (r: Self)
        ensures
            r@ == self@,
    {
        GameRoomSummary {
            room_id: self.room_id.clone(),
            game_type: self.game_type,
            room_name: self.room_name.clone(),
            host_peer_id: self.host_peer_id.clone(),
            host_name: self.host_name.clone(),
            guest_peer_id: self.guest_peer_id.clone(),
            guest_name: self.guest_name.clone(),
            visibility: self.visibility,
            password_hash: self.password_hash.clone(),
            status: self.status,
            created_at: self.created_at,
            updated_at: self.updated_at,
        }
    }
}

#[derive(Debug)]
pub struct GomokuMoveRecord {
    pub x: usize,
    pub y: usize,
    pub color: u8,
    pub peer_id: String,
    pub timestamp: i64,
}

pub struct MoveModel {
    pub x: usize,
    pub y: usize,
    pub color: u8,
    pub peer_id: Seq<char>,
    pub timestamp: i64,
}

impl View for GomokuMoveRecord {
    type V = MoveModel;

    open spec fn view(&self) -> MoveModel {
        MoveModel {
            x: self.x,
            y: self.y,
            color: self.color,
            peer_id: self.peer_id@,
            timestamp: self.timestamp,
        }
    }
}

impl Clone for GomokuMoveRecord {
    fn clone(&self) -> (r: Self)
        ensures
            r@ == self@,
    {
        GomokuMoveRecord {
            x: self.x,
            y: self.y,
            color: self.color,
            peer_id: self.peer_id.clone(),
            timestamp: self.timestamp,
        }
    }
}

#[derive(Clone, Copy, Debug, PartialEq, Eq, Structural)]
pub struct GomokuPoint {
    pub x: usize,
    pub y: usize,
}

#[derive(Debug)]
pub struct GomokuState {
    pub room_id: String,
    pub board: Vec<Vec<u8>>,
    pub current_turn: u8,
    pub black_peer_id: String,
    pub white_peer_id: Option<String>,
    pub winner: Option<u8>,
    pub last_move: Option<GomokuPoint>,
    pub move_history: Vec<GomokuMoveRecord>,
    pub restart_requested_by: Option<String>,
    pub ended_reason: Option<String>,
    pub status_text: String,
}

pub struct GomokuModel {
    pub room_id: Seq<char>,
    pub board: Seq<Seq<u8>>,
    pub current_turn: u8,
    pub black_peer_id: Seq<char>,
    pub white_peer_id: Option<Seq<char>>,
    pub winner: Option<u8>,
    pub last_move: Option<GomokuPoint>,
    pub move_history: Seq<MoveModel>,
    pub restart_requested_by: Option<Seq<char>>,
    pub ended_reason: Option<Seq<char>>,
    pub status_text: Seq<char>,
}

/// The moves of a history, as models.
pub open spec fn moves_view(moves: Seq<GomokuMoveRecord>) -> Seq<MoveModel> {
    moves.map_values(|m: GomokuMoveRecord| m@)
}

impl View for GomokuState {
    type V = GomokuModel;

    open spec fn view(&self) -> GomokuModel {
        GomokuModel {
            room_id: self.room_id@,
            board: grid(self.board@),
            current_turn: self.current_turn,
            black_peer_id: self.black_peer_id@,
            white_peer_id: opt_view(self.white_peer_id),
            winner: self.winner,
            last_move: self.last_move,
            move_history: moves_view(self.move_history@),
            restart_requested_by: opt_view(self.restart_requested_by),
            ended_reason: opt_view(self.ended_reason),
            status_text: self.status_text@,
        }
    }
}

fn clone_board(board: &Vec<Vec<u8>>) -> (r: Vec<Vec<u8>>)
    ensures
        grid(r@) == grid(board@),
{
    let r = board.clone();
    assert forall|i: int| 0 <= i < board.len() implies r@[i]@ == board@[i]@ by {
        assert(cloned(board@[i], r@[i]));
    }
    assert(grid(r@) =~= grid(board@));
    r
}

fn clone_moves(moves: &Vec<GomokuMoveRecord>) -> (r: Vec<GomokuMoveRecord>)
    ensures
        moves_view(r@) == moves_view(moves@),
{
    let mut r: Vec<GomokuMoveRecord> = Vec::new();
    let mut i: usize = 0;
    while i < moves.len()
        invariant
            i <= moves@.len(),
            r@.len() == i,
            moves_view(r@) == moves_view(moves@).take(i as int),
        decreases moves.len() - i,
    {
        let ghost before = r@;
        let m = moves[i].clone();
        r.push(m);
        assert forall|j: int| 0 <= j < i implies r@[j]@ == moves@[j]@ by {
            assert(r@[j] == before[j]);
            assert(moves_view(before)[j] == moves_view(moves@).take(i as int)[j]);
        }
        assert(moves_view(r@) =~= moves_view(moves@).take(i + 1));
        i = i + 1;
    }
    assert(moves_view(moves@).take(i as int) =~= moves_view(moves@));
    r
}

impl Clone for GomokuState {
    fn clone(&self) -> (r: Self)
        ensures
            r@ == self@,
    {
        GomokuState {
            room_id: self.room_id.clone(),
            board: clone_board(&self.board),
            current_turn: self.current_turn,
            black_peer_id: self.black_peer_id.clone(),
            white_peer_id: self.white_peer_id.clone(),
            winner: self.winner,
            last_move: self.last_move,
            move_history: clone_moves(&self.move_history),
            restart_requested_by: self.restart_requested_by.clone(),
            ended_reason: self.ended_reason.clone(),
            status_text: self.status_text.clone(),
        }
    }
}

#[derive(Debug)]
pub struct GameRoomSnapshot {
    pub room: GameRoomSummary,
    pub gomoku_state: GomokuState,
    pub version: i64,
    pub last_event_id: String,
}

pub struct SnapshotModel {
    pub room: RoomModel,
    pub state: GomokuModel,
    pub version: i64,
    pub last_event_id: Seq<char>,
}

impl View for GameRoomSnapshot {
    type V = SnapshotModel;

    open spec fn view(&self) -> SnapshotModel {
        SnapshotModel {
            room: self.room@,
            state: self.gomoku_state@,
            version: self.version,
            last_event_id: self.last_event_id@,
        }
    }
}

impl Clone for GameRoomSnapshot {
    fn clone(&self) -> (r: Self)
        ensures
            r@ == self@,
    {
        GameRoomSnapshot {
            room: self.room.clone(),
            gomoku_state: self.gomoku_state.clone(),
            version: self.version,
            last_event_id: self.last_event_id.clone(),
        }
    }
}

/// The models of a list of snapshots.
pub open spec fn snaps(v: Seq<GameRoomSnapshot>) -> Seq<SnapshotModel> {
    v.map_values(|s: GameRoomSnapshot| s@)
}

/// The models of a list of room summaries.
pub open spec fn summaries(v: Seq<GameRoomSummary>) -> Seq<RoomModel> {
    v.map_values(|s: GameRoomSummary| s@)
}

#[derive(Debug)]
pub struct CreateGameRoomRequest {
    pub room_name: String,
    pub visibility: GameRoomVisibility,
    pub password_hash: Option<String>,
}

#[derive(Debug)]
pub struct GameJoinRequest {
    pub room_id: String,
    pub user_id: String,
    pub nickname: String,
    pub password_hash: Option<String>,
}

#[derive(Debug)]
pub struct GameJoinResponse {
    pub accepted: bool,
    pub reason: Option<String>,
    pub snapshot: Option<GameRoomSnapshot>,
}

pub struct JoinResponseModel {
    pub accepted: bool,
    pub reason: Option<Seq<char>>,
    pub snapshot: Option<SnapshotModel>,
}

impl View for GameJoinResponse {
    type V = JoinResponseModel;

    open spec fn view(&self) -> JoinResponseModel {
        JoinResponseModel {
            accepted: self.accepted,
            reason: opt_view(self.reason),
            snapshot: match self.snapshot {
                Some(s) => Some(s@),
                None => None,
            },
        }
    }
}

#[derive(Debug)]
pub struct GameActivation {
    pub room: GameRoomSummary,
    pub is_host: bool,
    pub is_member: bool,
}

} // verus!
