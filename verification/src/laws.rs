use crate::chat::{
    capped, inserted, is_first_room, latest, lemma_room_index_first, room_index, room_messages, upsert_room,
    ChatModel, ChatRoomModel, MessageModel, LISTED_MESSAGES, MESSAGE_LIMIT,
};
use crate::crypto::{public_key_of_text, sealed, opened, EnvelopeModel};
use crate::http::{route_of, LanRoute};
use crate::game::{
    color_of, index_of, is_first, join_outcome, keep_room, lemma_index_of_first, lemma_index_of_range,
    lookup, member_error, move_error, played, pruned, restart_accept_outcome, restart_request_outcome,
    rooms_of_type, upsert, without_room, REMOTE_ROOM_STALE_SECS,
};
use crate::game_types::{GameRoomStatus, GameType, RoomModel, SnapshotModel};
use crate::gomoku::{board_ok, line_of_five, step, window_full, wins, BOARD_SIZE};
use crate::watch::WatchMessageModel;
use crate::watch_state::{
    appended, closed_state, entry_of, has_message, lemma_without_entry_of, lemma_without_session_of,
    room_ids, session_ids, session_of, upsert_entry, upsert_session, with_member, without_entry,
    without_session, EntryModel, SessionModel, WatchModel,
};
use crate::commands::{order_from, VersionOrder};
use crate::discovery::{candidate_ips, consumed, merged, remembered, source_of, CandidateSource};
use crate::watch_state::{first_index, lemma_first_index, lemma_first_index_range};
use crate::library::{clamped, digest_prefix, matches_stored, permission_of, speed_of, stored_password};
use crate::numbers::{all_digits, decimal_of, digit_char, digit_value, digits_value, parsed_u64};
use crate::pieces::strip_char;
use crate::storage::{is_reserved_char, safe_name_of, sanitized};
use crate::text::{is_control_char, is_white_space, trim, trim_end, trim_start};
use vstd::prelude::*;

verus! {

// ---------------------------------------------------------------------------
// Game rooms.
// ---------------------------------------------------------------------------

/// A room that is stored is what a lookup of its id then finds.
pub proof fn law_stored_game_room_is_found(rooms: Seq<SnapshotModel>, s: SnapshotModel)
    ensures
        lookup(upsert(rooms, s), s.room.room_id) == Some(s),
{
    let id = s.room.room_id;
    lemma_index_of_range(rooms, id);
    let i = index_of(rooms, id);
    if i >= 0 {
        let next = rooms.update(i, s);
        assert(is_first(next, id, i));
        lemma_index_of_first(next, id, i);
    } else {
        let next = rooms.push(s);
        assert forall|j: int| 0 <= j < rooms.len() implies #[trigger] next[j].room.room_id != id by {
            assert(next[j] == rooms[j]);
            if rooms[j].room.room_id == id {
                lemma_some_first_room(rooms, id, j);
            }
        }
        assert(is_first(next, id, rooms.len() as int));
        lemma_index_of_first(next, id, rooms.len() as int);
    }
}

proof fn lemma_some_first_room(rooms: Seq<SnapshotModel>, id: Seq<char>, k: int)
    requires
        0 <= k < rooms.len(),
        rooms[k].room.room_id == id,
    ensures
        index_of(rooms, id) >= 0,
    decreases k,
{
    if forall|j: int| 0 <= j < k ==> #[trigger] rooms[j].room.room_id != id {
        assert(is_first(rooms, id, k));
    } else {
        let j = choose|j: int| 0 <= j < k && #[trigger] rooms[j].room.room_id == id;
        lemma_some_first_room(rooms, id, j);
    }
}

/// A room that is removed is no longer found.
pub proof fn law_removed_game_room_is_gone(rooms: Seq<SnapshotModel>, id: Seq<char>)
    ensures
        lookup(without_room(rooms, id), id) is None,
{
    let pred = |s: SnapshotModel| s.room.room_id != id;
    let kept = rooms.filter(pred);
    lemma_index_of_range(kept, id);
    if index_of(kept, id) >= 0 {
        rooms.lemma_filter_pred(pred, index_of(kept, id));
    }
}

/// The first room with id `id`, when it is kept, is still the first with that
/// id once stale rooms are dropped.
proof fn lemma_pruned_first(rooms: Seq<SnapshotModel>, local: Seq<char>, now: i64, id: Seq<char>, i: int)
    requires
        is_first(rooms, id, i),
        keep_room(rooms[i], local, now),
    ensures
        lookup(pruned(rooms, local, now), id) == Some(rooms[i]),
{
    let pred = |s: SnapshotModel| keep_room(s, local, now);
    let x = rooms[i];
    let a = rooms.take(i);
    let b = rooms.skip(i);
    let rest = b.skip(1);
    assert(rooms =~= a + b);
    assert(b =~= seq![x] + rest);
    assert(seq![x] =~= Seq::<SnapshotModel>::empty().push(x));
    assert(Seq::<SnapshotModel>::empty().filter(pred) =~= Seq::<SnapshotModel>::empty()) by {
        reveal_with_fuel(Seq::<_>::filter, 1);
    }
    Seq::<SnapshotModel>::empty().lemma_filter_push(x, pred);
    Seq::filter_distributes_over_add(a, b, pred);
    Seq::filter_distributes_over_add(seq![x], rest, pred);
    let fa = a.filter(pred);
    let p = pruned(rooms, local, now);
    assert(p =~= fa + (seq![x] + rest.filter(pred)));
    let n = fa.len() as int;
    assert(p[n] == x);
    assert forall|j: int| 0 <= j < n implies #[trigger] p[j].room.room_id != id by {
        assert(p[j] == fa[j]);
        assert(fa.contains(fa[j]));
        a.lemma_filter_contains_rev(pred, fa[j]);
        let k = choose|k: int| 0 <= k < a.len() && a[k] == fa[j];
        assert(a[k] == rooms[k]);
    }
    assert(is_first(p, id, n));
    lemma_index_of_first(p, id, n);
}

/// A room once stored is found by its id, after stale rooms are dropped,
/// as long as this device hosts it or it was updated recently enough.
pub proof fn law_accepted_game_room_is_found(rooms: Seq<SnapshotModel>, s: SnapshotModel, local: Seq<char>, now: i64)
    requires
        keep_room(s, local, now),
    ensures
        lookup(pruned(upsert(rooms, s), local, now), s.room.room_id) == Some(s),
{
    let after = upsert(rooms, s);
    let id = s.room.room_id;
    law_stored_game_room_is_found(rooms, s);
    lemma_index_of_range(after, id);
    lemma_pruned_first(after, local, now, id, index_of(after, id));
}

/// No two game rooms share an id.
pub open spec fn distinct_game_ids(rooms: Seq<SnapshotModel>) -> bool {
    forall|i: int, j: int|
        0 <= i < j < rooms.len() ==> #[trigger] rooms[i].room.room_id != #[trigger] rooms[j].room.room_id
}

/// Storing a room keeps game room ids distinct: it takes the place of the
/// room with its id, or is added when none has it, and no other room changes.
pub proof fn law_game_room_ids_stay_distinct(rooms: Seq<SnapshotModel>, s: SnapshotModel)
    requires
        distinct_game_ids(rooms),
    ensures
        distinct_game_ids(upsert(rooms, s)),
        forall|j: int|
            0 <= j < rooms.len() && (#[trigger] rooms[j]).room.room_id != s.room.room_id ==> upsert(rooms, s)[j]
                == rooms[j],
        upsert(rooms, s).len() == rooms.len() || upsert(rooms, s) == rooms.push(s),
{
    let id = s.room.room_id;
    let after = upsert(rooms, s);
    lemma_index_of_range(rooms, id);
    let i = index_of(rooms, id);
    if i >= 0 {
        assert forall|a: int, b: int| 0 <= a < b < after.len() implies #[trigger] after[a].room.room_id
            != #[trigger] after[b].room.room_id by {
            if a != i && b != i {
                assert(rooms[a].room.room_id != rooms[b].room.room_id);
            } else if a == i {
                assert(rooms[i].room.room_id != rooms[b].room.room_id);
            } else {
                assert(rooms[a].room.room_id != rooms[i].room.room_id);
            }
        }
    } else {
        let n = rooms.len() as int;
        assert forall|a: int, b: int| 0 <= a < b < after.len() implies #[trigger] after[a].room.room_id
            != #[trigger] after[b].room.room_id by {
            if b == n {
                assert(after[a] == rooms[a]);
                if rooms[a].room.room_id == id {
                    lemma_some_first_room(rooms, id, a);
                }
            } else {
                assert(rooms[a].room.room_id != rooms[b].room.room_id);
            }
        }
    }
}

/// A room that only stale rooms hosted elsewhere carry the id of is not
/// found once stale rooms are dropped, as a listing or a lookup drops them.
pub proof fn law_stale_room_is_gone(rooms: Seq<SnapshotModel>, local: Seq<char>, now: i64, id: Seq<char>)
    requires
        forall|j: int| 0 <= j < rooms.len() && (#[trigger] rooms[j]).room.room_id == id ==> !keep_room(rooms[j], local, now),
    ensures
        lookup(pruned(rooms, local, now), id) is None,
{
    let keep = |s: SnapshotModel| keep_room(s, local, now);
    let p = pruned(rooms, local, now);
    lemma_index_of_range(p, id);
    if index_of(p, id) >= 0 {
        let k = index_of(p, id);
        rooms.lemma_filter_pred(keep, k);
        assert(p.contains(p[k]));
        rooms.lemma_filter_contains_rev(keep, p[k]);
        let j = choose|j: int| 0 <= j < rooms.len() && rooms[j] == p[k];
        assert(rooms[j].room.room_id == id);
    }
}

/// Listing rooms leaves no room hosted elsewhere that has not been updated
/// for longer than the stale limit, among the rooms kept or the rooms
/// listed, and lists every room this device hosts of the type asked for.
pub proof fn law_listing_drops_stale_rooms(
    rooms: Seq<SnapshotModel>,
    local: Seq<char>,
    now: i64,
    game_type: Option<GameType>,
    listed: Seq<RoomModel>,
)
    requires
        listed.to_multiset() == rooms_of_type(pruned(rooms, local, now), game_type).to_multiset(),
    ensures
        forall|k: int| 0 <= k < pruned(rooms, local, now).len() ==> keep_room(#[trigger] pruned(rooms, local, now)[k], local, now),
        forall|k: int|
            0 <= k < listed.len() ==> (#[trigger] listed[k]).host_peer_id == local || now - listed[k].updated_at
                <= REMOTE_ROOM_STALE_SECS,
        forall|j: int|
            0 <= j < rooms.len() && (#[trigger] rooms[j]).room.host_peer_id == local && (game_type is None
                || rooms[j].room.game_type == game_type->0) ==> listed.contains(rooms[j].room),
{
    broadcast use vstd::seq_lib::group_to_multiset_ensures;

    let keep = |s: SnapshotModel| keep_room(s, local, now);
    let of_type = |s: SnapshotModel| game_type is None || s.room.game_type == game_type->0;
    let p = pruned(rooms, local, now);
    let f = p.filter(of_type);
    let shown = rooms_of_type(p, game_type);
    assert(shown == f.map_values(|s: SnapshotModel| s.room));
    assert forall|k: int| 0 <= k < p.len() implies keep_room(#[trigger] p[k], local, now) by {
        rooms.lemma_filter_pred(keep, k);
    }
    assert forall|k: int| 0 <= k < listed.len() implies (#[trigger] listed[k]).host_peer_id == local || now
        - listed[k].updated_at <= REMOTE_ROOM_STALE_SECS by {
        assert(listed.contains(listed[k]));
        assert(listed.to_multiset().count(listed[k]) > 0);
        assert(shown.contains(listed[k]));
        let m = choose|m: int| 0 <= m < shown.len() && shown[m] == listed[k];
        assert(shown[m] == f[m].room);
        assert(f.contains(f[m]));
        p.lemma_filter_contains_rev(of_type, f[m]);
        let q = choose|q: int| 0 <= q < p.len() && p[q] == f[m];
        assert(keep_room(p[q], local, now));
    }
    assert forall|j: int|
        0 <= j < rooms.len() && (#[trigger] rooms[j]).room.host_peer_id == local && (game_type is None
            || rooms[j].room.game_type == game_type->0) implies listed.contains(rooms[j].room) by {
        let r = rooms[j];
        assert(rooms.contains(r));
        rooms.filter_lemma(keep);
        assert(p.contains(r));
        p.filter_lemma(of_type);
        assert(f.contains(r));
        let m = choose|m: int| 0 <= m < f.len() && f[m] == r;
        assert(shown[m] == r.room);
        assert(shown.contains(r.room));
        assert(shown.to_multiset().count(r.room) > 0);
    }
}

/// A guest who has joined a room and asks to join it again is let in once
/// more with the room as it stands, and nothing changes: no new guest, no new
/// version.
pub proof fn law_repeated_join_changes_nothing(
    rooms: Seq<SnapshotModel>,
    local: Seq<char>,
    id: Seq<char>,
    user: Seq<char>,
    nickname: Seq<char>,
    password_hash: Option<Seq<char>>,
    now: i64,
    event_id: Seq<char>,
    first: Result<crate::game_types::GameJoinResponse, String>,
    after_first: Seq<SnapshotModel>,
    nickname_again: Seq<char>,
    later: i64,
    event_again: Seq<char>,
    again: Result<crate::game_types::GameJoinResponse, String>,
    after_again: Seq<SnapshotModel>,
)
    requires
        join_outcome(pruned(rooms, local, now), local, id, user, nickname, password_hash, now, event_id, first, after_first),
        first is Ok,
        first->Ok_0@.accepted,
        join_outcome(
            pruned(after_first, local, later),
            local,
            id,
            user,
            nickname_again,
            password_hash,
            later,
            event_again,
            again,
            after_again,
        ),
    ensures
        again is Ok,
        again->Ok_0@ == first->Ok_0@,
        after_again == pruned(after_first, local, later),
        lookup(after_again, id) == first->Ok_0@.snapshot,
{
    let p = pruned(rooms, local, now);
    lemma_index_of_range(p, id);
    let i = index_of(p, id);
    let u = after_first[i];
    assert(is_first(after_first, id, i));
    assert(keep_room(u, local, later));
    lemma_pruned_first(after_first, local, later, id, i);
    let q = pruned(after_first, local, later);
    lemma_index_of_range(q, id);
}

/// Who asked to start over cannot agree to it: the answer is refused and the
/// rooms stay as they are.
pub proof fn law_restart_waits_for_the_other_player(
    rooms: Seq<SnapshotModel>,
    local: Seq<char>,
    id: Seq<char>,
    actor: Seq<char>,
    now: i64,
    event_id: Seq<char>,
    asked: Result<crate::game_types::GameRoomSnapshot, String>,
    after_asked: Seq<SnapshotModel>,
    later: i64,
    event_again: Seq<char>,
    answer: Result<crate::game_types::GameRoomSnapshot, String>,
    after_answer: Seq<SnapshotModel>,
)
    requires
        restart_request_outcome(pruned(rooms, local, now), local, id, actor, now, event_id, asked, after_asked),
        asked is Ok,
        restart_accept_outcome(pruned(after_asked, local, later), local, id, actor, later, event_again, answer, after_answer),
    ensures
        answer is Err,
        answer->Err_0@ == "不能由发起者自己确认重新开始"@,
        after_answer == pruned(after_asked, local, later),
{
    let p = pruned(rooms, local, now);
    lemma_index_of_range(p, id);
    let i = index_of(p, id);
    let u = after_asked[i];
    assert(is_first(after_asked, id, i));
    assert(keep_room(u, local, later));
    lemma_pruned_first(after_asked, local, later, id, i);
    let q = pruned(after_asked, local, later);
    lemma_index_of_range(q, id);
}

/// With no request to start over pending, agreeing to one is refused and the
/// rooms stay as they are.
pub proof fn law_no_restart_to_accept(
    rooms: Seq<SnapshotModel>,
    local: Seq<char>,
    id: Seq<char>,
    actor: Seq<char>,
    now: i64,
    event_id: Seq<char>,
    answer: Result<crate::game_types::GameRoomSnapshot, String>,
    after: Seq<SnapshotModel>,
)
    requires
        restart_accept_outcome(rooms, local, id, actor, now, event_id, answer, after),
        lookup(rooms, id) matches Some(s) && member_error(s, local, actor) is None && s.state.restart_requested_by is None,
    ensures
        answer is Err,
        answer->Err_0@ == "当前没有待确认的重新开始请求"@,
        after == rooms,
{
}

/// A move puts one stone of the mover's colour on the empty point it names
/// and changes no other point; the room's version goes up by one and the move
/// is recorded last.
pub proof fn law_move_places_one_stone(
    s: SnapshotModel,
    local: Seq<char>,
    actor: Seq<char>,
    x: usize,
    y: usize,
    now: i64,
    event_id: Seq<char>,
)
    requires
        board_ok(s.state.board),
        s.version < i64::MAX,
        move_error(s, local, actor, x as int, y as int) is None,
    ensures
        ({
            let color = color_of(s, actor)->0;
            let t = played(s, actor, x, y, color, now, event_id);
            &&& s.state.board[y as int][x as int] == 0
            &&& t.state.board[y as int][x as int] == color
            &&& color == s.state.current_turn
            &&& forall|i: int, j: int|
                0 <= i < BOARD_SIZE && 0 <= j < BOARD_SIZE && !(i == x && j == y)
                    ==> #[trigger] t.state.board[j][i] == s.state.board[j][i]
            &&& t.version == s.version + 1
            &&& t.state.move_history == s.state.move_history.push(t.state.move_history.last())
            &&& t.state.move_history.last().x == x && t.state.move_history.last().y == y
            &&& t.state.move_history.last().color == color
        }),
{
    let color = color_of(s, actor)->0;
    let t = played(s, actor, x, y, color, now, event_id);
    assert(s.state.board[y as int][x as int] == 0);
    assert(t.state.board[y as int][x as int] == color);
    assert(color == s.state.current_turn);
    assert(t.version == s.version + 1);
    assert(t.state.move_history =~= s.state.move_history.push(t.state.move_history.last()));
    assert forall|i: int, j: int|
        0 <= i < BOARD_SIZE && 0 <= j < BOARD_SIZE && !(i == x && j == y)
            implies #[trigger] t.state.board[j][i] == s.state.board[j][i] by {
        if j != y {
        } else {
            assert(i != x);
        }
    }
}

/// After a move the game is over exactly when the stone completes five in a
/// row, and the mover is then the winner; otherwise the turn passes to the
/// other colour.
pub proof fn law_win_ends_the_game(
    s: SnapshotModel,
    local: Seq<char>,
    actor: Seq<char>,
    x: usize,
    y: usize,
    now: i64,
    event_id: Seq<char>,
)
    requires
        board_ok(s.state.board),
        move_error(s, local, actor, x as int, y as int) is None,
    ensures
        ({
            let color = color_of(s, actor)->0;
            let t = played(s, actor, x, y, color, now, event_id);
            let won = wins(t.state.board, x as int, y as int, color);
            &&& (t.room.status == GameRoomStatus::Finished) <==> won
            &&& won ==> t.state.winner == Some(color)
            &&& !won ==> t.state.winner == s.state.winner && t.state.current_turn != color
                && t.room.status == GameRoomStatus::Playing
        }),
{
}

// ---------------------------------------------------------------------------
// Chat.
// ---------------------------------------------------------------------------

/// A device keeps no more than 5000 chat messages, and a message it receives
/// is among them afterwards.
pub proof fn law_chat_keeps_a_bounded_log(state: ChatModel, room: ChatRoomModel, m: MessageModel)
    requires
        state.messages.len() <= MESSAGE_LIMIT,
    ensures
        inserted(state, room, m).messages.len() <= MESSAGE_LIMIT,
        exists|i: int|
            0 <= i < inserted(state, room, m).messages.len()
                && #[trigger] inserted(state, room, m).messages[i].message_id == m.message_id,
{
    let after = inserted(state, room, m).messages;
    let known = exists|i: int|
        0 <= i < state.messages.len() && #[trigger] state.messages[i].message_id == m.message_id;
    if !known {
        let full = state.messages.push(m);
        assert(full[full.len() - 1] == m);
        assert(after[after.len() - 1] == m);
        assert(after[after.len() - 1].message_id == m.message_id);
    } else {
        let i = choose|i: int|
            0 <= i < state.messages.len() && #[trigger] state.messages[i].message_id == m.message_id;
        assert(after[i].message_id == m.message_id);
    }
}

/// No two rooms share an id.
pub open spec fn distinct_room_ids(rooms: Seq<ChatRoomModel>) -> bool {
    forall|i: int, j: int| 0 <= i < j < rooms.len() ==> #[trigger] rooms[i].room_id != #[trigger] rooms[j].room_id
}

/// The room with id `id` at `j`, when no two rooms share an id, is the first
/// with that id.
proof fn lemma_only_room(rooms: Seq<ChatRoomModel>, id: Seq<char>, j: int)
    requires
        distinct_room_ids(rooms),
        0 <= j < rooms.len(),
        rooms[j].room_id == id,
    ensures
        room_index(rooms, id, false) == j,
        !rooms[j].deleted ==> room_index(rooms, id, true) == j,
        rooms[j].deleted ==> room_index(rooms, id, true) == -1,
{
    assert forall|k: int| 0 <= k < j implies !(#[trigger] rooms[k].room_id == id && (false ==> !rooms[k].deleted)) by {
        assert(rooms[k].room_id != rooms[j].room_id);
    }
    assert(is_first_room(rooms, id, false, j));
    lemma_room_index_first(rooms, id, false, j);
    if !rooms[j].deleted {
        assert forall|k: int| 0 <= k < j implies !(#[trigger] rooms[k].room_id == id && (true ==> !rooms[k].deleted)) by {
            assert(rooms[k].room_id != rooms[j].room_id);
        }
        assert(is_first_room(rooms, id, true, j));
        lemma_room_index_first(rooms, id, true, j);
    } else {
        assert forall|k: int| !is_first_room(rooms, id, true, k) by {
            if 0 <= k < rooms.len() && rooms[k].room_id == id && k != j {
                if k < j {
                    assert(rooms[k].room_id != rooms[j].room_id);
                } else {
                    assert(rooms[j].room_id != rooms[k].room_id);
                }
            }
        }
    }
}

/// With no two rooms sharing an id, a room that arrives is stored as the one
/// room with its id, in place of the room it replaces, with every other room
/// unchanged; a lookup of its id then finds it, unless it is deleted.
pub proof fn law_accepted_chat_room_is_the_one(rooms: Seq<ChatRoomModel>, room: ChatRoomModel)
    requires
        distinct_room_ids(rooms),
    ensures
        distinct_room_ids(upsert_room(rooms, room)),
        exists|k: int| 0 <= k < upsert_room(rooms, room).len() && #[trigger] upsert_room(rooms, room)[k] == room,
        forall|j: int|
            0 <= j < rooms.len() && (#[trigger] rooms[j]).room_id != room.room_id ==> upsert_room(rooms, room)[j]
                == rooms[j],
        !room.deleted ==> room_index(upsert_room(rooms, room), room.room_id, true) >= 0 && upsert_room(
            rooms,
            room,
        )[room_index(upsert_room(rooms, room), room.room_id, true)] == room,
        room.deleted ==> room_index(upsert_room(rooms, room), room.room_id, true) == -1,
{
    let id = room.room_id;
    let after = upsert_room(rooms, room);
    if exists|j: int| 0 <= j < rooms.len() && #[trigger] rooms[j].room_id == id {
        let j = choose|j: int| 0 <= j < rooms.len() && #[trigger] rooms[j].room_id == id;
        lemma_only_room(rooms, id, j);
        assert(after == rooms.update(j, room));
        assert forall|a: int, b: int| 0 <= a < b < after.len() implies #[trigger] after[a].room_id != #[trigger] after[b].room_id by {
            if a != j && b != j {
                assert(rooms[a].room_id != rooms[b].room_id);
            } else if a == j {
                assert(rooms[j].room_id != rooms[b].room_id);
            } else {
                assert(rooms[a].room_id != rooms[j].room_id);
            }
        }
        assert(after[j] == room);
        lemma_only_room(after, id, j);
    } else {
        assert forall|k: int| !is_first_room(rooms, id, false, k) by {
            if 0 <= k < rooms.len() && rooms[k].room_id == id {
                assert(rooms[k].room_id == id);
            }
        }
        assert(after == rooms.push(room));
        let n = rooms.len() as int;
        assert forall|a: int, b: int| 0 <= a < b < after.len() implies #[trigger] after[a].room_id != #[trigger] after[b].room_id by {
            if b == n {
                assert(after[a] == rooms[a]);
                assert(!(rooms[a].room_id == id));
            } else {
                assert(rooms[a].room_id != rooms[b].room_id);
            }
        }
        assert(after[n] == room);
        lemma_only_room(after, id, n);
    }
}

/// A message that arrives twice is stored once: the second arrival changes
/// nothing.
pub proof fn law_accepting_a_message_twice_is_once(state: ChatModel, room: ChatRoomModel, m: MessageModel)
    ensures
        inserted(inserted(state, room, m), room, m) == inserted(state, room, m),
{
    let once = inserted(state, room, m);
    lemma_received_message_is_kept(state, room, m);
    let id = room.room_id;
    let i = room_index(state.rooms, id, false);
    if i >= 0 {
        assert(is_first_room(state.rooms, id, false, i));
        let up = state.rooms.update(i, room);
        assert(is_first_room(up, id, false, i));
        lemma_room_index_first(up, id, false, i);
        assert(up.update(i, room) =~= up);
    } else {
        let up = state.rooms.push(room);
        let n = state.rooms.len() as int;
        assert forall|k: int| 0 <= k < n implies !(#[trigger] up[k].room_id == id && (false ==> !up[k].deleted)) by {
            assert(up[k] == state.rooms[k]);
            if state.rooms[k].room_id == id {
                lemma_some_first_any_room(state.rooms, id, k);
            }
        }
        assert(is_first_room(up, id, false, n));
        lemma_room_index_first(up, id, false, n);
        assert(up.update(n, room) =~= up);
    }
}

/// A room with id `id` at `j` means there is a first one.
proof fn lemma_some_first_any_room(rooms: Seq<ChatRoomModel>, id: Seq<char>, j: int)
    requires
        0 <= j < rooms.len(),
        rooms[j].room_id == id,
    ensures
        room_index(rooms, id, false) >= 0,
    decreases j,
{
    if exists|m: int| 0 <= m < j && #[trigger] rooms[m].room_id == id {
        let m = choose|m: int| 0 <= m < j && #[trigger] rooms[m].room_id == id;
        lemma_some_first_any_room(rooms, id, m);
    } else {
        assert(is_first_room(rooms, id, false, j));
    }
}

/// After a message arrives, one with its id is among the messages.
proof fn lemma_received_message_is_kept(state: ChatModel, room: ChatRoomModel, m: MessageModel)
    ensures
        exists|i: int|
            0 <= i < inserted(state, room, m).messages.len()
                && #[trigger] inserted(state, room, m).messages[i].message_id == m.message_id,
{
    let after = inserted(state, room, m).messages;
    let known = exists|i: int|
        0 <= i < state.messages.len() && #[trigger] state.messages[i].message_id == m.message_id;
    if !known {
        let full = state.messages.push(m);
        assert(full[full.len() - 1] == m);
        assert(after[after.len() - 1] == m);
        assert(after[after.len() - 1].message_id == m.message_id);
    } else {
        let i = choose|i: int|
            0 <= i < state.messages.len() && #[trigger] state.messages[i].message_id == m.message_id;
        assert(after[i].message_id == m.message_id);
    }
}

// ---------------------------------------------------------------------------
// Watch rooms.
// ---------------------------------------------------------------------------

/// A live room with id `id` at `j` means there is a first such room.
proof fn lemma_some_first_live_room(rooms: Seq<ChatRoomModel>, id: Seq<char>, j: int)
    requires
        0 <= j < rooms.len(),
        rooms[j].room_id == id,
        !rooms[j].deleted,
    ensures
        exists|k: int| is_first_room(rooms, id, true, k),
    decreases j,
{
    if exists|m: int| 0 <= m < j && #[trigger] rooms[m].room_id == id && !rooms[m].deleted {
        let m = choose|m: int| 0 <= m < j && #[trigger] rooms[m].room_id == id && !rooms[m].deleted;
        lemma_some_first_live_room(rooms, id, m);
    } else {
        assert(is_first_room(rooms, id, true, j));
    }
}

/// A chat room added under an id no live room has is what a lookup of that
/// id then finds.
pub proof fn law_new_chat_room_is_found(rooms: Seq<ChatRoomModel>, room: ChatRoomModel)
    requires
        !room.deleted,
        room_index(rooms, room.room_id, true) == -1,
    ensures
        room_index(rooms.push(room), room.room_id, true) == rooms.len(),
{
    let after = rooms.push(room);
    let n = rooms.len() as int;
    assert forall|j: int| 0 <= j < n implies !(#[trigger] after[j].room_id == room.room_id && !after[j].deleted) by {
        assert(after[j] == rooms[j]);
        if rooms[j].room_id == room.room_id && !rooms[j].deleted {
            lemma_some_first_live_room(rooms, room.room_id, j);
        }
    }
    assert(is_first_room(after, room.room_id, true, n));
    let c = choose|i: int| is_first_room(after, room.room_id, true, i);
    if c < n {
        assert(after[c] == rooms[c]);
    }
}

/// A watch room keeps no more than 200 chat messages, and a message posted
/// to it is among them afterwards.
pub proof fn law_watch_chat_is_bounded(messages: Seq<WatchMessageModel>, m: WatchMessageModel)
    requires
        messages.len() <= crate::watch::WATCH_MESSAGE_LIMIT,
    ensures
        appended(messages, m).len() <= crate::watch::WATCH_MESSAGE_LIMIT,
        has_message(appended(messages, m), m.message_id),
{
    let after = appended(messages, m);
    if !has_message(messages, m.message_id) {
        assert(after[after.len() - 1] == m);
    }
}

// ---------------------------------------------------------------------------
// Shared files.
// ---------------------------------------------------------------------------

/// A watch room that is ended or forgotten is no longer found, nor open.
pub proof fn law_closed_watch_room_is_gone(state: WatchModel, id: Seq<char>)
    ensures
        entry_of(closed_state(state, id).rooms, id) is None,
        session_of(closed_state(state, id).sessions, id) is None,
{
    lemma_without_entry_of(state.rooms, id);
    lemma_without_session_of(state.sessions, id);
}

/// A password share opens with the password it was given, white space at
/// either end aside.
pub proof fn law_password_share_opens_with_its_password(password: Seq<char>, input: Seq<char>)
    requires
        trim(password).len() > 0,
        trim(input) == trim(password),
    ensures
        stored_password("password"@, Some(password)) is Some,
        matches_stored(input, stored_password("password"@, Some(password))->0),
{
    reveal_strlit("sha256:");
    assert(permission_of("password"@) == "password"@);
    let stored = stored_password("password"@, Some(password))->0;
    let n = digest_prefix().len() as int;
    assert(stored.take(n) =~= digest_prefix());
    assert(stored.skip(n) =~= crate::digest::text_digest(trim(password)));
}

/// Library settings that were normalized stay as they are when normalized
/// again.
pub proof fn law_library_settings_normalize_once(tasks: i64, cache: i64, speed: Seq<char>)
    ensures
        clamped(clamped(tasks, 1, 5), 1, 5) == clamped(tasks, 1, 5),
        clamped(clamped(cache, 10, 500), 10, 500) == clamped(cache, 10, 500),
        speed_of(speed_of(speed)) == speed_of(speed),
{
}

// ---------------------------------------------------------------------------
// Numbers and versions.
// ---------------------------------------------------------------------------

proof fn lemma_decimal_digits(n: nat)
    ensures
        decimal_of(n).len() > 0,
        all_digits(decimal_of(n)),
        digits_value(decimal_of(n)) == n,
        decimal_of(n)[0] != '+',
    decreases n,
{
    if n < 10 {
        let d = decimal_of(n);
        assert(d.drop_last() =~= Seq::<char>::empty());
        assert(d.last() == digit_char(n));
        assert(digit_value(digit_char(n)) == n);
        assert(digits_value(d) == digits_value(d.drop_last()) * 10 + digit_value(d.last()));
    } else {
        lemma_decimal_digits(n / 10);
        let p = decimal_of(n / 10);
        let d = decimal_of(n);
        let c = digit_char(n % 10);
        assert(d.drop_last() =~= p);
        assert(d.last() == c);
        assert(digit_value(c) == n % 10);
        assert(n == (n / 10) * 10 + n % 10) by (nonlinear_arith);
        assert(digits_value(d) == digits_value(d.drop_last()) * 10 + digit_value(d.last()));
        assert forall|i: int| 0 <= i < d.len() implies crate::numbers::is_digit(#[trigger] d[i]) by {
            if i < p.len() {
                assert(d[i] == p[i]);
            }
        }
        assert(d[0] == p[0]);
    }
}

/// The decimal text of a number reads back as that number.
pub proof fn law_decimal_text_reads_back(n: u64)
    ensures
        parsed_u64(decimal_of(n as nat)) == Some(n),
{
    lemma_decimal_digits(n as nat);
}

/// Versions are ordered both ways alike: `a` is newer than `b` exactly when
/// `b` is older than `a`, and the same exactly when `b` is the same as `a`.
pub proof fn law_version_order_flips(a: Seq<u64>, b: Seq<u64>, i: nat)
    ensures
        (order_from(a, b, i) == VersionOrder::Newer) <==> (order_from(b, a, i) == VersionOrder::Older),
        (order_from(a, b, i) == VersionOrder::Same) <==> (order_from(b, a, i) == VersionOrder::Same),
    decreases (if a.len() > b.len() {
        a.len()
    } else {
        b.len()
    }) - i,
{
    if i >= a.len() && i >= b.len() {
    } else if crate::commands::part_at(a, i as int) == crate::commands::part_at(b, i as int) {
        law_version_order_flips(a, b, i + 1);
    }
}

// ---------------------------------------------------------------------------
// Text.
// ---------------------------------------------------------------------------

proof fn lemma_trim_start_first(s: Seq<char>)
    ensures
        trim_start(s).len() > 0 ==> !is_white_space(trim_start(s)[0]),
    decreases s.len(),
{
    if s.len() > 0 && is_white_space(s[0]) {
        lemma_trim_start_first(s.drop_first());
    }
}

proof fn lemma_trim_end_ends(s: Seq<char>)
    ensures
        trim_end(s).len() > 0 ==> !is_white_space(trim_end(s).last()) && trim_end(s)[0] == s[0],
    decreases s.len(),
{
    if s.len() > 0 && is_white_space(s.last()) {
        let t = s.drop_last();
        lemma_trim_end_ends(t);
        if trim_end(t).len() > 0 {
            assert(t[0] == s[0]);
        }
    }
}

/// Trimming trimmed text changes nothing.
pub proof fn law_trim_is_idempotent(s: Seq<char>)
    ensures
        trim(trim(s)) == trim(s),
{
    let t = trim(s);
    lemma_trim_start_first(s);
    lemma_trim_end_ends(trim_start(s));
    if t.len() > 0 {
        assert(t[0] == trim_start(s)[0]);
        assert(trim_start(t) == t);
        assert(t.last() == t[t.len() - 1]);
        assert(trim_end(t) == t);
    }
}

/// A character a saved file name may hold.
pub open spec fn file_name_char(c: char) -> bool {
    !is_reserved_char(c) && !is_control_char(c)
}

/// Every character of `s` may stand in a saved file name.
pub open spec fn file_name_text(s: Seq<char>) -> bool {
    forall|i: int| 0 <= i < s.len() ==> file_name_char(#[trigger] s[i])
}

proof fn lemma_tail_ok(s: Seq<char>)
    requires
        file_name_text(s),
        s.len() > 0,
    ensures
        file_name_text(s.drop_first()),
        file_name_text(s.drop_last()),
{
    assert forall|i: int| 0 <= i < s.len() - 1 implies file_name_char(#[trigger] s.drop_first()[i]) by {
        assert(s.drop_first()[i] == s[i + 1]);
    }
    assert forall|i: int| 0 <= i < s.len() - 1 implies file_name_char(#[trigger] s.drop_last()[i]) by {
        assert(s.drop_last()[i] == s[i]);
    }
}

proof fn lemma_trim_keeps_ok(s: Seq<char>)
    requires
        file_name_text(s),
    ensures
        file_name_text(trim_start(s)),
        file_name_text(trim_end(s)),
    decreases s.len(),
{
    if s.len() > 0 {
        lemma_tail_ok(s);
        lemma_trim_keeps_ok(s.drop_first());
        lemma_trim_keeps_ok(s.drop_last());
    }
}

proof fn lemma_strip_keeps_ok(s: Seq<char>, c: char)
    requires
        file_name_text(s),
    ensures
        file_name_text(strip_char(s, c)),
    decreases s.len(),
{
    if s.len() > 0 {
        lemma_tail_ok(s);
        lemma_strip_keeps_ok(s.drop_first(), c);
        lemma_strip_keeps_ok(s.drop_last(), c);
    }
}

/// A name made safe holds no character that Windows file names cannot hold
/// and no control character.
pub proof fn law_safe_names_are_safe(name: Seq<char>)
    ensures
        file_name_text(safe_name_of(name)),
{
    let u = sanitized(name);
    assert forall|i: int| 0 <= i < u.len() implies file_name_char(#[trigger] u[i]) by {
        let c = name[i];
        if is_reserved_char(c) || is_control_char(c) {
            assert(u[i] == '_');
        } else {
            assert(u[i] == c);
        }
    }
    lemma_trim_keeps_ok(u);
    lemma_trim_keeps_ok(trim_start(u));
    lemma_strip_keeps_ok(trim(u), '.');
}

// ---------------------------------------------------------------------------
// Addresses to probe.
// ---------------------------------------------------------------------------

/// An address remembered for probing is then known, with the source it was
/// remembered for merged into the one it had: an address the user named
/// stays named by the user.
pub proof fn law_remembered_address_is_known(
    entries: Seq<(Seq<char>, CandidateSource)>,
    ip: Seq<char>,
    source: CandidateSource,
)
    ensures
        source_of(remembered(entries, ip, source), ip) == Some(
            match source_of(entries, ip) {
                Some(before) => merged(before, source),
                None => source,
            },
        ),
{
    let ids = candidate_ips(entries);
    let i = first_index(ids, ip);
    lemma_first_index_range(ids, ip);
    let after = remembered(entries, ip, source);
    if i >= 0 {
        assert(candidate_ips(after) =~= ids);
    } else {
        assert(candidate_ips(after) =~= ids.push(ip));
        assert(crate::watch_state::is_first(ids.push(ip), ip, ids.len() as int)) by {
            assert forall|j: int| 0 <= j < ids.len() implies #[trigger] ids.push(ip)[j] != ip by {
                assert(ids.push(ip)[j] == ids[j]);
                if ids[j] == ip {
                    assert(ids.contains(ip));
                }
            }
        }
        lemma_first_index(ids.push(ip), ip, ids.len() as int);
    }
}

/// An address consumed, once its device answered, is no longer probed.
pub proof fn law_consumed_address_is_gone(entries: Seq<(Seq<char>, CandidateSource)>, ip: Seq<char>)
    ensures
        source_of(consumed(entries, ip), ip) is None,
{
    let rest = consumed(entries, ip);
    let ids = candidate_ips(rest);
    lemma_first_index_range(ids, ip);
    if ids.contains(ip) {
        broadcast use vstd::seq_lib::group_filter_ensures;

        let k = choose|k: int| 0 <= k < ids.len() && ids[k] == ip;
        assert(rest[k].0 == ip);
    }
}

// ---------------------------------------------------------------------------
// Keys that stay unique.
// ---------------------------------------------------------------------------

/// No two items of `s` have the same key.
pub open spec fn keys_unique<A>(s: Seq<A>, key: spec_fn(A) -> Seq<char>) -> bool {
    forall|i: int, j: int| 0 <= i < j < s.len() ==> key(#[trigger] s[i]) != key(#[trigger] s[j])
}

proof fn lemma_keys_unique_ids<A>(s: Seq<A>, key: spec_fn(A) -> Seq<char>)
    ensures
        keys_unique(s, key) <==> s.map_values(key).no_duplicates(),
{
    let ids = s.map_values(key);
    if keys_unique(s, key) {
        assert forall|i: int, j: int| 0 <= i < ids.len() && 0 <= j < ids.len() && i != j implies ids[i] != ids[j] by {
            if i < j {
                assert(key(s[i]) != key(s[j]));
            } else {
                assert(key(s[j]) != key(s[i]));
            }
        }
    }
    if ids.no_duplicates() {
        assert forall|i: int, j: int| 0 <= i < j < s.len() implies key(#[trigger] s[i]) != key(#[trigger] s[j]) by {
            assert(ids[i] == key(s[i]) && ids[j] == key(s[j]));
        }
    }
}

proof fn lemma_keys_unique_filter<A>(s: Seq<A>, key: spec_fn(A) -> Seq<char>, pred: spec_fn(A) -> bool)
    requires
        keys_unique(s, key),
    ensures
        keys_unique(s.filter(pred), key),
    decreases s.len(),
{
    reveal_with_fuel(Seq::<_>::filter, 1);
    if s.len() > 0 {
        let d = s.drop_last();
        assert forall|i: int, j: int| 0 <= i < j < d.len() implies key(#[trigger] d[i]) != key(#[trigger] d[j]) by {
            assert(d[i] == s[i] && d[j] == s[j]);
        }
        lemma_keys_unique_filter(d, key, pred);
        let f = d.filter(pred);
        if pred(s.last()) {
            let g = f.push(s.last());
            assert forall|i: int, j: int| 0 <= i < j < g.len() implies key(#[trigger] g[i]) != key(#[trigger] g[j]) by {
                if j == f.len() {
                    assert(f.contains(f[i]));
                    d.lemma_filter_contains_rev(pred, f[i]);
                    let m = choose|m: int| 0 <= m < d.len() && d[m] == f[i];
                    assert(d[m] == s[m]);
                    assert(g[i] == f[i]);
                    assert(g[j] == s[s.len() - 1]);
                } else {
                    assert(g[i] == f[i] && g[j] == f[j]);
                }
            }
            assert(s.filter(pred) == g);
        }
    }
}

proof fn lemma_keys_unique_upsert<A>(s: Seq<A>, key: spec_fn(A) -> Seq<char>, i: int, x: A)
    requires
        keys_unique(s, key),
        i >= 0 ==> i < s.len() && key(s[i]) == key(x),
        i < 0 ==> !s.map_values(key).contains(key(x)),
    ensures
        keys_unique(if i >= 0 { s.update(i, x) } else { s.push(x) }, key),
{
    let t = if i >= 0 { s.update(i, x) } else { s.push(x) };
    assert forall|a: int, b: int| 0 <= a < b < t.len() implies key(#[trigger] t[a]) != key(#[trigger] t[b]) by {
        if i >= 0 {
            if a != i && b != i {
                assert(key(s[a]) != key(s[b]));
            } else if a == i {
                assert(key(s[i]) != key(s[b]));
            } else {
                assert(key(s[a]) != key(s[i]));
            }
        } else if b == s.len() {
            assert(t[a] == s[a]);
            assert(s.map_values(key)[a] == key(s[a]));
        } else {
            assert(key(s[a]) != key(s[b]));
        }
    }
}

/// Every change to the watch rooms a device knows keeps one room per id and
/// one open session per room: storing a room or a session takes the place of
/// the one with its id or adds it, and closing a room drops it; a room's
/// member list keeps each member once.
pub proof fn law_watch_room_ids_stay_unique(
    rooms: Seq<EntryModel>,
    sessions: Seq<SessionModel>,
    e: EntryModel,
    s: SessionModel,
    id: Seq<char>,
    members: Seq<Seq<char>>,
    user: Seq<char>,
)
    requires
        room_ids(rooms).no_duplicates(),
        session_ids(sessions).no_duplicates(),
        members.no_duplicates(),
    ensures
        room_ids(upsert_entry(rooms, e)).no_duplicates(),
        room_ids(without_entry(rooms, id)).no_duplicates(),
        session_ids(upsert_session(sessions, s)).no_duplicates(),
        session_ids(without_session(sessions, id)).no_duplicates(),
        with_member(members, user).no_duplicates(),
{
    let rk = |x: EntryModel| x.room.room_id;
    let sk = |x: SessionModel| x.room_id;
    assert(room_ids(rooms) == rooms.map_values(rk));
    assert(session_ids(sessions) == sessions.map_values(sk));
    lemma_keys_unique_ids(rooms, rk);
    lemma_keys_unique_ids(sessions, sk);
    let ri = first_index(room_ids(rooms), e.room.room_id);
    lemma_first_index_range(room_ids(rooms), e.room.room_id);
    lemma_keys_unique_upsert(rooms, rk, ri, e);
    lemma_keys_unique_ids(upsert_entry(rooms, e), rk);
    assert(room_ids(upsert_entry(rooms, e)) == upsert_entry(rooms, e).map_values(rk));
    let si = first_index(session_ids(sessions), s.room_id);
    lemma_first_index_range(session_ids(sessions), s.room_id);
    lemma_keys_unique_upsert(sessions, sk, si, s);
    lemma_keys_unique_ids(upsert_session(sessions, s), sk);
    assert(session_ids(upsert_session(sessions, s)) == upsert_session(sessions, s).map_values(sk));
    lemma_keys_unique_filter(rooms, rk, |x: EntryModel| x.room.room_id != id);
    lemma_keys_unique_ids(without_entry(rooms, id), rk);
    assert(room_ids(without_entry(rooms, id)) == without_entry(rooms, id).map_values(rk));
    lemma_keys_unique_filter(sessions, sk, |x: SessionModel| x.room_id != id);
    lemma_keys_unique_ids(without_session(sessions, id), sk);
    assert(session_ids(without_session(sessions, id)) == without_session(sessions, id).map_values(sk));
    if !members.contains(user) {
        let m = members.push(user);
        assert forall|i: int, j: int| 0 <= i < m.len() && 0 <= j < m.len() && i != j implies m[i] != m[j] by {
            if i == members.len() {
                assert(m[j] == members[j]);
            } else if j == members.len() {
                assert(m[i] == members[i]);
            } else {
                assert(m[i] == members[i] && m[j] == members[j]);
            }
        }
    }
}

proof fn lemma_consumed_unique(entries: Seq<(Seq<char>, CandidateSource)>, ip: Seq<char>)
    requires
        keys_unique(entries, |x: (Seq<char>, CandidateSource)| x.0),
    ensures
        keys_unique(consumed(entries, ip), |x: (Seq<char>, CandidateSource)| x.0),
    decreases entries.len(),
{
    broadcast use Seq::lemma_filter_contains_rev;

    reveal_with_fuel(Seq::<_>::filter, 1);
    if entries.len() > 0 {
        let d = entries.drop_last();
        let last = entries.last();
        assert forall|i: int, j: int| 0 <= i < j < d.len() implies (#[trigger] d[i]).0 != (#[trigger] d[j]).0 by {
            assert(d[i] == entries[i] && d[j] == entries[j]);
        }
        lemma_consumed_unique(d, ip);
        let f = consumed(d, ip);
        if last.0 != ip {
            let g = f.push(last);
            assert(consumed(entries, ip) == g);
            assert forall|i: int, j: int| 0 <= i < j < g.len() implies (#[trigger] g[i]).0 != (#[trigger] g[j]).0 by {
                if j == f.len() {
                    assert(g[i] == f[i]);
                    assert(f.contains(f[i]));
                    assert(d.contains(f[i]));
                    let m = choose|m: int| 0 <= m < d.len() && d[m] == f[i];
                    assert(d[m] == entries[m]);
                    assert(g[j] == entries[entries.len() - 1]);
                } else {
                    assert(g[i] == f[i] && g[j] == f[j]);
                }
            }
        } else {
            assert(consumed(entries, ip) == f);
        }
    }
}

/// Remembering an address to probe and dropping one keep each address in the
/// table once.
pub proof fn law_candidate_addresses_stay_unique(
    entries: Seq<(Seq<char>, CandidateSource)>,
    ip: Seq<char>,
    source: CandidateSource,
)
    requires
        candidate_ips(entries).no_duplicates(),
    ensures
        candidate_ips(remembered(entries, ip, source)).no_duplicates(),
        candidate_ips(consumed(entries, ip)).no_duplicates(),
{
    let k = |x: (Seq<char>, CandidateSource)| x.0;
    assert(candidate_ips(entries) == entries.map_values(k));
    lemma_keys_unique_ids(entries, k);
    let i = first_index(candidate_ips(entries), ip);
    lemma_first_index_range(candidate_ips(entries), ip);
    if i >= 0 {
        assert(entries[i].0 == candidate_ips(entries)[i]);
    }
    lemma_keys_unique_upsert(entries, k, i, (ip, if i >= 0 { merged(entries[i].1, source) } else { source }));
    let after = remembered(entries, ip, source);
    lemma_keys_unique_ids(after, k);
    assert(candidate_ips(after) == after.map_values(k));
    lemma_consumed_unique(entries, ip);
    lemma_keys_unique_ids(consumed(entries, ip), k);
    assert(candidate_ips(consumed(entries, ip)) =~= consumed(entries, ip).map_values(k));
}

// ---------------------------------------------------------------------------
// Five in a row.
// ---------------------------------------------------------------------------

/// The cell `j` steps from `(x, y)` along line `dir` (0: across, 1: down,
/// 2: down to the right, 3: up to the right) lies on the 15 x 15 board and
/// holds `c`.
pub open spec fn line_cell(board: Seq<Seq<u8>>, x: int, y: int, c: u8, dir: int, j: int) -> bool {
    let px = if dir == 1 { x } else { x + j };
    let py = if dir == 0 {
        y
    } else if dir == 3 {
        y - j
    } else {
        y + j
    };
    0 <= px < 15 && 0 <= py < 15 && board[py][px] == c
}

/// The five cells from `a` to `a + 4` steps along line `dir` through `(x, y)`
/// hold `c`, the cell `(x, y)` itself aside.
pub open spec fn window_holds(board: Seq<Seq<u8>>, x: int, y: int, c: u8, dir: int, a: int) -> bool {
    forall|j: int| a <= j <= a + 4 && j != 0 ==> #[trigger] line_cell(board, x, y, c, dir, j)
}

/// Some five cells in a row through `(x, y)`, along any of the four lines and
/// with `(x, y)` anywhere among them, hold `c` (the cell `(x, y)` aside).
pub open spec fn five_through(board: Seq<Seq<u8>>, x: int, y: int, c: u8) -> bool {
    exists|dir: int, a: int| 0 <= dir < 4 && -4 <= a <= 0 && #[trigger] window_holds(board, x, y, c, dir, a)
}

spec fn dx_of(dir: int) -> int {
    if dir == 1 { 0 } else { 1 }
}

spec fn dy_of(dir: int) -> int {
    if dir == 0 {
        0
    } else if dir == 3 {
        -1
    } else {
        1
    }
}

proof fn lemma_window(board: Seq<Seq<u8>>, x: int, y: int, c: u8, dir: int, a: int)
    requires
        0 <= dir < 4,
    ensures
        window_full(board, x, y, c, dx_of(dir), dy_of(dir), a) == window_holds(board, x, y, c, dir, a),
{
    assert forall|j: int| #[trigger] line_cell(board, x, y, c, dir, j) == crate::gomoku::cell_is(
        board,
        step(x, j, dx_of(dir)),
        step(y, j, dy_of(dir)),
        c,
    ) by {}
    if window_full(board, x, y, c, dx_of(dir), dy_of(dir), a) {
        assert forall|j: int| a <= j <= a + 4 && j != 0 implies #[trigger] line_cell(board, x, y, c, dir, j) by {
            assert(crate::gomoku::cell_is(board, step(x, j, dx_of(dir)), step(y, j, dy_of(dir)), c));
        }
    }
    if window_holds(board, x, y, c, dir, a) {
        assert forall|j: int| a <= j <= a + 4 && j != 0 implies crate::gomoku::cell_is(
            board,
            #[trigger] step(x, j, dx_of(dir)),
            step(y, j, dy_of(dir)),
            c,
        ) by {
            assert(line_cell(board, x, y, c, dir, j));
        }
    }
}

/// A stone of colour `c` at `(x, y)` wins exactly when some five cells in a
/// row through `(x, y)` hold `c`: across, down, or along either diagonal,
/// with `(x, y)` at either end of the five or anywhere between.
pub proof fn law_five_in_a_row_wins(board: Seq<Seq<u8>>, x: int, y: int, c: u8)
    ensures
        wins(board, x, y, c) == five_through(board, x, y, c),
{
    if wins(board, x, y, c) {
        let dir: int = if line_of_five(board, x, y, c, 1, 0) {
            0
        } else if line_of_five(board, x, y, c, 0, 1) {
            1
        } else if line_of_five(board, x, y, c, 1, 1) {
            2
        } else {
            3
        };
        assert(line_of_five(board, x, y, c, dx_of(dir), dy_of(dir)));
        let a = choose|a: int| -4 <= a <= 0 && #[trigger] window_full(board, x, y, c, dx_of(dir), dy_of(dir), a);
        lemma_window(board, x, y, c, dir, a);
        assert(window_holds(board, x, y, c, dir, a));
    }
    if five_through(board, x, y, c) {
        let (dir, a) = choose|dir: int, a: int|
            0 <= dir < 4 && -4 <= a <= 0 && #[trigger] window_holds(board, x, y, c, dir, a);
        lemma_window(board, x, y, c, dir, a);
        assert(window_full(board, x, y, c, dx_of(dir), dy_of(dir), a));
        assert(line_of_five(board, x, y, c, dx_of(dir), dy_of(dir)));
    }
}

/// The board turned upside down: row `r` becomes row `14 - r`.
pub open spec fn flipped(board: Seq<Seq<u8>>) -> Seq<Seq<u8>> {
    Seq::new(15, |r: int| board[14 - r])
}

spec fn flip_dir(dir: int) -> int {
    if dir == 2 {
        3
    } else if dir == 3 {
        2
    } else {
        dir
    }
}

spec fn flip_start(dir: int, a: int) -> int {
    if dir == 1 { -a - 4 } else { a }
}

proof fn lemma_flip_window(board: Seq<Seq<u8>>, x: int, y: int, c: u8, dir: int, a: int)
    requires
        0 <= dir < 4,
        0 <= y < 15,
    ensures
        window_holds(flipped(board), x, 14 - y, c, dir, a) == window_holds(board, x, y, c, flip_dir(dir), flip_start(dir, a)),
{
    let f = flipped(board);
    let yy = 14 - y;
    let d2 = flip_dir(dir);
    let a2 = flip_start(dir, a);
    let jm = |j: int| if dir == 1 { -j } else { j };
    assert forall|j: int| #[trigger] line_cell(f, x, yy, c, dir, j) == line_cell(board, x, y, c, d2, jm(j)) by {}
    if window_holds(f, x, yy, c, dir, a) {
        assert forall|j: int| a2 <= j <= a2 + 4 && j != 0 implies #[trigger] line_cell(board, x, y, c, d2, j) by {
            let i = if dir == 1 { -j } else { j };
            assert(jm(i) == j);
            assert(line_cell(f, x, yy, c, dir, i));
        }
    }
    if window_holds(board, x, y, c, d2, a2) {
        assert forall|j: int| a <= j <= a + 4 && j != 0 implies #[trigger] line_cell(f, x, yy, c, dir, j) by {
            assert(line_cell(board, x, y, c, d2, jm(j)));
        }
    }
}

/// Turning the board upside down turns wins into wins: a stone wins at
/// `(x, y)` exactly when it wins at `(x, 14 - y)` on the flipped board, so no
/// line is counted in one direction only.
pub proof fn law_win_survives_flipping_the_board(board: Seq<Seq<u8>>, x: int, y: int, c: u8)
    requires
        0 <= y < 15,
    ensures
        wins(board, x, y, c) == wins(flipped(board), x, 14 - y, c),
{
    law_five_in_a_row_wins(board, x, y, c);
    law_five_in_a_row_wins(flipped(board), x, 14 - y, c);
    if five_through(flipped(board), x, 14 - y, c) {
        let (dir, a) = choose|dir: int, a: int|
            0 <= dir < 4 && -4 <= a <= 0 && #[trigger] window_holds(flipped(board), x, 14 - y, c, dir, a);
        lemma_flip_window(board, x, y, c, dir, a);
        assert(window_holds(board, x, y, c, flip_dir(dir), flip_start(dir, a)));
    }
    if five_through(board, x, y, c) {
        let (d, b) = choose|d: int, b: int| 0 <= d < 4 && -4 <= b <= 0 && #[trigger] window_holds(board, x, y, c, d, b);
        let dir = flip_dir(d);
        let a = flip_start(d, b);
        assert(flip_dir(dir) == d && flip_start(dir, a) == b);
        lemma_flip_window(board, x, y, c, dir, a);
        assert(window_holds(flipped(board), x, 14 - y, c, dir, a));
    }
}

// ---------------------------------------------------------------------------
// Starting over.
// ---------------------------------------------------------------------------

/// A restart that is agreed to clears the board and starts the game afresh
/// with black to move: a room with a guest is back in play, whatever state it
/// was in (a finished game too), and a room without one waits for a player.
pub proof fn law_accepted_restart_resumes_play(
    rooms: Seq<SnapshotModel>,
    local: Seq<char>,
    id: Seq<char>,
    actor: Seq<char>,
    now: i64,
    event_id: Seq<char>,
    r: Result<crate::game_types::GameRoomSnapshot, String>,
    after: Seq<SnapshotModel>,
)
    requires
        restart_accept_outcome(rooms, local, id, actor, now, event_id, r, after),
        r is Ok,
    ensures
        ({
            let t = r->Ok_0@;
            &&& t.room.guest_peer_id is Some ==> t.room.status == GameRoomStatus::Playing && t.state.status_text == "黑方回合"@
            &&& t.room.guest_peer_id is None ==> t.room.status == GameRoomStatus::Waiting
            &&& t.state.current_turn == 1
            &&& t.state.winner is None
            &&& t.state.move_history.len() == 0
            &&& t.state.restart_requested_by is None
            &&& board_ok(t.state.board)
            &&& forall|i: int, j: int| 0 <= i < 15 && 0 <= j < 15 ==> #[trigger] t.state.board[i][j] == 0
        }),
{
}

// ---------------------------------------------------------------------------
// Routes of the LAN API.
// ---------------------------------------------------------------------------

/// Distinct paths go to distinct routes: two POST paths that reach the same
/// route, other than none at all, are the same path.
pub proof fn law_post_paths_route_apart(p1: Seq<char>, p2: Seq<char>)
    requires
        route_of("POST"@, p1) == route_of("POST"@, p2),
        route_of("POST"@, p1) != LanRoute::NotFound,
    ensures
        p1 == p2,
{
    lemma_get_is_not_post();
}

proof fn lemma_get_is_not_post()
    ensures
        "GET"@ != "POST"@,
{
    reveal_strlit("GET");
    reveal_strlit("POST");
    assert("GET"@.len() != "POST"@.len());
}

/// The POST paths of the LAN API differ from one another.
proof fn lemma_post_paths_differ()
    ensures
        "/downloads/completed"@ != "/chat/messages"@,
        "/downloads/completed"@ != "/chat/rooms/invite"@,
        "/chat/messages"@ != "/chat/rooms/invite"@,
        "/downloads/completed"@ != "/chat/rooms/delete"@,
        "/chat/messages"@ != "/chat/rooms/delete"@,
        "/chat/rooms/invite"@ != "/chat/rooms/delete"@,
        "/downloads/completed"@ != "/watch/rooms/update"@,
        "/chat/messages"@ != "/watch/rooms/update"@,
        "/chat/rooms/invite"@ != "/watch/rooms/update"@,
        "/chat/rooms/delete"@ != "/watch/rooms/update"@,
        "/downloads/completed"@ != "/watch/rooms/end"@,
        "/chat/messages"@ != "/watch/rooms/end"@,
        "/chat/rooms/invite"@ != "/watch/rooms/end"@,
        "/chat/rooms/delete"@ != "/watch/rooms/end"@,
        "/watch/rooms/update"@ != "/watch/rooms/end"@,
        "/downloads/completed"@ != "/watch/rooms/join"@,
        "/chat/messages"@ != "/watch/rooms/join"@,
        "/chat/rooms/invite"@ != "/watch/rooms/join"@,
        "/chat/rooms/delete"@ != "/watch/rooms/join"@,
        "/watch/rooms/update"@ != "/watch/rooms/join"@,
        "/watch/rooms/end"@ != "/watch/rooms/join"@,
        "/downloads/completed"@ != "/watch/rooms/leave"@,
        "/chat/messages"@ != "/watch/rooms/leave"@,
        "/chat/rooms/invite"@ != "/watch/rooms/leave"@,
        "/chat/rooms/delete"@ != "/watch/rooms/leave"@,
        "/watch/rooms/update"@ != "/watch/rooms/leave"@,
        "/watch/rooms/end"@ != "/watch/rooms/leave"@,
        "/watch/rooms/join"@ != "/watch/rooms/leave"@,
        "/downloads/completed"@ != "/watch/chat/messages"@,
        "/chat/messages"@ != "/watch/chat/messages"@,
        "/chat/rooms/invite"@ != "/watch/chat/messages"@,
        "/chat/rooms/delete"@ != "/watch/chat/messages"@,
        "/watch/rooms/update"@ != "/watch/chat/messages"@,
        "/watch/rooms/end"@ != "/watch/chat/messages"@,
        "/watch/rooms/join"@ != "/watch/chat/messages"@,
        "/watch/rooms/leave"@ != "/watch/chat/messages"@,
        "/downloads/completed"@ != "/watch/sync"@,
        "/chat/messages"@ != "/watch/sync"@,
        "/chat/rooms/invite"@ != "/watch/sync"@,
        "/chat/rooms/delete"@ != "/watch/sync"@,
        "/watch/rooms/update"@ != "/watch/sync"@,
        "/watch/rooms/end"@ != "/watch/sync"@,
        "/watch/rooms/join"@ != "/watch/sync"@,
        "/watch/rooms/leave"@ != "/watch/sync"@,
        "/watch/chat/messages"@ != "/watch/sync"@,
        "/downloads/completed"@ != "/games/rooms/update"@,
        "/chat/messages"@ != "/games/rooms/update"@,
        "/chat/rooms/invite"@ != "/games/rooms/update"@,
        "/chat/rooms/delete"@ != "/games/rooms/update"@,
        "/watch/rooms/update"@ != "/games/rooms/update"@,
        "/watch/rooms/end"@ != "/games/rooms/update"@,
        "/watch/rooms/join"@ != "/games/rooms/update"@,
        "/watch/rooms/leave"@ != "/games/rooms/update"@,
        "/watch/chat/messages"@ != "/games/rooms/update"@,
        "/watch/sync"@ != "/games/rooms/update"@,
        "/downloads/completed"@ != "/games/rooms/end"@,
        "/chat/messages"@ != "/games/rooms/end"@,
        "/chat/rooms/invite"@ != "/games/rooms/end"@,
        "/chat/rooms/delete"@ != "/games/rooms/end"@,
        "/watch/rooms/update"@ != "/games/rooms/end"@,
        "/watch/rooms/end"@ != "/games/rooms/end"@,
        "/watch/rooms/join"@ != "/games/rooms/end"@,
        "/watch/rooms/leave"@ != "/games/rooms/end"@,
        "/watch/chat/messages"@ != "/games/rooms/end"@,
        "/watch/sync"@ != "/games/rooms/end"@,
        "/games/rooms/update"@ != "/games/rooms/end"@,
        "/downloads/completed"@ != "/games/rooms/join"@,
        "/chat/messages"@ != "/games/rooms/join"@,
        "/chat/rooms/invite"@ != "/games/rooms/join"@,
        "/chat/rooms/delete"@ != "/games/rooms/join"@,
        "/watch/rooms/update"@ != "/games/rooms/join"@,
        "/watch/rooms/end"@ != "/games/rooms/join"@,
        "/watch/rooms/join"@ != "/games/rooms/join"@,
        "/watch/rooms/leave"@ != "/games/rooms/join"@,
        "/watch/chat/messages"@ != "/games/rooms/join"@,
        "/watch/sync"@ != "/games/rooms/join"@,
        "/games/rooms/update"@ != "/games/rooms/join"@,
        "/games/rooms/end"@ != "/games/rooms/join"@,
        "/downloads/completed"@ != "/games/rooms/leave"@,
        "/chat/messages"@ != "/games/rooms/leave"@,
        "/chat/rooms/invite"@ != "/games/rooms/leave"@,
        "/chat/rooms/delete"@ != "/games/rooms/leave"@,
        "/watch/rooms/update"@ != "/games/rooms/leave"@,
        "/watch/rooms/end"@ != "/games/rooms/leave"@,
        "/watch/rooms/join"@ != "/games/rooms/leave"@,
        "/watch/rooms/leave"@ != "/games/rooms/leave"@,
        "/watch/chat/messages"@ != "/games/rooms/leave"@,
        "/watch/sync"@ != "/games/rooms/leave"@,
        "/games/rooms/update"@ != "/games/rooms/leave"@,
        "/games/rooms/end"@ != "/games/rooms/leave"@,
        "/games/rooms/join"@ != "/games/rooms/leave"@,
        "/downloads/completed"@ != "/games/gomoku/move"@,
        "/chat/messages"@ != "/games/gomoku/move"@,
        "/chat/rooms/invite"@ != "/games/gomoku/move"@,
        "/chat/rooms/delete"@ != "/games/gomoku/move"@,
        "/watch/rooms/update"@ != "/games/gomoku/move"@,
        "/watch/rooms/end"@ != "/games/gomoku/move"@,
        "/watch/rooms/join"@ != "/games/gomoku/move"@,
        "/watch/rooms/leave"@ != "/games/gomoku/move"@,
        "/watch/chat/messages"@ != "/games/gomoku/move"@,
        "/watch/sync"@ != "/games/gomoku/move"@,
        "/games/rooms/update"@ != "/games/gomoku/move"@,
        "/games/rooms/end"@ != "/games/gomoku/move"@,
        "/games/rooms/join"@ != "/games/gomoku/move"@,
        "/games/rooms/leave"@ != "/games/gomoku/move"@,
        "/downloads/completed"@ != "/games/gomoku/restart/request"@,
        "/chat/messages"@ != "/games/gomoku/restart/request"@,
        "/chat/rooms/invite"@ != "/games/gomoku/restart/request"@,
        "/chat/rooms/delete"@ != "/games/gomoku/restart/request"@,
        "/watch/rooms/update"@ != "/games/gomoku/restart/request"@,
        "/watch/rooms/end"@ != "/games/gomoku/restart/request"@,
        "/watch/rooms/join"@ != "/games/gomoku/restart/request"@,
        "/watch/rooms/leave"@ != "/games/gomoku/restart/request"@,
        "/watch/chat/messages"@ != "/games/gomoku/restart/request"@,
        "/watch/sync"@ != "/games/gomoku/restart/request"@,
        "/games/rooms/update"@ != "/games/gomoku/restart/request"@,
        "/games/rooms/end"@ != "/games/gomoku/restart/request"@,
        "/games/rooms/join"@ != "/games/gomoku/restart/request"@,
        "/games/rooms/leave"@ != "/games/gomoku/restart/request"@,
        "/games/gomoku/move"@ != "/games/gomoku/restart/request"@,
        "/downloads/completed"@ != "/games/gomoku/restart/accept"@,
        "/chat/messages"@ != "/games/gomoku/restart/accept"@,
        "/chat/rooms/invite"@ != "/games/gomoku/restart/accept"@,
        "/chat/rooms/delete"@ != "/games/gomoku/restart/accept"@,
        "/watch/rooms/update"@ != "/games/gomoku/restart/accept"@,
        "/watch/rooms/end"@ != "/games/gomoku/restart/accept"@,
        "/watch/rooms/join"@ != "/games/gomoku/restart/accept"@,
        "/watch/rooms/leave"@ != "/games/gomoku/restart/accept"@,
        "/watch/chat/messages"@ != "/games/gomoku/restart/accept"@,
        "/watch/sync"@ != "/games/gomoku/restart/accept"@,
        "/games/rooms/update"@ != "/games/gomoku/restart/accept"@,
        "/games/rooms/end"@ != "/games/gomoku/restart/accept"@,
        "/games/rooms/join"@ != "/games/gomoku/restart/accept"@,
        "/games/rooms/leave"@ != "/games/gomoku/restart/accept"@,
        "/games/gomoku/move"@ != "/games/gomoku/restart/accept"@,
        "/games/gomoku/restart/request"@ != "/games/gomoku/restart/accept"@,
        "/downloads/completed"@ != "/games/gomoku/surrender"@,
        "/chat/messages"@ != "/games/gomoku/surrender"@,
        "/chat/rooms/invite"@ != "/games/gomoku/surrender"@,
        "/chat/rooms/delete"@ != "/games/gomoku/surrender"@,
        "/watch/rooms/update"@ != "/games/gomoku/surrender"@,
        "/watch/rooms/end"@ != "/games/gomoku/surrender"@,
        "/watch/rooms/join"@ != "/games/gomoku/surrender"@,
        "/watch/rooms/leave"@ != "/games/gomoku/surrender"@,
        "/watch/chat/messages"@ != "/games/gomoku/surrender"@,
        "/watch/sync"@ != "/games/gomoku/surrender"@,
        "/games/rooms/update"@ != "/games/gomoku/surrender"@,
        "/games/rooms/end"@ != "/games/gomoku/surrender"@,
        "/games/rooms/join"@ != "/games/gomoku/surrender"@,
        "/games/rooms/leave"@ != "/games/gomoku/surrender"@,
        "/games/gomoku/move"@ != "/games/gomoku/surrender"@,
        "/games/gomoku/restart/request"@ != "/games/gomoku/surrender"@,
        "/games/gomoku/restart/accept"@ != "/games/gomoku/surrender"@,
{
    reveal_strlit("/downloads/completed");
    reveal_strlit("/chat/messages");
    reveal_strlit("/chat/rooms/invite");
    reveal_strlit("/chat/rooms/delete");
    reveal_strlit("/watch/rooms/update");
    reveal_strlit("/watch/rooms/end");
    reveal_strlit("/watch/rooms/join");
    reveal_strlit("/watch/rooms/leave");
    reveal_strlit("/watch/chat/messages");
    reveal_strlit("/watch/sync");
    reveal_strlit("/games/rooms/update");
    reveal_strlit("/games/rooms/end");
    reveal_strlit("/games/rooms/join");
    reveal_strlit("/games/rooms/leave");
    reveal_strlit("/games/gomoku/move");
    reveal_strlit("/games/gomoku/restart/request");
    reveal_strlit("/games/gomoku/restart/accept");
    reveal_strlit("/games/gomoku/surrender");
    assert("/downloads/completed"@.len() != "/chat/messages"@.len());
    assert("/downloads/completed"@.len() != "/chat/rooms/invite"@.len());
    assert("/chat/messages"@.len() != "/chat/rooms/invite"@.len());
    assert("/downloads/completed"@.len() != "/chat/rooms/delete"@.len());
    assert("/chat/messages"@.len() != "/chat/rooms/delete"@.len());
    assert("/chat/rooms/invite"@[12] != "/chat/rooms/delete"@[12]);
    assert("/downloads/completed"@.len() != "/watch/rooms/update"@.len());
    assert("/chat/messages"@.len() != "/watch/rooms/update"@.len());
    assert("/chat/rooms/invite"@.len() != "/watch/rooms/update"@.len());
    assert("/chat/rooms/delete"@.len() != "/watch/rooms/update"@.len());
    assert("/downloads/completed"@.len() != "/watch/rooms/end"@.len());
    assert("/chat/messages"@.len() != "/watch/rooms/end"@.len());
    assert("/chat/rooms/invite"@.len() != "/watch/rooms/end"@.len());
    assert("/chat/rooms/delete"@.len() != "/watch/rooms/end"@.len());
    assert("/watch/rooms/update"@.len() != "/watch/rooms/end"@.len());
    assert("/downloads/completed"@.len() != "/watch/rooms/join"@.len());
    assert("/chat/messages"@.len() != "/watch/rooms/join"@.len());
    assert("/chat/rooms/invite"@.len() != "/watch/rooms/join"@.len());
    assert("/chat/rooms/delete"@.len() != "/watch/rooms/join"@.len());
    assert("/watch/rooms/update"@.len() != "/watch/rooms/join"@.len());
    assert("/watch/rooms/end"@.len() != "/watch/rooms/join"@.len());
    assert("/downloads/completed"@.len() != "/watch/rooms/leave"@.len());
    assert("/chat/messages"@.len() != "/watch/rooms/leave"@.len());
    assert("/chat/rooms/invite"@[1] != "/watch/rooms/leave"@[1]);
    assert("/chat/rooms/delete"@[1] != "/watch/rooms/leave"@[1]);
    assert("/watch/rooms/update"@.len() != "/watch/rooms/leave"@.len());
    assert("/watch/rooms/end"@.len() != "/watch/rooms/leave"@.len());
    assert("/watch/rooms/join"@.len() != "/watch/rooms/leave"@.len());
    assert("/downloads/completed"@[1] != "/watch/chat/messages"@[1]);
    assert("/chat/messages"@.len() != "/watch/chat/messages"@.len());
    assert("/chat/rooms/invite"@.len() != "/watch/chat/messages"@.len());
    assert("/chat/rooms/delete"@.len() != "/watch/chat/messages"@.len());
    assert("/watch/rooms/update"@.len() != "/watch/chat/messages"@.len());
    assert("/watch/rooms/end"@.len() != "/watch/chat/messages"@.len());
    assert("/watch/rooms/join"@.len() != "/watch/chat/messages"@.len());
    assert("/watch/rooms/leave"@.len() != "/watch/chat/messages"@.len());
    assert("/downloads/completed"@.len() != "/watch/sync"@.len());
    assert("/chat/messages"@.len() != "/watch/sync"@.len());
    assert("/chat/rooms/invite"@.len() != "/watch/sync"@.len());
    assert("/chat/rooms/delete"@.len() != "/watch/sync"@.len());
    assert("/watch/rooms/update"@.len() != "/watch/sync"@.len());
    assert("/watch/rooms/end"@.len() != "/watch/sync"@.len());
    assert("/watch/rooms/join"@.len() != "/watch/sync"@.len());
    assert("/watch/rooms/leave"@.len() != "/watch/sync"@.len());
    assert("/watch/chat/messages"@.len() != "/watch/sync"@.len());
    assert("/downloads/completed"@.len() != "/games/rooms/update"@.len());
    assert("/chat/messages"@.len() != "/games/rooms/update"@.len());
    assert("/chat/rooms/invite"@.len() != "/games/rooms/update"@.len());
    assert("/chat/rooms/delete"@.len() != "/games/rooms/update"@.len());
    assert("/watch/rooms/update"@[1] != "/games/rooms/update"@[1]);
    assert("/watch/rooms/end"@.len() != "/games/rooms/update"@.len());
    assert("/watch/rooms/join"@.len() != "/games/rooms/update"@.len());
    assert("/watch/rooms/leave"@.len() != "/games/rooms/update"@.len());
    assert("/watch/chat/messages"@.len() != "/games/rooms/update"@.len());
    assert("/watch/sync"@.len() != "/games/rooms/update"@.len());
    assert("/downloads/completed"@.len() != "/games/rooms/end"@.len());
    assert("/chat/messages"@.len() != "/games/rooms/end"@.len());
    assert("/chat/rooms/invite"@.len() != "/games/rooms/end"@.len());
    assert("/chat/rooms/delete"@.len() != "/games/rooms/end"@.len());
    assert("/watch/rooms/update"@.len() != "/games/rooms/end"@.len());
    assert("/watch/rooms/end"@[1] != "/games/rooms/end"@[1]);
    assert("/watch/rooms/join"@.len() != "/games/rooms/end"@.len());
    assert("/watch/rooms/leave"@.len() != "/games/rooms/end"@.len());
    assert("/watch/chat/messages"@.len() != "/games/rooms/end"@.len());
    assert("/watch/sync"@.len() != "/games/rooms/end"@.len());
    assert("/games/rooms/update"@.len() != "/games/rooms/end"@.len());
    assert("/downloads/completed"@.len() != "/games/rooms/join"@.len());
    assert("/chat/messages"@.len() != "/games/rooms/join"@.len());
    assert("/chat/rooms/invite"@.len() != "/games/rooms/join"@.len());
    assert("/chat/rooms/delete"@.len() != "/games/rooms/join"@.len());
    assert("/watch/rooms/update"@.len() != "/games/rooms/join"@.len());
    assert("/watch/rooms/end"@.len() != "/games/rooms/join"@.len());
    assert("/watch/rooms/join"@[1] != "/games/rooms/join"@[1]);
    assert("/watch/rooms/leave"@.len() != "/games/rooms/join"@.len());
    assert("/watch/chat/messages"@.len() != "/games/rooms/join"@.len());
    assert("/watch/sync"@.len() != "/games/rooms/join"@.len());
    assert("/games/rooms/update"@.len() != "/games/rooms/join"@.len());
    assert("/games/rooms/end"@.len() != "/games/rooms/join"@.len());
    assert("/downloads/completed"@.len() != "/games/rooms/leave"@.len());
    assert("/chat/messages"@.len() != "/games/rooms/leave"@.len());
    assert("/chat/rooms/invite"@[1] != "/games/rooms/leave"@[1]);
    assert("/chat/rooms/delete"@[1] != "/games/rooms/leave"@[1]);
    assert("/watch/rooms/update"@.len() != "/games/rooms/leave"@.len());
    assert("/watch/rooms/end"@.len() != "/games/rooms/leave"@.len());
    assert("/watch/rooms/join"@.len() != "/games/rooms/leave"@.len());
    assert("/watch/rooms/leave"@[1] != "/games/rooms/leave"@[1]);
    assert("/watch/chat/messages"@.len() != "/games/rooms/leave"@.len());
    assert("/watch/sync"@.len() != "/games/rooms/leave"@.len());
    assert("/games/rooms/update"@.len() != "/games/rooms/leave"@.len());
    assert("/games/rooms/end"@.len() != "/games/rooms/leave"@.len());
    assert("/games/rooms/join"@.len() != "/games/rooms/leave"@.len());
    assert("/downloads/completed"@.len() != "/games/gomoku/move"@.len());
    assert("/chat/messages"@.len() != "/games/gomoku/move"@.len());
    assert("/chat/rooms/invite"@[1] != "/games/gomoku/move"@[1]);
    assert("/chat/rooms/delete"@[1] != "/games/gomoku/move"@[1]);
    assert("/watch/rooms/update"@.len() != "/games/gomoku/move"@.len());
    assert("/watch/rooms/end"@.len() != "/games/gomoku/move"@.len());
    assert("/watch/rooms/join"@.len() != "/games/gomoku/move"@.len());
    assert("/watch/rooms/leave"@[1] != "/games/gomoku/move"@[1]);
    assert("/watch/chat/messages"@.len() != "/games/gomoku/move"@.len());
    assert("/watch/sync"@.len() != "/games/gomoku/move"@.len());
    assert("/games/rooms/update"@.len() != "/games/gomoku/move"@.len());
    assert("/games/rooms/end"@.len() != "/games/gomoku/move"@.len());
    assert("/games/rooms/join"@.len() != "/games/gomoku/move"@.len());
    assert("/games/rooms/leave"@[7] != "/games/gomoku/move"@[7]);
    assert("/downloads/completed"@.len() != "/games/gomoku/restart/request"@.len());
    assert("/chat/messages"@.len() != "/games/gomoku/restart/request"@.len());
    assert("/chat/rooms/invite"@.len() != "/games/gomoku/restart/request"@.len());
    assert("/chat/rooms/delete"@.len() != "/games/gomoku/restart/request"@.len());
    assert("/watch/rooms/update"@.len() != "/games/gomoku/restart/request"@.len());
    assert("/watch/rooms/end"@.len() != "/games/gomoku/restart/request"@.len());
    assert("/watch/rooms/join"@.len() != "/games/gomoku/restart/request"@.len());
    assert("/watch/rooms/leave"@.len() != "/games/gomoku/restart/request"@.len());
    assert("/watch/chat/messages"@.len() != "/games/gomoku/restart/request"@.len());
    assert("/watch/sync"@.len() != "/games/gomoku/restart/request"@.len());
    assert("/games/rooms/update"@.len() != "/games/gomoku/restart/request"@.len());
    assert("/games/rooms/end"@.len() != "/games/gomoku/restart/request"@.len());
    assert("/games/rooms/join"@.len() != "/games/gomoku/restart/request"@.len());
    assert("/games/rooms/leave"@.len() != "/games/gomoku/restart/request"@.len());
    assert("/games/gomoku/move"@.len() != "/games/gomoku/restart/request"@.len());
    assert("/downloads/completed"@.len() != "/games/gomoku/restart/accept"@.len());
    assert("/chat/messages"@.len() != "/games/gomoku/restart/accept"@.len());
    assert("/chat/rooms/invite"@.len() != "/games/gomoku/restart/accept"@.len());
    assert("/chat/rooms/delete"@.len() != "/games/gomoku/restart/accept"@.len());
    assert("/watch/rooms/update"@.len() != "/games/gomoku/restart/accept"@.len());
    assert("/watch/rooms/end"@.len() != "/games/gomoku/restart/accept"@.len());
    assert("/watch/rooms/join"@.len() != "/games/gomoku/restart/accept"@.len());
    assert("/watch/rooms/leave"@.len() != "/games/gomoku/restart/accept"@.len());
    assert("/watch/chat/messages"@.len() != "/games/gomoku/restart/accept"@.len());
    assert("/watch/sync"@.len() != "/games/gomoku/restart/accept"@.len());
    assert("/games/rooms/update"@.len() != "/games/gomoku/restart/accept"@.len());
    assert("/games/rooms/end"@.len() != "/games/gomoku/restart/accept"@.len());
    assert("/games/rooms/join"@.len() != "/games/gomoku/restart/accept"@.len());
    assert("/games/rooms/leave"@.len() != "/games/gomoku/restart/accept"@.len());
    assert("/games/gomoku/move"@.len() != "/games/gomoku/restart/accept"@.len());
    assert("/games/gomoku/restart/request"@.len() != "/games/gomoku/restart/accept"@.len());
    assert("/downloads/completed"@.len() != "/games/gomoku/surrender"@.len());
    assert("/chat/messages"@.len() != "/games/gomoku/surrender"@.len());
    assert("/chat/rooms/invite"@.len() != "/games/gomoku/surrender"@.len());
    assert("/chat/rooms/delete"@.len() != "/games/gomoku/surrender"@.len());
    assert("/watch/rooms/update"@.len() != "/games/gomoku/surrender"@.len());
    assert("/watch/rooms/end"@.len() != "/games/gomoku/surrender"@.len());
    assert("/watch/rooms/join"@.len() != "/games/gomoku/surrender"@.len());
    assert("/watch/rooms/leave"@.len() != "/games/gomoku/surrender"@.len());
    assert("/watch/chat/messages"@.len() != "/games/gomoku/surrender"@.len());
    assert("/watch/sync"@.len() != "/games/gomoku/surrender"@.len());
    assert("/games/rooms/update"@.len() != "/games/gomoku/surrender"@.len());
    assert("/games/rooms/end"@.len() != "/games/gomoku/surrender"@.len());
    assert("/games/rooms/join"@.len() != "/games/gomoku/surrender"@.len());
    assert("/games/rooms/leave"@.len() != "/games/gomoku/surrender"@.len());
    assert("/games/gomoku/move"@.len() != "/games/gomoku/surrender"@.len());
    assert("/games/gomoku/restart/request"@.len() != "/games/gomoku/surrender"@.len());
    assert("/games/gomoku/restart/accept"@.len() != "/games/gomoku/surrender"@.len());
}

/// Each POST route is reached by the one path named after it and by no
/// other path.
pub proof fn law_post_routes_are_named_after_their_paths(p: Seq<char>)
    ensures
        route_of("POST"@, p) == LanRoute::DownloadsCompleted <==> p == "/downloads/completed"@,
        route_of("POST"@, p) == LanRoute::ChatMessages <==> p == "/chat/messages"@,
        route_of("POST"@, p) == LanRoute::ChatRoomInvite <==> p == "/chat/rooms/invite"@,
        route_of("POST"@, p) == LanRoute::ChatRoomDelete <==> p == "/chat/rooms/delete"@,
        route_of("POST"@, p) == LanRoute::WatchRoomUpdate <==> p == "/watch/rooms/update"@,
        route_of("POST"@, p) == LanRoute::WatchRoomEnd <==> p == "/watch/rooms/end"@,
        route_of("POST"@, p) == LanRoute::WatchRoomJoin <==> p == "/watch/rooms/join"@,
        route_of("POST"@, p) == LanRoute::WatchRoomLeave <==> p == "/watch/rooms/leave"@,
        route_of("POST"@, p) == LanRoute::WatchChatMessages <==> p == "/watch/chat/messages"@,
        route_of("POST"@, p) == LanRoute::WatchSync <==> p == "/watch/sync"@,
        route_of("POST"@, p) == LanRoute::GameRoomUpdate <==> p == "/games/rooms/update"@,
        route_of("POST"@, p) == LanRoute::GameRoomEnd <==> p == "/games/rooms/end"@,
        route_of("POST"@, p) == LanRoute::GameRoomJoin <==> p == "/games/rooms/join"@,
        route_of("POST"@, p) == LanRoute::GameRoomLeave <==> p == "/games/rooms/leave"@,
        route_of("POST"@, p) == LanRoute::GomokuMove <==> p == "/games/gomoku/move"@,
        route_of("POST"@, p) == LanRoute::GomokuRestartRequest <==> p == "/games/gomoku/restart/request"@,
        route_of("POST"@, p) == LanRoute::GomokuRestartAccept <==> p == "/games/gomoku/restart/accept"@,
        route_of("POST"@, p) == LanRoute::GomokuSurrender <==> p == "/games/gomoku/surrender"@,
{
    lemma_get_is_not_post();
    lemma_post_paths_differ();
}

/// A GET and a POST never reach the same route, but for none at all.
pub proof fn law_get_and_post_route_apart(p1: Seq<char>, p2: Seq<char>)
    requires
        route_of("GET"@, p1) != LanRoute::NotFound,
    ensures
        route_of("GET"@, p1) != route_of("POST"@, p2),
{
    lemma_get_is_not_post();
}

// ---------------------------------------------------------------------------
// Listing a room's messages.
// ---------------------------------------------------------------------------

/// The messages listed for a room are that room's: each has the room's id and
/// was stored; no more than 100 are listed; and every stored message of the
/// room is listed unless the list is already full.
pub proof fn law_listed_messages_belong_to_the_room(
    messages: Seq<MessageModel>,
    room_id: Seq<char>,
    listed: Seq<MessageModel>,
)
    requires
        listed == latest(room_messages(messages, room_id)),
    ensures
        listed.len() <= LISTED_MESSAGES,
        forall|k: int| 0 <= k < listed.len() ==> (#[trigger] listed[k]).room_id == room_id && messages.contains(listed[k]),
        forall|i: int|
            0 <= i < messages.len() && (#[trigger] messages[i]).room_id == room_id ==> listed.contains(messages[i])
                || listed.len() == LISTED_MESSAGES,
        messages.len() > 0 && messages.last().room_id == room_id ==> listed.len() > 0 && listed.last()
            == messages.last(),
{
    broadcast use vstd::seq_lib::group_filter_ensures, Seq::lemma_filter_contains_rev;

    let f = room_messages(messages, room_id);
    let off: int = if f.len() > LISTED_MESSAGES { f.len() - LISTED_MESSAGES } else { 0 };
    assert forall|k: int| 0 <= k < listed.len() implies (#[trigger] listed[k]).room_id == room_id && messages.contains(listed[k]) by {
        assert(listed[k] == f[k + off]);
        assert(f.contains(f[k + off]));
    }
    assert forall|i: int|
        0 <= i < messages.len() && (#[trigger] messages[i]).room_id == room_id implies listed.contains(messages[i])
            || listed.len() == LISTED_MESSAGES by {
        assert(messages.contains(messages[i]));
        assert(f.contains(messages[i]));
    }
    if messages.len() > 0 && messages.last().room_id == room_id {
        reveal_with_fuel(Seq::<_>::filter, 1);
        assert(f.len() > 0 && f.last() == messages.last());
        assert(listed.last() == f[f.len() - 1]);
    }
}

// ---------------------------------------------------------------------------
// The session key.
// ---------------------------------------------------------------------------

/// An envelope is sealed under the SHA-256 digest of the X25519 shared secret
/// followed by the UTF-8 bytes of "quicklan-chat-v1", with the nonce and the
/// plaintext's UTF-8 bytes as given; and the holder of a secret opens an
/// envelope with the key drawn the same way from its own secret and the
/// sender's key.
pub proof fn law_sessions_use_the_quicklan_key(
    secret: Seq<u8>,
    public: Seq<u8>,
    peer: Seq<char>,
    plaintext: Seq<char>,
    nonce: Seq<u8>,
    receiver: Seq<u8>,
    e: EnvelopeModel,
)
    ensures
        sealed(secret, public, peer, plaintext, nonce) matches Ok(env) ==> public_key_of_text(peer) is Ok
            && env.ciphertext == crate::crypto::base64_of(
            crate::crypto::aes_gcm_seal_of(
                crate::digest::sha256_of(
                    crate::crypto::x25519_shared_of(secret, public_key_of_text(peer)->Ok_0)
                        + vstd::utf8::encode_utf8("quicklan-chat-v1"@),
                ),
                nonce,
                vstd::utf8::encode_utf8(plaintext),
            ),
        ),
        ({
            let sender = public_key_of_text(e.sender_public_key);
            let n = crate::crypto::base64_decode_of(trim(e.nonce));
            let ct = crate::crypto::base64_decode_of(trim(e.ciphertext));
            let key = crate::digest::sha256_of(
                crate::crypto::x25519_shared_of(receiver, sender->Ok_0) + vstd::utf8::encode_utf8("quicklan-chat-v1"@),
            );
            sender is Ok && n is Ok && n->Ok_0.len() == 12 && ct is Ok ==> match crate::crypto::aes_gcm_open_of(
                key,
                n->Ok_0,
                ct->Ok_0,
            ) {
                None => opened(receiver, e) == Err::<Seq<char>, Seq<char>>("解密聊天消息失败"@),
                Some(p) => vstd::utf8::valid_utf8(p) ==> opened(receiver, e) == Ok::<Seq<char>, Seq<char>>(
                    vstd::utf8::decode_utf8(p),
                ),
            }
        }),
{
}

} // verus!
