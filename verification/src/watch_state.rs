use crate::commands::WatchActivation;
use crate::game::{contains_id, ids_view};
use crate::system::{new_id, now_secs};
use crate::text::{lemma_filter_insert, opt_str_eq, opt_view, str_eq, trim, trimmed};
use crate::watch::{
    hash_text, hashed, hash_required_password, normalize_title, system_message_at,
    system_message_of, title_of, validate_watch_url, watch_content_webview_label, watch_url_of,
    CreateWatchRoomInput, WatchJoinResult, WatchMessageModel, WatchRoom, WatchRoomChatEnvelope,
    WatchRoomChatMessage, WatchRoomCreateMessage, WatchRoomEndMessage, WatchRoomJoinRequest,
    WatchRoomLeaveMessage, WatchRoomModel, WatchRoomSession, WatchRoomStateMessage,
    WatchRoomStatus, WatchRoomUrlUpdateMessage, WATCH_MESSAGE_LIMIT,
};
use vstd::prelude::*;
use vstd::string::StringExecFns;

verus! {

// ---------------------------------------------------------------------------
// The model of a device's watch rooms.
// ---------------------------------------------------------------------------

/// A room as a device keeps it: the room, its members and its chat.
pub struct EntryModel {
    pub room: WatchRoomModel,
    pub members: Seq<Seq<char>>,
    pub messages: Seq<WatchMessageModel>,
}

/// A room this device has open.
pub struct SessionModel {
    pub room_id: Seq<char>,
    pub window_label: Seq<char>,
    pub content_webview_label: Seq<char>,
    pub is_host: bool,
}

/// The rooms a device knows of and the rooms it has open.
pub struct WatchModel {
    pub rooms: Seq<EntryModel>,
    pub sessions: Seq<SessionModel>,
}

/// `i` is the first position of `id` in `ids`.
pub open spec fn is_first(ids: Seq<Seq<char>>, id: Seq<char>, i: int) -> bool {
    &&& 0 <= i < ids.len()
    &&& ids[i] == id
    &&& forall|j: int| 0 <= j < i ==> #[trigger] ids[j] != id
}

/// The first position of `id` in `ids`, or -1.
pub open spec fn first_index(ids: Seq<Seq<char>>, id: Seq<char>) -> int {
    if exists|i: int| is_first(ids, id, i) {
        choose|i: int| is_first(ids, id, i)
    } else {
        -1
    }
}

pub proof fn lemma_first_index(ids: Seq<Seq<char>>, id: Seq<char>, i: int)
    requires
        is_first(ids, id, i),
    ensures
        first_index(ids, id) == i,
{
    let k = choose|k: int| is_first(ids, id, k);
    if k < i {
        assert(ids[k] != id);
    } else if k > i {
        assert(ids[i] != id);
    }
}

pub proof fn lemma_first_index_range(ids: Seq<Seq<char>>, id: Seq<char>)
    ensures
        first_index(ids, id) >= 0 ==> is_first(ids, id, first_index(ids, id)),
        -1 <= first_index(ids, id) < ids.len(),
        first_index(ids, id) == -1 ==> !ids.contains(id),
{
    if first_index(ids, id) == -1 && ids.contains(id) {
        let k = choose|k: int| 0 <= k < ids.len() && ids[k] == id;
        assert(exists|i: int| is_first(ids, id, i)) by {
            lemma_some_first(ids, id, k);
        }
    }
}

proof fn lemma_some_first(ids: Seq<Seq<char>>, id: Seq<char>, k: int)
    requires
        0 <= k < ids.len(),
        ids[k] == id,
    ensures
        exists|i: int| is_first(ids, id, i),
    decreases k,
{
    if forall|j: int| 0 <= j < k ==> #[trigger] ids[j] != id {
        assert(is_first(ids, id, k));
    } else {
        let j = choose|j: int| 0 <= j < k && #[trigger] ids[j] == id;
        lemma_some_first(ids, id, j);
    }
}

/// The ids of a device's rooms.
pub open spec fn room_ids(rooms: Seq<EntryModel>) -> Seq<Seq<char>> {
    rooms.map_values(|e: EntryModel| e.room.room_id)
}

/// The ids of the rooms a device has open.
pub open spec fn session_ids(sessions: Seq<SessionModel>) -> Seq<Seq<char>> {
    sessions.map_values(|s: SessionModel| s.room_id)
}

/// The room `id`, if the device knows of it.
pub open spec fn entry_of(rooms: Seq<EntryModel>, id: Seq<char>) -> Option<EntryModel> {
    let i = first_index(room_ids(rooms), id);
    if i >= 0 {
        Some(rooms[i])
    } else {
        None
    }
}

/// The open room `id`, if the device has it open.
pub open spec fn session_of(sessions: Seq<SessionModel>, id: Seq<char>) -> Option<SessionModel> {
    let i = first_index(session_ids(sessions), id);
    if i >= 0 {
        Some(sessions[i])
    } else {
        None
    }
}

/// `rooms` with `e` in place of the room that has its id, or with `e` added.
pub open spec fn upsert_entry(rooms: Seq<EntryModel>, e: EntryModel) -> Seq<EntryModel> {
    let i = first_index(room_ids(rooms), e.room.room_id);
    if i >= 0 {
        rooms.update(i, e)
    } else {
        rooms.push(e)
    }
}

/// `sessions` with `s` in place of the session for its room, or with `s` added.
pub open spec fn upsert_session(sessions: Seq<SessionModel>, s: SessionModel) -> Seq<SessionModel> {
    let i = first_index(session_ids(sessions), s.room_id);
    if i >= 0 {
        sessions.update(i, s)
    } else {
        sessions.push(s)
    }
}

/// `rooms` without the room `id`.
pub open spec fn without_entry(rooms: Seq<EntryModel>, id: Seq<char>) -> Seq<EntryModel> {
    rooms.filter(|e: EntryModel| e.room.room_id != id)
}

/// `sessions` without the session for room `id`.
pub open spec fn without_session(sessions: Seq<SessionModel>, id: Seq<char>) -> Seq<SessionModel> {
    sessions.filter(|s: SessionModel| s.room_id != id)
}

/// A member set with `id` added.
pub open spec fn with_member(members: Seq<Seq<char>>, id: Seq<char>) -> Seq<Seq<char>> {
    if members.contains(id) {
        members
    } else {
        members.push(id)
    }
}

/// A member set without `id`.
pub open spec fn without_member(members: Seq<Seq<char>>, id: Seq<char>) -> Seq<Seq<char>> {
    members.filter(|m: Seq<char>| m != id)
}

/// The latest 200 messages when there are more.
pub open spec fn capped(messages: Seq<WatchMessageModel>) -> Seq<WatchMessageModel> {
    if messages.len() > WATCH_MESSAGE_LIMIT {
        messages.skip(messages.len() - WATCH_MESSAGE_LIMIT)
    } else {
        messages
    }
}

/// Whether a message with the id of `m` is among `messages`.
pub open spec fn has_message(messages: Seq<WatchMessageModel>, id: Seq<char>) -> bool {
    exists|i: int| 0 <= i < messages.len() && #[trigger] messages[i].message_id == id
}

/// A room's chat after `m` arrives: unchanged when a message with its id is
/// there, else with `m` added and the oldest dropped beyond 200.
pub open spec fn appended(messages: Seq<WatchMessageModel>, m: WatchMessageModel) -> Seq<
    WatchMessageModel,
> {
    if has_message(messages, m.message_id) {
        messages
    } else {
        capped(messages.push(m))
    }
}

/// `user` belongs to room `e`: as its host or a member.
pub open spec fn is_member_of(e: EntryModel, user: Seq<char>) -> bool {
    e.room.host_user_id == user || e.members.contains(user)
}

/// `ids` with `id` added at the end keeps the first positions of other ids.
proof fn lemma_first_index_push(ids: Seq<Seq<char>>, id: Seq<char>, other: Seq<char>)
    ensures
        first_index(ids.push(id), other) == if first_index(ids, other) >= 0 {
            first_index(ids, other)
        } else if other == id {
            ids.len() as int
        } else {
            -1
        },
{
    let next = ids.push(id);
    lemma_first_index_range(ids, other);
    let i = first_index(ids, other);
    if i >= 0 {
        assert(is_first(next, other, i));
        lemma_first_index(next, other, i);
    } else if other == id {
        assert(is_first(next, other, ids.len() as int));
        lemma_first_index(next, other, ids.len() as int);
    } else {
        lemma_first_index_range(next, other);
        if first_index(next, other) >= 0 {
            let k = first_index(next, other);
            assert(ids[k] == other);
            assert(ids.contains(other));
        }
    }
}

/// What a room lookup gives after a room is stored: the stored room for its
/// id, and what it gave before for any other id.
pub proof fn lemma_upsert_entry_of(rooms: Seq<EntryModel>, e: EntryModel, id: Seq<char>)
    ensures
        entry_of(upsert_entry(rooms, e), id) == if id == e.room.room_id {
            Some(e)
        } else {
            entry_of(rooms, id)
        },
{
    let ids = room_ids(rooms);
    let i = first_index(ids, e.room.room_id);
    lemma_first_index_range(ids, e.room.room_id);
    lemma_first_index_range(ids, id);
    if i >= 0 {
        let next = rooms.update(i, e);
        assert(room_ids(next) =~= ids);
    } else {
        let next = rooms.push(e);
        assert(room_ids(next) =~= ids.push(e.room.room_id));
        lemma_first_index_push(ids, e.room.room_id, id);
    }
}

/// What a session lookup gives after a session is stored.
pub proof fn lemma_upsert_session_of(sessions: Seq<SessionModel>, s: SessionModel, id: Seq<char>)
    ensures
        session_of(upsert_session(sessions, s), id) == if id == s.room_id {
            Some(s)
        } else {
            session_of(sessions, id)
        },
{
    let ids = session_ids(sessions);
    let i = first_index(ids, s.room_id);
    lemma_first_index_range(ids, s.room_id);
    lemma_first_index_range(ids, id);
    if i >= 0 {
        let next = sessions.update(i, s);
        assert(session_ids(next) =~= ids);
    } else {
        let next = sessions.push(s);
        assert(session_ids(next) =~= ids.push(s.room_id));
        lemma_first_index_push(ids, s.room_id, id);
    }
}

/// A room that was removed is not found.
pub proof fn lemma_without_entry_of(rooms: Seq<EntryModel>, id: Seq<char>)
    ensures
        entry_of(without_entry(rooms, id), id) is None,
{
    let pred = |e: EntryModel| e.room.room_id != id;
    let kept = rooms.filter(pred);
    let ids = room_ids(kept);
    lemma_first_index_range(ids, id);
    if first_index(ids, id) >= 0 {
        let k = first_index(ids, id);
        rooms.lemma_filter_pred(pred, k);
    }
}

/// A session that was removed is not found.
pub proof fn lemma_without_session_of(sessions: Seq<SessionModel>, id: Seq<char>)
    ensures
        session_of(without_session(sessions, id), id) is None,
{
    let pred = |s: SessionModel| s.room_id != id;
    let kept = sessions.filter(pred);
    let ids = session_ids(kept);
    lemma_first_index_range(ids, id);
    if first_index(ids, id) >= 0 {
        let k = first_index(ids, id);
        sessions.lemma_filter_pred(pred, k);
    }
}

// ---------------------------------------------------------------------------
// The state.
// ---------------------------------------------------------------------------

/// A room as this device keeps it.
#[derive(Debug)]
pub struct WatchRoomEntry {
    pub room: WatchRoom,
    pub members: Vec<String>,
    pub messages: Vec<WatchRoomChatMessage>,
}

/// The texts of a list of strings.
pub open spec fn texts(v: Seq<String>) -> Seq<Seq<char>> {
    v.map_values(|s: String| s@)
}

/// The models of a list of chat messages.
pub open spec fn messages_view(v: Seq<WatchRoomChatMessage>) -> Seq<WatchMessageModel> {
    v.map_values(|m: WatchRoomChatMessage| m@)
}

impl View for WatchRoomEntry {
    type V = EntryModel;

    open spec fn view(&self) -> EntryModel {
        EntryModel {
            room: self.room@,
            members: texts(self.members@),
            messages: messages_view(self.messages@),
        }
    }
}

fn clone_strings(v: &Vec<String>) -> (r: Vec<String>)
    ensures
        texts(r@) == texts(v@),
{
    let r = v.clone();
    assert forall|i: int| 0 <= i < v@.len() implies r@[i]@ == v@[i]@ by {
        assert(cloned(v@[i], r@[i]));
    }
    assert(texts(r@) =~= texts(v@));
    r
}

fn clone_messages(v: &Vec<WatchRoomChatMessage>) -> (r: Vec<WatchRoomChatMessage>)
    ensures
        messages_view(r@) == messages_view(v@),
{
    let mut out: Vec<WatchRoomChatMessage> = Vec::new();
    let mut i: usize = 0;
    while i < v.len()
        invariant
            i <= v@.len(),
            messages_view(out@) == messages_view(v@).take(i as int),
        decreases v@.len() - i,
    {
        let ghost before = messages_view(out@);
        out.push(v[i].clone());
        assert(messages_view(out@) =~= before.push(v@[i as int]@));
        assert(messages_view(v@).take(i + 1) =~= messages_view(v@).take(i as int).push(
            v@[i as int]@,
        ));
        i = i + 1;
    }
    assert(messages_view(v@).take(i as int) =~= messages_view(v@));
    out
}

impl Clone for WatchRoomEntry {
    fn clone(&self) -> (r: Self)
        ensures
            r@ == self@,
    {
        WatchRoomEntry {
            room: self.room.clone(),
            members: clone_strings(&self.members),
            messages: clone_messages(&self.messages),
        }
    }
}

/// A room this device has open, and where it shows it.
#[derive(Debug)]
pub struct WatchSession {
    pub room_id: String,
    pub window_label: String,
    pub content_webview_label: String,
    pub is_host: bool,
}

impl View for WatchSession {
    type V = SessionModel;

    open spec fn view(&self) -> SessionModel {
        SessionModel {
            room_id: self.room_id@,
            window_label: self.window_label@,
            content_webview_label: self.content_webview_label@,
            is_host: self.is_host,
        }
    }
}

impl Clone for WatchSession {
    fn clone(&self) -> (r: Self)
        ensures
            r@ == self@,
    {
        WatchSession {
            room_id: self.room_id.clone(),
            window_label: self.window_label.clone(),
            content_webview_label: self.content_webview_label.clone(),
            is_host: self.is_host,
        }
    }
}

/// The models of a list of entries.
pub open spec fn entries_view(v: Seq<WatchRoomEntry>) -> Seq<EntryModel> {
    v.map_values(|e: WatchRoomEntry| e@)
}

/// The models of a list of sessions.
pub open spec fn sessions_view(v: Seq<WatchSession>) -> Seq<SessionModel> {
    v.map_values(|s: WatchSession| s@)
}

/// The models of a list of rooms.
pub open spec fn watch_rooms_view(v: Seq<WatchRoom>) -> Seq<WatchRoomModel> {
    v.map_values(|r: WatchRoom| r@)
}

/// The watch rooms this device knows of and has open.
pub struct WatchRooms {
    rooms: Vec<WatchRoomEntry>,
    sessions: Vec<WatchSession>,
    local_user_id: String,
}

impl View for WatchRooms {
    type V = WatchModel;

    closed spec fn view(&self) -> WatchModel {
        WatchModel { rooms: entries_view(self.rooms@), sessions: sessions_view(self.sessions@) }
    }
}

fn text(s: &str) -> (r: String)
    ensures
        r@ == s@,
{
    s.to_string()
}

/// The position of the room `id` among the entries.
fn find_entry(rooms: &Vec<WatchRoomEntry>, id: &str) -> (r: Option<usize>)
    ensures
        match r {
            Some(i) => first_index(room_ids(entries_view(rooms@)), id@) == i && i < rooms@.len(),
            None => first_index(room_ids(entries_view(rooms@)), id@) == -1,
        },
{
    let ghost ids = room_ids(entries_view(rooms@));
    let mut i: usize = 0;
    while i < rooms.len()
        invariant
            i <= rooms@.len(),
            ids == room_ids(entries_view(rooms@)),
            forall|j: int| 0 <= j < i ==> #[trigger] ids[j] != id@,
        decreases rooms.len() - i,
    {
        assert(ids[i as int] == rooms@[i as int].room.room_id@);
        if str_eq(rooms[i].room.room_id.as_str(), id) {
            proof {
                lemma_first_index(ids, id@, i as int);
            }
            return Some(i);
        }
        i = i + 1;
    }
    assert(!exists|k: int| is_first(ids, id@, k));
    None
}

/// The position of the session for room `id`.
fn find_session(sessions: &Vec<WatchSession>, id: &str) -> (r: Option<usize>)
    ensures
        match r {
            Some(i) => first_index(session_ids(sessions_view(sessions@)), id@) == i && i
                < sessions@.len(),
            None => first_index(session_ids(sessions_view(sessions@)), id@) == -1,
        },
{
    let ghost ids = session_ids(sessions_view(sessions@));
    let mut i: usize = 0;
    while i < sessions.len()
        invariant
            i <= sessions@.len(),
            ids == session_ids(sessions_view(sessions@)),
            forall|j: int| 0 <= j < i ==> #[trigger] ids[j] != id@,
        decreases sessions.len() - i,
    {
        assert(ids[i as int] == sessions@[i as int].room_id@);
        if str_eq(sessions[i].room_id.as_str(), id) {
            proof {
                lemma_first_index(ids, id@, i as int);
            }
            return Some(i);
        }
        i = i + 1;
    }
    assert(!exists|k: int| is_first(ids, id@, k));
    None
}

fn upsert_entry_in(rooms: &mut Vec<WatchRoomEntry>, e: WatchRoomEntry)
    ensures
        entries_view(final(rooms)@) == upsert_entry(entries_view(old(rooms)@), e@),
{
    let ghost model = entries_view(rooms@);
    let ghost m = e@;
    match find_entry(rooms, e.room.room_id.as_str()) {
        Some(i) => {
            rooms.set(i, e);
            assert(entries_view(rooms@) =~= model.update(i as int, m));
        },
        None => {
            rooms.push(e);
            assert(entries_view(rooms@) =~= model.push(m));
        },
    }
}

fn upsert_session_in(sessions: &mut Vec<WatchSession>, s: WatchSession)
    ensures
        sessions_view(final(sessions)@) == upsert_session(sessions_view(old(sessions)@), s@),
{
    let ghost model = sessions_view(sessions@);
    let ghost m = s@;
    match find_session(sessions, s.room_id.as_str()) {
        Some(i) => {
            sessions.set(i, s);
            assert(sessions_view(sessions@) =~= model.update(i as int, m));
        },
        None => {
            sessions.push(s);
            assert(sessions_view(sessions@) =~= model.push(m));
        },
    }
}

fn remove_entry_in(rooms: &mut Vec<WatchRoomEntry>, id: &str)
    ensures
        entries_view(final(rooms)@) == without_entry(entries_view(old(rooms)@), id@),
{
    let ghost model = entries_view(rooms@);
    let ghost pred = |e: EntryModel| e.room.room_id != id@;
    let mut kept: Vec<WatchRoomEntry> = Vec::new();
    let mut i: usize = 0;
    while i < rooms.len()
        invariant
            i <= rooms@.len(),
            model == entries_view(rooms@),
            pred == (|e: EntryModel| e.room.room_id != id@),
            entries_view(kept@) == model.take(i as int).filter(pred),
        decreases rooms.len() - i,
    {
        assert(model.take(i + 1).drop_last() =~= model.take(i as int));
        let e = &rooms[i];
        assert(model[i as int] == e@);
        assert(model.take(i + 1).last() == e@);
        let keep = !str_eq(e.room.room_id.as_str(), id);
        reveal_with_fuel(Seq::<_>::filter, 1);
        assert(pred(e@) == keep);
        if keep {
            let ghost before = entries_view(kept@);
            kept.push(e.clone());
            assert(entries_view(kept@) =~= before.push(e@));
        }
        i = i + 1;
    }
    assert(model.take(i as int) =~= model);
    *rooms = kept;
}

fn remove_session_in(sessions: &mut Vec<WatchSession>, id: &str)
    ensures
        sessions_view(final(sessions)@) == without_session(sessions_view(old(sessions)@), id@),
{
    let ghost model = sessions_view(sessions@);
    let ghost pred = |s: SessionModel| s.room_id != id@;
    let mut kept: Vec<WatchSession> = Vec::new();
    let mut i: usize = 0;
    while i < sessions.len()
        invariant
            i <= sessions@.len(),
            model == sessions_view(sessions@),
            pred == (|s: SessionModel| s.room_id != id@),
            sessions_view(kept@) == model.take(i as int).filter(pred),
        decreases sessions.len() - i,
    {
        assert(model.take(i + 1).drop_last() =~= model.take(i as int));
        let s = &sessions[i];
        assert(model[i as int] == s@);
        assert(model.take(i + 1).last() == s@);
        let keep = !str_eq(s.room_id.as_str(), id);
        reveal_with_fuel(Seq::<_>::filter, 1);
        assert(pred(s@) == keep);
        if keep {
            let ghost before = sessions_view(kept@);
            kept.push(s.clone());
            assert(sessions_view(kept@) =~= before.push(s@));
        }
        i = i + 1;
    }
    assert(model.take(i as int) =~= model);
    *sessions = kept;
}

/// Whether `id` is among `ids`.
fn contains_text(ids: &Vec<String>, id: &str) -> (r: bool)
    ensures
        r == texts(ids@).contains(id@),
{
    let mut i: usize = 0;
    while i < ids.len()
        invariant
            i <= ids@.len(),
            forall|k: int| 0 <= k < i ==> texts(ids@)[k] != id@,
        decreases ids.len() - i,
    {
        assert(texts(ids@)[i as int] == ids@[i as int]@);
        if str_eq(ids[i].as_str(), id) {
            return true;
        }
        i = i + 1;
    }
    false
}

fn add_member(members: &mut Vec<String>, id: &str)
    ensures
        texts(final(members)@) == with_member(texts(old(members)@), id@),
{
    if !contains_text(members, id) {
        let ghost before = texts(members@);
        members.push(text(id));
        assert(texts(members@) =~= before.push(id@));
    }
}

fn remove_member(members: &mut Vec<String>, id: &str)
    ensures
        texts(final(members)@) == without_member(texts(old(members)@), id@),
{
    let ghost model = texts(members@);
    let ghost pred = |m: Seq<char>| m != id@;
    let mut kept: Vec<String> = Vec::new();
    let mut i: usize = 0;
    while i < members.len()
        invariant
            i <= members@.len(),
            model == texts(members@),
            pred == (|m: Seq<char>| m != id@),
            texts(kept@) == model.take(i as int).filter(pred),
        decreases members.len() - i,
    {
        assert(model.take(i + 1).drop_last() =~= model.take(i as int));
        assert(model[i as int] == members@[i as int]@);
        assert(model.take(i + 1).last() == members@[i as int]@);
        let keep = !str_eq(members[i].as_str(), id);
        reveal_with_fuel(Seq::<_>::filter, 1);
        assert(pred(members@[i as int]@) == keep);
        if keep {
            let ghost before = texts(kept@);
            kept.push(members[i].clone());
            assert(texts(kept@) =~= before.push(model[i as int]));
        }
        i = i + 1;
    }
    assert(model.take(i as int) =~= model);
    *members = kept;
}

/// Adds a message to a room's chat unless one with its id is there, keeping
/// the latest 200.
fn append_to(messages: &mut Vec<WatchRoomChatMessage>, m: WatchRoomChatMessage)
    ensures
        messages_view(final(messages)@) == appended(messages_view(old(messages)@), m@),
{
    let ghost msgs = messages_view(messages@);
    let mut i: usize = 0;
    while i < messages.len()
        invariant
            i <= messages@.len(),
            msgs == messages_view(messages@),
            forall|k: int| 0 <= k < i ==> #[trigger] msgs[k].message_id != m@.message_id,
        decreases messages.len() - i,
    {
        assert(msgs[i as int] == messages@[i as int]@);
        if str_eq(messages[i].message_id.as_str(), m.message_id.as_str()) {
            assert(msgs[i as int].message_id == m@.message_id);
            return;
        }
        i = i + 1;
    }
    let ghost mm = m@;
    messages.push(m);
    assert(messages_view(messages@) =~= msgs.push(mm));
    if messages.len() > WATCH_MESSAGE_LIMIT {
        let drop_count = messages.len() - WATCH_MESSAGE_LIMIT;
        let ghost full = messages_view(messages@);
        let tail = messages.split_off(drop_count);
        *messages = tail;
        assert(messages_view(messages@) =~= full.skip(drop_count as int));
    }
}

// ---------------------------------------------------------------------------
// What the operations do, on the model.
// ---------------------------------------------------------------------------

/// The session recorded when room `id` is opened on this device.
pub open spec fn session_for(id: Seq<char>, is_host: bool) -> SessionModel {
    SessionModel {
        room_id: id,
        window_label: "main"@,
        content_webview_label: "watch-content-"@ + id,
        is_host,
    }
}

/// Why room `id` cannot be opened, if it cannot: it is unknown or over.
pub open spec fn open_error(state: WatchModel, id: Seq<char>) -> Option<Seq<char>> {
    match entry_of(state.rooms, id) {
        None => Some("观影房间不存在"@),
        Some(e) => if e.room.status == WatchRoomStatus::Ended {
            Some("观影房间已结束"@)
        } else {
            None
        },
    }
}

/// The state once room `id` is open on this device.
pub open spec fn with_session(state: WatchModel, id: Seq<char>, is_host: bool) -> WatchModel {
    WatchModel { rooms: state.rooms, sessions: upsert_session(state.sessions, session_for(id, is_host)) }
}

/// The state with the entry of a room stored.
pub open spec fn with_room_entry(state: WatchModel, e: EntryModel) -> WatchModel {
    WatchModel { rooms: upsert_entry(state.rooms, e), sessions: state.sessions }
}

/// The trimmed text of an optional password.
pub open spec fn password_text(p: Option<Seq<char>>) -> Seq<char> {
    trim(p.unwrap_or(Seq::empty()))
}

/// The note posted when a room is created.
pub open spec fn created_note() -> Seq<char> {
    "房间已创建，房主可以在房间内随时设置视频链接。"@
}

/// The note posted when the host sets the video URL.
pub open spec fn url_note() -> Seq<char> {
    "房主更新了视频链接，房间将自动切换到新页面。"@
}

/// The note posted when someone joins.
pub open spec fn joined_note(nickname: Seq<char>) -> Seq<char> {
    nickname + " 加入了房间。"@
}

/// A new room hosted here, with its first member and its first note.
pub open spec fn created_entry(
    local: Seq<char>,
    nickname: Seq<char>,
    title: Seq<char>,
    is_private: bool,
    password: Option<Seq<char>>,
    room_id: Seq<char>,
    now: i64,
    message_id: Seq<char>,
) -> EntryModel {
    EntryModel {
        room: WatchRoomModel {
            room_id,
            host_user_id: local,
            host_name: nickname,
            title: title_of(title, nickname),
            url: None,
            has_video_url: false,
            is_private,
            password_hash: if is_private {
                Some(hashed(password_text(password)))
            } else {
                None
            },
            member_count: 1,
            status: WatchRoomStatus::Active,
            created_at: now,
            updated_at: now,
        },
        members: seq![local],
        messages: seq![system_message_of(room_id, "系统"@, created_note(), message_id, now)],
    }
}

/// A room with its video URL set at `now`.
pub open spec fn with_url(room: WatchRoomModel, url: Seq<char>, now: i64) -> WatchRoomModel {
    WatchRoomModel {
        room_id: room.room_id,
        host_user_id: room.host_user_id,
        host_name: room.host_name,
        title: room.title,
        url: Some(url),
        has_video_url: true,
        is_private: room.is_private,
        password_hash: room.password_hash,
        member_count: room.member_count,
        status: room.status,
        created_at: room.created_at,
        updated_at: now,
    }
}

/// A room with a new member count and time of change.
pub open spec fn with_count(room: WatchRoomModel, count: usize, now: i64) -> WatchRoomModel {
    WatchRoomModel {
        room_id: room.room_id,
        host_user_id: room.host_user_id,
        host_name: room.host_name,
        title: room.title,
        url: room.url,
        has_video_url: room.has_video_url,
        is_private: room.is_private,
        password_hash: room.password_hash,
        member_count: count,
        status: room.status,
        created_at: room.created_at,
        updated_at: now,
    }
}

/// A room ended at `now`.
pub open spec fn ended(room: WatchRoomModel, now: i64) -> WatchRoomModel {
    WatchRoomModel {
        room_id: room.room_id,
        host_user_id: room.host_user_id,
        host_name: room.host_name,
        title: room.title,
        url: room.url,
        has_video_url: room.has_video_url,
        is_private: room.is_private,
        password_hash: room.password_hash,
        member_count: room.member_count,
        status: WatchRoomStatus::Ended,
        created_at: room.created_at,
        updated_at: now,
    }
}

/// Why the host's change to room `id` is refused, if it is: the room is
/// unknown, not hosted here (with the error `not_host`), or over.
pub open spec fn host_change_error(
    state: WatchModel,
    local: Seq<char>,
    id: Seq<char>,
    not_host: Seq<char>,
) -> Option<Seq<char>> {
    match entry_of(state.rooms, id) {
        None => Some("观影房间不存在"@),
        Some(e) => if e.room.host_user_id != local {
            Some(not_host)
        } else if e.room.status == WatchRoomStatus::Ended {
            Some("观影房间已结束"@)
        } else {
            None
        },
    }
}

/// The entry of room `id` once the host sets its URL and the note is posted.
pub open spec fn url_set_entry(e: EntryModel, url: Seq<char>, now: i64, message_id: Seq<char>) -> EntryModel {
    EntryModel {
        room: with_url(e.room, url, now),
        members: e.members,
        messages: appended(
            e.messages,
            system_message_of(e.room.room_id, "系统"@, url_note(), message_id, now),
        ),
    }
}

/// The rooms listed: those active, hosted here or by a device online, in any
/// order of the entries.
pub open spec fn listed_rooms(rooms: Seq<EntryModel>, local: Seq<char>, online: Seq<Seq<char>>) -> Seq<
    WatchRoomModel,
> {
    rooms.filter(
        |e: EntryModel|
            e.room.status == WatchRoomStatus::Active && (e.room.host_user_id == local
                || online.contains(e.room.host_user_id)),
    ).map_values(|e: EntryModel| e.room)
}

/// Newest rooms first.
pub open spec fn newest_first(rooms: Seq<WatchRoomModel>) -> bool {
    forall|i: int, j: int|
        0 <= i < j < rooms.len() ==> #[trigger] rooms[i].created_at >= #[trigger] rooms[j].created_at
}

/// The view of an optional session.
pub open spec fn session_view(s: Option<WatchRoomSession>) -> Option<(WatchRoomModel, bool)> {
    match s {
        Some(s) => Some((s.room@, s.is_host)),
        None => None,
    }
}

/// The session this device shows for room `id`: its room and whether this
/// device hosts it, when the room is open here and known.
pub open spec fn shown_session(state: WatchModel, id: Seq<char>) -> Option<(WatchRoomModel, bool)> {
    match (session_of(state.sessions, id), entry_of(state.rooms, id)) {
        (Some(s), Some(e)) => Some((e.room, s.is_host)),
        _ => None,
    }
}

/// A chat message this device's user sends.
pub open spec fn chat_message_of(
    room_id: Seq<char>,
    local: Seq<char>,
    nickname: Seq<char>,
    body: Seq<char>,
    message_id: Seq<char>,
    now: i64,
) -> WatchMessageModel {
    WatchMessageModel {
        message_id,
        room_id,
        sender_user_id: local,
        sender_name: nickname,
        body: trim(body),
        created_at: now,
        system: false,
    }
}

/// Why a message to room `id` is refused, if it is.
pub open spec fn send_error(state: WatchModel, local: Seq<char>, id: Seq<char>, body: Seq<char>) -> Option<
    Seq<char>,
> {
    if trim(body).len() == 0 {
        Some("消息不能为空"@)
    } else {
        match entry_of(state.rooms, id) {
            None => Some("观影房间不存在"@),
            Some(e) => if !is_member_of(e, local) {
                Some("你尚未加入该观影房间"@)
            } else if e.room.status == WatchRoomStatus::Ended {
                Some("观影房间已结束"@)
            } else {
                None
            },
        }
    }
}

/// The state with message `m` posted to the known room `id`.
pub open spec fn with_message(state: WatchModel, id: Seq<char>, m: WatchMessageModel) -> WatchModel {
    let e = entry_of(state.rooms, id)->0;
    with_room_entry(
        state,
        EntryModel { room: e.room, members: e.members, messages: appended(e.messages, m) },
    )
}

/// The state with `user` added to the members of room `id`, when it is known.
pub open spec fn with_member_of(state: WatchModel, id: Seq<char>, user: Seq<char>) -> WatchModel {
    match entry_of(state.rooms, id) {
        Some(e) => with_room_entry(
            state,
            EntryModel { room: e.room, members: with_member(e.members, user), messages: e.messages },
        ),
        None => state,
    }
}

/// The member count once one member leaves.
pub open spec fn one_less(count: usize) -> usize {
    if count > 0 {
        (count - 1) as usize
    } else {
        0
    }
}

/// The state once this device's user leaves room `id` as a guest at `now`.
pub open spec fn left_state(state: WatchModel, id: Seq<char>, local: Seq<char>, now: i64) -> WatchModel {
    let e = entry_of(state.rooms, id)->0;
    WatchModel {
        rooms: upsert_entry(
            state.rooms,
            EntryModel {
                room: with_count(e.room, one_less(e.room.member_count), now),
                members: without_member(e.members, local),
                messages: e.messages,
            },
        ),
        sessions: without_session(state.sessions, id),
    }
}

/// The state once room `id` is gone.
pub open spec fn closed_state(state: WatchModel, id: Seq<char>) -> WatchModel {
    WatchModel { rooms: without_entry(state.rooms, id), sessions: without_session(state.sessions, id) }
}

/// The chat of room `id` as known, or none.
pub open spec fn known_messages(rooms: Seq<EntryModel>, id: Seq<char>) -> Seq<WatchMessageModel> {
    match entry_of(rooms, id) {
        Some(e) => e.messages,
        None => Seq::empty(),
    }
}

/// The members of room `id` as known, or none.
pub open spec fn known_members(rooms: Seq<EntryModel>, id: Seq<char>) -> Seq<Seq<char>> {
    match entry_of(rooms, id) {
        Some(e) => e.members,
        None => Seq::empty(),
    }
}

/// A room as announced, with `has_video_url` set by whether it has a URL that
/// is not empty.
pub open spec fn announced(room: WatchRoomModel) -> WatchRoomModel {
    WatchRoomModel {
        room_id: room.room_id,
        host_user_id: room.host_user_id,
        host_name: room.host_name,
        title: room.title,
        url: room.url,
        has_video_url: room.url matches Some(u) && u.len() > 0,
        is_private: room.is_private,
        password_hash: room.password_hash,
        member_count: room.member_count,
        status: room.status,
        created_at: room.created_at,
        updated_at: room.updated_at,
    }
}

/// The members of a room whose state arrived: those known, and this device's
/// user too when it has the room open or was a member.
pub open spec fn state_members(state: WatchModel, id: Seq<char>, local: Seq<char>) -> Seq<Seq<char>> {
    let members = known_members(state.rooms, id);
    if session_of(state.sessions, id) is Some || members.contains(local) {
        with_member(members, local)
    } else {
        members
    }
}

/// Whether the host lets a join request in: a public room, or the right
/// password digest.
pub open spec fn admits(room: WatchRoomModel, password_hash: Option<Seq<char>>) -> bool {
    !room.is_private || room.password_hash == password_hash
}

// ---------------------------------------------------------------------------
// The operations.
// ---------------------------------------------------------------------------

/// What comes of the host setting a room's video URL: the room as changed,
/// the note posted, and the session shown, if the room is open here.
#[derive(Debug)]
pub struct UrlUpdated {
    pub room: WatchRoom,
    pub message: WatchRoomChatMessage,
    pub session: Option<WatchRoomSession>,
}

/// The rooms of `rooms` created at second `t`, in their order.
pub open spec fn created_at_group(rooms: Seq<WatchRoomModel>, t: i64) -> Seq<WatchRoomModel> {
    rooms.filter(|r: WatchRoomModel| r.created_at == t)
}

/// Inserting `x` before rooms all older than it adds `x` at the end of its
/// second's group and leaves the other groups alone.
proof fn lemma_group_insert(cur: Seq<WatchRoomModel>, p: int, x: WatchRoomModel, t: i64)
    requires
        0 <= p <= cur.len(),
        forall|k: int| p <= k < cur.len() ==> #[trigger] cur[k].created_at < x.created_at,
    ensures
        created_at_group(cur.insert(p, x), t) == if x.created_at == t {
            created_at_group(cur, t).push(x)
        } else {
            created_at_group(cur, t)
        },
{
    lemma_filter_insert(cur, p, x, |r: WatchRoomModel| r.created_at == t);
}

/// Sorts rooms newest first; rooms created at the same second keep their
/// order.
pub fn sort_newest_first(rooms: Vec<WatchRoom>) -> (r: Vec<WatchRoom>)
    ensures
        watch_rooms_view(r@).to_multiset() == watch_rooms_view(rooms@).to_multiset(),
        newest_first(watch_rooms_view(r@)),
        forall|t: i64|
            #[trigger] created_at_group(watch_rooms_view(r@), t) == created_at_group(
                watch_rooms_view(rooms@),
                t,
            ),
{
    let ghost input = watch_rooms_view(rooms@);
    let mut out: Vec<WatchRoom> = Vec::new();
    let mut i: usize = 0;
    assert(watch_rooms_view(out@) =~= input.take(0));
    while i < rooms.len()
        invariant
            i <= rooms@.len(),
            input == watch_rooms_view(rooms@),
            watch_rooms_view(out@).to_multiset() == input.take(i as int).to_multiset(),
            newest_first(watch_rooms_view(out@)),
            forall|t: i64|
                #[trigger] created_at_group(watch_rooms_view(out@), t) == created_at_group(
                    input.take(i as int),
                    t,
                ),
        decreases rooms.len() - i,
    {
        let item = rooms[i].clone();
        let ghost x = item@;
        assert(x == input[i as int]);
        let ghost cur = watch_rooms_view(out@);
        let mut p: usize = 0;
        while p < out.len() && out[p].created_at >= item.created_at
            invariant
                p <= out@.len(),
                cur == watch_rooms_view(out@),
                x == item@,
                forall|k: int| 0 <= k < p ==> #[trigger] cur[k].created_at >= x.created_at,
            decreases out.len() - p,
        {
            assert(cur[p as int] == out@[p as int]@);
            p = p + 1;
        }
        proof {
            if p < cur.len() {
                assert(cur[p as int] == out@[p as int]@);
            }
        }
        out.insert(p, item);
        let ghost next = watch_rooms_view(out@);
        assert(next =~= cur.insert(p as int, x));
        proof {
            vstd::seq_lib::to_multiset_insert(cur, p as int, x);
            vstd::seq_lib::to_multiset_build(input.take(i as int), x);
            assert(input.take(i + 1) =~= input.take(i as int).push(x));
            assert forall|k: int| p <= k < cur.len() implies #[trigger] cur[k].created_at < x.created_at by {
                assert(cur[p as int].created_at < x.created_at);
                if k > p {
                    assert(cur[p as int].created_at >= cur[k].created_at);
                }
            }
            assert forall|t: i64|
                #[trigger] created_at_group(next, t) == created_at_group(input.take(i + 1), t) by {
                lemma_group_insert(cur, p as int, x, t);
                input.take(i as int).lemma_filter_push(x, |r: WatchRoomModel| r.created_at == t);
            }
            assert forall|a: int, b: int| 0 <= a < b < next.len() implies #[trigger] next[a].created_at
                >= #[trigger] next[b].created_at by {
                if a < p && b == p {
                    assert(next[a] == cur[a]);
                } else if a == p && b > p {
                    assert(next[b] == cur[b - 1]);
                    assert(cur[p as int].created_at >= cur[b - 1].created_at);
                } else if a < p && b > p {
                    assert(next[a] == cur[a]);
                    assert(next[b] == cur[b - 1]);
                } else if a > p {
                    assert(next[a] == cur[a - 1]);
                    assert(next[b] == cur[b - 1]);
                } else {
                    assert(next[a] == cur[a]);
                    assert(next[b] == cur[b]);
                }
            }
        }
        i = i + 1;
    }
    assert(input.take(i as int) =~= input);
    out
}

/// The first step of joining a room: done already, or a request to send to
/// its host.
#[derive(Debug)]
pub enum JoinStep {
    Ready(WatchRoomSession),
    Request(WatchRoomJoinRequest),
}

/// The host's answer to a join request, and, when it let the user in, the
/// room as changed and the note posted.
#[derive(Debug)]
pub struct JoinAnswer {
    pub result: WatchJoinResult,
    pub joined: Option<(WatchRoom, WatchRoomChatMessage)>,
}

/// How this device's user left a room: as a guest, or by ending it as host.
#[derive(Debug)]
pub enum WatchExit {
    Left(WatchRoom),
    Ended(WatchRoom),
}

impl WatchRooms {
    /// The id of this device's user.
    pub closed spec fn local(&self) -> Seq<char> {
        self.local_user_id@
    }

    /// No rooms, none open.
    pub fn new(local_user_id: String) -> (r: WatchRooms)
        ensures
            r@.rooms.len() == 0,
            r@.sessions.len() == 0,
            r.local() == local_user_id@,
    {
        let r = WatchRooms { rooms: Vec::new(), sessions: Vec::new(), local_user_id };
        assert(entries_view(r.rooms@) =~= Seq::<EntryModel>::empty());
        assert(sessions_view(r.sessions@) =~= Seq::<SessionModel>::empty());
        r
    }

    /// The id of this device's user.
    pub fn local_user_id(&self) -> (r: &str)
        ensures
            r@ == self.local(),
    {
        self.local_user_id.as_str()
    }

    /// The session shown for room `room_id`, when it is open here.
    pub fn get_session(&self, room_id: &str) -> (r: Option<WatchRoomSession>)
        ensures
            session_view(r) == shown_session(self@, room_id@),
    {
        let si = match find_session(&self.sessions, room_id) {
            Some(i) => i,
            None => {
                return None;
            },
        };
        let ri = match find_entry(&self.rooms, room_id) {
            Some(i) => i,
            None => {
                return None;
            },
        };
        Some(WatchRoomSession { room: self.rooms[ri].room.clone(), is_host: self.sessions[si].is_host })
    }

    /// The chat of room `room_id`.
    pub fn list_messages(&self, room_id: &str) -> (r: Result<Vec<WatchRoomChatMessage>, String>)
        ensures
            match entry_of(self@.rooms, room_id@) {
                Some(e) => r matches Ok(m) && messages_view(m@) == e.messages,
                None => r matches Err(e) && e@ == "观影房间不存在"@,
            },
    {
        match find_entry(&self.rooms, room_id) {
            Some(i) => Ok(clone_messages(&self.rooms[i].messages)),
            None => Err(text("观影房间不存在")),
        }
    }

    /// Opens room `room_id` on this device, as its host or a guest.
    fn open_session(&mut self, room_id: &str, is_host: bool) -> (r: Result<WatchRoomSession, String>)
        ensures
            final(self).local() == old(self).local(),
            open_error(old(self)@, room_id@) matches Some(err) ==> (r matches Err(e) && e@ == err
                && final(self)@ == old(self)@),
            open_error(old(self)@, room_id@) is None ==> (r matches Ok(s) && s.is_host == is_host
                && s.room@ == entry_of(old(self)@.rooms, room_id@)->0.room && final(self)@
                == with_session(old(self)@, room_id@, is_host)),
    {
        let i = match find_entry(&self.rooms, room_id) {
            Some(i) => i,
            None => {
                return Err(text("观影房间不存在"));
            },
        };
        if self.rooms[i].room.status == WatchRoomStatus::Ended {
            return Err(text("观影房间已结束"));
        }
        let room = self.rooms[i].room.clone();
        let session = WatchSession {
            room_id: room.room_id.clone(),
            window_label: text("main"),
            content_webview_label: watch_content_webview_label(room.room_id.as_str()),
            is_host,
        };
        upsert_session_in(&mut self.sessions, session);
        Ok(WatchRoomSession { room, is_host })
    }

    /// Creates a room hosted here, as `room_id` at `now`, with the note
    /// `message_id`, and opens it.
    pub fn create_room_at(
        &mut self,
        input: CreateWatchRoomInput,
        nickname: &str,
        room_id: String,
        now: i64,
        message_id: String,
    ) -> (r: Result<WatchRoomSession, String>)
        ensures
            final(self).local() == old(self).local(),
            input.is_private && password_text(opt_view(input.password)).len() == 0 ==> (r matches Err(
                e,
            ) && e@ == "密码房间必须设置密码"@ && final(self)@ == old(self)@),
            !(input.is_private && password_text(opt_view(input.password)).len() == 0) ==> ({
                let e = created_entry(
                    old(self).local(),
                    nickname@,
                    input.title@,
                    input.is_private,
                    opt_view(input.password),
                    room_id@,
                    now,
                    message_id@,
                );
                &&& r matches Ok(s) && s.is_host && s.room@ == e.room
                &&& final(self)@ == with_session(with_room_entry(old(self)@, e), room_id@, true)
            }),
    {
        let ghost pw = opt_view(input.password);
        let title = normalize_title(input.title.as_str(), nickname);
        let password_hash = if input.is_private {
            let given = match &input.password {
                Some(p) => Some(p.as_str()),
                None => None,
            };
            match hash_required_password(given) {
                Ok(h) => Some(h),
                Err(e) => {
                    return Err(e);
                },
            }
        } else {
            None
        };
        let room = WatchRoom {
            room_id: room_id.clone(),
            host_user_id: self.local_user_id.clone(),
            host_name: text(nickname),
            title,
            url: None,
            has_video_url: false,
            is_private: input.is_private,
            password_hash,
            member_count: 1,
            status: WatchRoomStatus::Active,
            created_at: now,
            updated_at: now,
        };
        let note = system_message_at(
            room_id.as_str(),
            "系统",
            "房间已创建，房主可以在房间内随时设置视频链接。",
            message_id,
            now,
        );
        let mut members: Vec<String> = Vec::new();
        members.push(self.local_user_id.clone());
        let mut messages: Vec<WatchRoomChatMessage> = Vec::new();
        messages.push(note);
        let entry = WatchRoomEntry { room, members, messages };
        let ghost e = created_entry(
            self.local(),
            nickname@,
            input.title@,
            input.is_private,
            pw,
            room_id@,
            now,
            message_id@,
        );
        assert(entry@.members =~= e.members);
        assert(entry@.messages =~= e.messages);
        assert(entry@ == e);
        upsert_entry_in(&mut self.rooms, entry);
        proof {
            lemma_upsert_entry_of(old(self)@.rooms, e, room_id@);
        }
        self.open_session(room_id.as_str(), true)
    }

    /// Creates a room hosted here, with a fresh id, stamped now, and opens it.
    pub fn create_room(&mut self, input: CreateWatchRoomInput, nickname: &str) -> (r: Result<
        WatchRoomSession,
        String,
    >)
        ensures
            final(self).local() == old(self).local(),
            input.is_private && password_text(opt_view(input.password)).len() == 0 ==> (r matches Err(
                e,
            ) && e@ == "密码房间必须设置密码"@ && final(self)@ == old(self)@),
            !(input.is_private && password_text(opt_view(input.password)).len() == 0) ==> exists|
                room_id: Seq<char>,
                now: i64,
                message_id: Seq<char>,
            |
                {
                    let e = #[trigger] created_entry(
                        old(self).local(),
                        nickname@,
                        input.title@,
                        input.is_private,
                        opt_view(input.password),
                        room_id,
                        now,
                        message_id,
                    );
                    &&& r matches Ok(s) && s.is_host && s.room@ == e.room
                    &&& final(self)@ == with_session(with_room_entry(old(self)@, e), room_id, true)
                },
    {
        let room_id = new_id();
        let now = now_secs();
        let message_id = new_id();
        let ghost (a, b, c) = (room_id@, now, message_id@);
        let r = self.create_room_at(input, nickname, room_id, now, message_id);
        r
    }

    /// Posts `m` to room `room_id`'s chat, unless a message with its id is
    /// there; gives `m` back.
    fn append_message(&mut self, room_id: &str, m: WatchRoomChatMessage) -> (r: Result<
        WatchRoomChatMessage,
        String,
    >)
        ensures
            final(self).local() == old(self).local(),
            entry_of(old(self)@.rooms, room_id@) is None ==> (r matches Err(e) && e@ == "观影房间不存在"@
                && final(self)@ == old(self)@),
            entry_of(old(self)@.rooms, room_id@) matches Some(e) ==> (r matches Ok(out) && out@ == m@
                && final(self)@ == with_room_entry(
                old(self)@,
                EntryModel { room: e.room, members: e.members, messages: appended(e.messages, m@) },
            )),
    {
        let i = match find_entry(&self.rooms, room_id) {
            Some(i) => i,
            None => {
                return Err(text("观影房间不存在"));
            },
        };
        let mut entry = self.rooms[i].clone();
        let out = m.clone();
        append_to(&mut entry.messages, m);
        upsert_entry_in(&mut self.rooms, entry);
        Ok(out)
    }

    /// The host sets room `room_id`'s video URL at `now` and posts a note
    /// under `message_id`.
    pub fn update_room_url_at(&mut self, room_id: &str, url: &str, now: i64, message_id: String) -> (r:
        Result<UrlUpdated, String>)
        ensures
            final(self).local() == old(self).local(),
            watch_url_of(url@) matches Err(err) ==> (r matches Err(e) && e@ == err && final(self)@
                == old(self)@),
            watch_url_of(url@) matches Ok(u) ==> {
                &&& host_change_error(
                    old(self)@,
                    old(self).local(),
                    room_id@,
                    "只有房主可以更新视频链接"@,
                ) matches Some(err) ==> (r matches Err(e) && e@ == err && final(self)@ == old(self)@)
                &&& host_change_error(
                    old(self)@,
                    old(self).local(),
                    room_id@,
                    "只有房主可以更新视频链接"@,
                ) is None ==> {
                    let e2 = url_set_entry(
                        entry_of(old(self)@.rooms, room_id@)->0,
                        u,
                        now,
                        message_id@,
                    );
                    &&& final(self)@ == with_room_entry(old(self)@, e2)
                    &&& r matches Ok(out) && out.room@ == e2.room && out.message@
                        == system_message_of(room_id@, "系统"@, url_note(), message_id@, now)
                        && session_view(out.session) == shown_session(final(self)@, room_id@)
                }
            },
    {
        let url = match validate_watch_url(url) {
            Ok(u) => u,
            Err(e) => {
                return Err(e);
            },
        };
        let i = match find_entry(&self.rooms, room_id) {
            Some(i) => i,
            None => {
                return Err(text("观影房间不存在"));
            },
        };
        if !str_eq(self.rooms[i].room.host_user_id.as_str(), self.local_user_id.as_str()) {
            return Err(text("只有房主可以更新视频链接"));
        }
        if self.rooms[i].room.status == WatchRoomStatus::Ended {
            return Err(text("观影房间已结束"));
        }
        let mut entry = self.rooms[i].clone();
        entry.room.url = Some(url);
        entry.room.has_video_url = true;
        entry.room.updated_at = now;
        let room = entry.room.clone();
        let note = system_message_at(
            room_id,
            "系统",
            "房主更新了视频链接，房间将自动切换到新页面。",
            message_id,
            now,
        );
        let message = note.clone();
        append_to(&mut entry.messages, note);
        upsert_entry_in(&mut self.rooms, entry);
        let session = self.get_session(room_id);
        Ok(UrlUpdated { room, message, session })
    }

    /// Sends `body`, trimmed, to room `room_id` as message `message_id` at `now`.
    pub fn send_room_message_at(
        &mut self,
        room_id: &str,
        body: &str,
        nickname: &str,
        message_id: String,
        now: i64,
    ) -> (r: Result<WatchRoomChatMessage, String>)
        ensures
            final(self).local() == old(self).local(),
            send_error(old(self)@, old(self).local(), room_id@, body@) matches Some(err) ==> (r matches Err(
                e,
            ) && e@ == err && final(self)@ == old(self)@),
            send_error(old(self)@, old(self).local(), room_id@, body@) is None ==> ({
                let m = chat_message_of(room_id@, old(self).local(), nickname@, body@, message_id@, now);
                r matches Ok(out) && out@ == m && final(self)@ == with_message(old(self)@, room_id@, m)
            }),
    {
        let body = trimmed(body);
        if body.as_str().is_empty() {
            return Err(text("消息不能为空"));
        }
        let i = match find_entry(&self.rooms, room_id) {
            Some(i) => i,
            None => {
                return Err(text("观影房间不存在"));
            },
        };
        if !str_eq(self.rooms[i].room.host_user_id.as_str(), self.local_user_id.as_str())
            && !contains_text(&self.rooms[i].members, self.local_user_id.as_str()) {
            return Err(text("你尚未加入该观影房间"));
        }
        if self.rooms[i].room.status == WatchRoomStatus::Ended {
            return Err(text("观影房间已结束"));
        }
        let m = WatchRoomChatMessage {
            message_id,
            room_id: text(room_id),
            sender_user_id: self.local_user_id.clone(),
            sender_name: text(nickname),
            body,
            created_at: now,
            system: false,
        };
        self.append_message(room_id, m)
    }

    /// Starts joining room `room_id`: done already when it is open here,
    /// opened at once when hosted here, else checked and turned into the
    /// request for its host.
    pub fn begin_join(
        &mut self,
        room_id: &str,
        password: Option<&str>,
        host_online: bool,
        nickname: &str,
    ) -> (r: Result<JoinStep, String>)
        ensures
            final(self).local() == old(self).local(),
            shown_session(old(self)@, room_id@) is Some ==> (r matches Ok(JoinStep::Ready(s))
                && session_view(Some(s)) == shown_session(old(self)@, room_id@) && final(self)@
                == old(self)@),
            shown_session(old(self)@, room_id@) is None ==> ({
                let e = entry_of(old(self)@.rooms, room_id@)->0;
                let given = match password {
                    Some(p) => Some(hashed(p@)),
                    None => None,
                };
                &&& open_error(old(self)@, room_id@) matches Some(err) ==> (r matches Err(x) && x@
                    == err && final(self)@ == old(self)@)
                &&& open_error(old(self)@, room_id@) is None && e.room.host_user_id == old(
                    self,
                ).local() ==> (r matches Ok(JoinStep::Ready(s)) && s.is_host && s.room@ == e.room
                    && final(self)@ == with_session(old(self)@, room_id@, true))
                &&& open_error(old(self)@, room_id@) is None && e.room.host_user_id != old(
                    self,
                ).local() ==> {
                    &&& final(self)@ == old(self)@
                    &&& !host_online ==> (r matches Err(x) && x@ == "房主当前不在线"@)
                    &&& host_online && e.room.is_private && password is None ==> (r matches Err(x)
                        && x@ == "请输入房间密码"@)
                    &&& host_online && e.room.is_private && password is Some && given
                        != e.room.password_hash ==> (r matches Err(x) && x@ == "密码错误"@)
                    &&& host_online && (!e.room.is_private || (password is Some && given
                        == e.room.password_hash)) ==> (r matches Ok(JoinStep::Request(q))
                        && q.message_type@ == "watch_room_join_request"@ && q.room_id@ == room_id@
                        && q.user_id@ == old(self).local() && q.nickname@ == nickname@ && opt_view(
                        q.password_hash,
                    ) == (if e.room.is_private {
                        given
                    } else {
                        None
                    }))
                }
            }),
    {
        match self.get_session(room_id) {
            Some(s) => {
                return Ok(JoinStep::Ready(s));
            },
            None => {},
        }
        let i = match find_entry(&self.rooms, room_id) {
            Some(i) => i,
            None => {
                return Err(text("观影房间不存在"));
            },
        };
        if self.rooms[i].room.status == WatchRoomStatus::Ended {
            return Err(text("观影房间已结束"));
        }
        if str_eq(self.rooms[i].room.host_user_id.as_str(), self.local_user_id.as_str()) {
            return match self.open_session(room_id, true) {
                Ok(s) => Ok(JoinStep::Ready(s)),
                Err(e) => Err(e),
            };
        }
        if !host_online {
            return Err(text("房主当前不在线"));
        }
        let is_private = self.rooms[i].room.is_private;
        let provided = if is_private {
            match password {
                Some(value) => Some(hash_text(value)),
                None => {
                    return Err(text("请输入房间密码"));
                },
            }
        } else {
            None
        };
        if is_private && !opt_str_eq(&provided, &self.rooms[i].room.password_hash) {
            return Err(text("密码错误"));
        }
        Ok(
            JoinStep::Request(
                WatchRoomJoinRequest {
                    message_type: text("watch_room_join_request"),
                    room_id: text(room_id),
                    user_id: self.local_user_id.clone(),
                    nickname: text(nickname),
                    password_hash: provided,
                },
            ),
        )
    }

    /// Completes joining room `room_id` once its host answered: on
    /// acceptance this device's user becomes a member, the room opens, and
    /// the note `message_id` is posted at `now`.
    pub fn finish_join_at(
        &mut self,
        room_id: &str,
        result: &WatchJoinResult,
        nickname: &str,
        now: i64,
        message_id: String,
    ) -> (r: Result<(WatchRoomSession, WatchRoomChatMessage), String>)
        ensures
            final(self).local() == old(self).local(),
            !result.accepted ==> (r matches Err(e) && e@ == (match opt_view(result.reason) {
                Some(reason) => reason,
                None => "加入观影房间失败"@,
            }) && final(self)@ == old(self)@),
            result.accepted ==> ({
                let joined = with_member_of(old(self)@, room_id@, old(self).local());
                let m = system_message_of(room_id@, "系统"@, joined_note(nickname@), message_id@, now);
                &&& open_error(old(self)@, room_id@) matches Some(err) ==> (r matches Err(e) && e@
                    == err && final(self)@ == joined)
                &&& open_error(old(self)@, room_id@) is None ==> (r matches Ok((s, out)) && !s.is_host
                    && s.room@ == entry_of(old(self)@.rooms, room_id@)->0.room && out@ == m
                    && final(self)@ == with_message(with_session(joined, room_id@, false), room_id@, m))
            }),
    {
        if !result.accepted {
            return match &result.reason {
                Some(reason) => Err(reason.clone()),
                None => Err(text("加入观影房间失败")),
            };
        }
        let ghost before = self@;
        match find_entry(&self.rooms, room_id) {
            Some(i) => {
                proof {
                    lemma_first_index_range(room_ids(before.rooms), room_id@);
                }
                let ghost e = before.rooms[i as int];
                let mut entry = self.rooms[i].clone();
                add_member(&mut entry.members, self.local_user_id.as_str());
                let ghost e2 = EntryModel {
                    room: e.room,
                    members: with_member(e.members, self.local()),
                    messages: e.messages,
                };
                assert(entry@ == e2);
                upsert_entry_in(&mut self.rooms, entry);
                proof {
                    lemma_upsert_entry_of(before.rooms, e2, room_id@);
                }
            },
            None => {},
        }
        let ghost joined = self@;
        assert(open_error(joined, room_id@) == open_error(before, room_id@));
        let session = match self.open_session(room_id, false) {
            Ok(s) => s,
            Err(e) => {
                return Err(e);
            },
        };
        proof {
            lemma_upsert_session_of(joined.sessions, session_for(room_id@, false), room_id@);
        }
        let mut note_text = nickname.to_string();
        note_text.append(" 加入了房间。");
        let note = system_message_at(room_id, "系统", note_text.as_str(), message_id, now);
        let message = match self.append_message(room_id, note) {
            Ok(m) => m,
            Err(e) => {
                return Err(e);
            },
        };
        Ok((session, message))
    }

    /// Ends room `room_id`, hosted here, at `now`: it is closed here and
    /// forgotten; the room as ended is given back for the other devices.
    pub fn end_room_at(&mut self, room_id: &str, now: i64) -> (r: Result<WatchRoom, String>)
        ensures
            final(self).local() == old(self).local(),
            entry_of(old(self)@.rooms, room_id@) is None ==> (r matches Err(e) && e@ == "观影房间不存在"@
                && final(self)@ == old(self)@),
            entry_of(old(self)@.rooms, room_id@) matches Some(e) ==> {
                &&& e.room.host_user_id != old(self).local() ==> (r matches Err(x) && x@
                    == "只有房主可以结束房间"@ && final(self)@ == old(self)@)
                &&& e.room.host_user_id == old(self).local() ==> (r matches Ok(room) && room@
                    == ended(e.room, now) && final(self)@ == closed_state(old(self)@, room_id@))
            },
    {
        let i = match find_entry(&self.rooms, room_id) {
            Some(i) => i,
            None => {
                return Err(text("观影房间不存在"));
            },
        };
        if !str_eq(self.rooms[i].room.host_user_id.as_str(), self.local_user_id.as_str()) {
            return Err(text("只有房主可以结束房间"));
        }
        let mut room = self.rooms[i].room.clone();
        room.status = WatchRoomStatus::Ended;
        room.updated_at = now;
        remove_session_in(&mut self.sessions, room_id);
        remove_entry_in(&mut self.rooms, room_id);
        Ok(room)
    }

    /// This device's user leaves room `room_id` at `now`; the host's leaving
    /// ends the room.
    pub fn leave_room_at(&mut self, room_id: &str, now: i64) -> (r: Result<WatchExit, String>)
        ensures
            final(self).local() == old(self).local(),
            entry_of(old(self)@.rooms, room_id@) is None ==> (r matches Err(e) && e@ == "观影房间不存在"@
                && final(self)@ == old(self)@),
            entry_of(old(self)@.rooms, room_id@) matches Some(e) ==> {
                &&& e.room.host_user_id == old(self).local() ==> (r matches Ok(WatchExit::Ended(room))
                    && room@ == ended(e.room, now) && final(self)@ == closed_state(old(self)@, room_id@))
                &&& e.room.host_user_id != old(self).local() ==> (r matches Ok(WatchExit::Left(room))
                    && final(self)@ == left_state(old(self)@, room_id@, old(self).local(), now)
                    && room@ == with_count(e.room, one_less(e.room.member_count), now))
            },
    {
        let i = match find_entry(&self.rooms, room_id) {
            Some(i) => i,
            None => {
                return Err(text("观影房间不存在"));
            },
        };
        if str_eq(self.rooms[i].room.host_user_id.as_str(), self.local_user_id.as_str()) {
            return match self.end_room_at(room_id, now) {
                Ok(room) => Ok(WatchExit::Ended(room)),
                Err(e) => Err(e),
            };
        }
        let mut entry = self.rooms[i].clone();
        remove_member(&mut entry.members, self.local_user_id.as_str());
        if entry.room.member_count > 0 {
            entry.room.member_count = entry.room.member_count - 1;
        }
        entry.room.updated_at = now;
        let room = entry.room.clone();
        upsert_entry_in(&mut self.rooms, entry);
        remove_session_in(&mut self.sessions, room_id);
        Ok(WatchExit::Left(room))
    }

    /// Stores a room another device created, keeping any chat already here.
    pub fn accept_remote_create(&mut self, payload: WatchRoomCreateMessage)
        ensures
            final(self).local() == old(self).local(),
            final(self)@ == with_room_entry(
                old(self)@,
                EntryModel {
                    room: payload.room@,
                    members: seq![payload.room@.host_user_id],
                    messages: known_messages(old(self)@.rooms, payload.room@.room_id),
                },
            ),
    {
        let messages = match find_entry(&self.rooms, payload.room.room_id.as_str()) {
            Some(i) => clone_messages(&self.rooms[i].messages),
            None => Vec::new(),
        };
        let mut members: Vec<String> = Vec::new();
        members.push(payload.room.host_user_id.clone());
        let entry = WatchRoomEntry { room: payload.room, members, messages };
        assert(entry@.members =~= seq![payload.room@.host_user_id]);
        assert(entry@.messages =~= known_messages(old(self)@.rooms, payload.room@.room_id));
        upsert_entry_in(&mut self.rooms, entry);
    }

    /// Stores the state of a room another device announced; gives the room
    /// as stored.
    pub fn accept_remote_state(&mut self, payload: WatchRoomStateMessage) -> (r: WatchRoom)
        ensures
            final(self).local() == old(self).local(),
            r@ == announced(payload.room@),
            final(self)@ == with_room_entry(
                old(self)@,
                EntryModel {
                    room: announced(payload.room@),
                    members: state_members(old(self)@, payload.room@.room_id, old(self).local()),
                    messages: known_messages(old(self)@.rooms, payload.room@.room_id),
                },
            ),
    {
        let mut room = payload.room;
        let (mut members, messages) = match find_entry(&self.rooms, room.room_id.as_str()) {
            Some(i) => (clone_strings(&self.rooms[i].members), clone_messages(&self.rooms[i].messages)),
            None => (Vec::new(), Vec::new()),
        };
        assert(texts(members@) =~= known_members(old(self)@.rooms, room@.room_id));
        assert(messages_view(messages@) =~= known_messages(old(self)@.rooms, room@.room_id));
        if find_session(&self.sessions, room.room_id.as_str()).is_some() || contains_text(
            &members,
            self.local_user_id.as_str(),
        ) {
            add_member(&mut members, self.local_user_id.as_str());
        }
        room.has_video_url = match &room.url {
            Some(u) => !u.as_str().is_empty(),
            None => false,
        };
        let out = room.clone();
        let entry = WatchRoomEntry { room, members, messages };
        upsert_entry_in(&mut self.rooms, entry);
        out
    }

    /// The host answers a join request at `now`; a user let in becomes a
    /// member and the note `message_id` is posted.  `None` when the room is
    /// not hosted here.
    pub fn accept_join_request_at(
        &mut self,
        payload: &WatchRoomJoinRequest,
        now: i64,
        message_id: String,
    ) -> (r: Result<Option<JoinAnswer>, String>)
        ensures
            final(self).local() == old(self).local(),
            entry_of(old(self)@.rooms, payload.room_id@) is None ==> (r matches Err(e) && e@
                == "观影房间不存在"@ && final(self)@ == old(self)@),
            entry_of(old(self)@.rooms, payload.room_id@) matches Some(e) ==> {
                let ok = admits(e.room, opt_view(payload.password_hash));
                let members = with_member(e.members, payload.user_id@);
                let room = with_count(e.room, members.len() as usize, now);
                let m = system_message_of(
                    payload.room_id@,
                    "系统"@,
                    joined_note(payload.nickname@),
                    message_id@,
                    now,
                );
                &&& e.room.host_user_id != old(self).local() ==> (r matches Ok(None) && final(self)@
                    == old(self)@)
                &&& e.room.host_user_id == old(self).local() ==> (r matches Ok(Some(a))
                    && a.result.room_id@ == payload.room_id@ && a.result.target_user_id@
                    == payload.user_id@ && a.result.accepted == ok && opt_view(a.result.reason) == (
                if ok {
                    None
                } else {
                    Some("密码错误"@)
                }))
                &&& e.room.host_user_id == old(self).local() && !ok ==> (r matches Ok(Some(a))
                    && a.joined is None && final(self)@ == old(self)@)
                &&& e.room.host_user_id == old(self).local() && ok ==> (r matches Ok(Some(a))
                    && a.joined matches Some((j, n)) && j@ == room && n@ == m && final(self)@
                    == with_message(
                    with_room_entry(
                        old(self)@,
                        EntryModel { room, members, messages: e.messages },
                    ),
                    payload.room_id@,
                    m,
                ))
            },
    {
        let i = match find_entry(&self.rooms, payload.room_id.as_str()) {
            Some(i) => i,
            None => {
                return Err(text("观影房间不存在"));
            },
        };
        if !str_eq(self.rooms[i].room.host_user_id.as_str(), self.local_user_id.as_str()) {
            return Ok(None);
        }
        let accepted = if self.rooms[i].room.is_private {
            opt_str_eq(&self.rooms[i].room.password_hash, &payload.password_hash)
        } else {
            true
        };
        let result = WatchJoinResult {
            room_id: payload.room_id.clone(),
            target_user_id: payload.user_id.clone(),
            accepted,
            reason: if accepted {
                None
            } else {
                Some(text("密码错误"))
            },
        };
        if !accepted {
            return Ok(Some(JoinAnswer { result, joined: None }));
        }
        proof {
            lemma_first_index_range(room_ids(self@.rooms), payload.room_id@);
        }
        let ghost before = self@;
        let mut entry = self.rooms[i].clone();
        add_member(&mut entry.members, payload.user_id.as_str());
        entry.room.member_count = entry.members.len();
        entry.room.updated_at = now;
        let room = entry.room.clone();
        let ghost e2 = entry@;
        upsert_entry_in(&mut self.rooms, entry);
        proof {
            lemma_upsert_entry_of(before.rooms, e2, payload.room_id@);
        }
        let mut note_text = payload.nickname.clone();
        note_text.append(" 加入了房间。");
        let note = system_message_at(
            payload.room_id.as_str(),
            "系统",
            note_text.as_str(),
            message_id,
            now,
        );
        let message = match self.append_message(payload.room_id.as_str(), note) {
            Ok(m) => m,
            Err(e) => {
                return Err(e);
            },
        };
        Ok(Some(JoinAnswer { result, joined: Some((room, message)) }))
    }

    /// A guest left room `room_id`; the host here drops them at `now`.
    /// `None` when the room is not hosted here.
    pub fn accept_leave_at(&mut self, payload: &WatchRoomLeaveMessage, now: i64) -> (r: Result<
        Option<WatchRoom>,
        String,
    >)
        ensures
            final(self).local() == old(self).local(),
            entry_of(old(self)@.rooms, payload.room_id@) is None ==> (r matches Err(e) && e@
                == "观影房间不存在"@ && final(self)@ == old(self)@),
            entry_of(old(self)@.rooms, payload.room_id@) matches Some(e) ==> {
                let members = without_member(e.members, payload.user_id@);
                let room = with_count(e.room, members.len() as usize, now);
                &&& e.room.host_user_id != old(self).local() ==> (r matches Ok(None) && final(self)@
                    == old(self)@)
                &&& e.room.host_user_id == old(self).local() ==> (r matches Ok(Some(x)) && x@ == room
                    && final(self)@ == with_room_entry(
                    old(self)@,
                    EntryModel { room, members, messages: e.messages },
                ))
            },
    {
        let i = match find_entry(&self.rooms, payload.room_id.as_str()) {
            Some(i) => i,
            None => {
                return Err(text("观影房间不存在"));
            },
        };
        if !str_eq(self.rooms[i].room.host_user_id.as_str(), self.local_user_id.as_str()) {
            return Ok(None);
        }
        let mut entry = self.rooms[i].clone();
        remove_member(&mut entry.members, payload.user_id.as_str());
        entry.room.member_count = entry.members.len();
        entry.room.updated_at = now;
        let room = entry.room.clone();
        upsert_entry_in(&mut self.rooms, entry);
        Ok(Some(room))
    }

    /// A room ended elsewhere: it is forgotten and closed here.  Whether it
    /// was known.
    pub fn accept_end(&mut self, payload: &WatchRoomEndMessage) -> (r: bool)
        ensures
            final(self).local() == old(self).local(),
            r == entry_of(old(self)@.rooms, payload.room_id@) is Some,
            r ==> final(self)@ == closed_state(old(self)@, payload.room_id@),
            !r ==> final(self)@ == old(self)@,
    {
        if find_entry(&self.rooms, payload.room_id.as_str()).is_none() {
            return false;
        }
        remove_entry_in(&mut self.rooms, payload.room_id.as_str());
        remove_session_in(&mut self.sessions, payload.room_id.as_str());
        true
    }

    /// The host of room `room_id` set its video URL.  `None` when the update
    /// does not come from the room's host.
    pub fn accept_url_update(&mut self, payload: WatchRoomUrlUpdateMessage) -> (r: Result<
        Option<WatchRoom>,
        String,
    >)
        ensures
            final(self).local() == old(self).local(),
            entry_of(old(self)@.rooms, payload.room_id@) is None ==> (r matches Err(e) && e@
                == "观影房间不存在"@ && final(self)@ == old(self)@),
            entry_of(old(self)@.rooms, payload.room_id@) matches Some(e) ==> {
                let room = with_url(e.room, payload.url@, payload.updated_at);
                &&& e.room.host_user_id != payload.host_user_id@ ==> (r matches Ok(None) && final(self)@
                    == old(self)@)
                &&& e.room.host_user_id == payload.host_user_id@ ==> (r matches Ok(Some(x)) && x@
                    == room && final(self)@ == with_room_entry(
                    old(self)@,
                    EntryModel { room, members: e.members, messages: e.messages },
                ))
            },
    {
        let i = match find_entry(&self.rooms, payload.room_id.as_str()) {
            Some(i) => i,
            None => {
                return Err(text("观影房间不存在"));
            },
        };
        if !str_eq(self.rooms[i].room.host_user_id.as_str(), payload.host_user_id.as_str()) {
            return Ok(None);
        }
        let mut entry = self.rooms[i].clone();
        entry.room.url = Some(payload.url);
        entry.room.has_video_url = true;
        entry.room.updated_at = payload.updated_at;
        let room = entry.room.clone();
        upsert_entry_in(&mut self.rooms, entry);
        Ok(Some(room))
    }

    /// A chat message arrived: it is kept when this device's user belongs to
    /// the room or has it open.  The message, when kept.
    pub fn accept_chat_message(&mut self, payload: WatchRoomChatEnvelope) -> (r: Option<
        WatchRoomChatMessage,
    >)
        ensures
            final(self).local() == old(self).local(),
            ({
                let id = payload.message@.room_id;
                let keep = entry_of(old(self)@.rooms, id) matches Some(e) && (is_member_of(
                    e,
                    old(self).local(),
                ) || session_of(old(self)@.sessions, id) is Some);
                &&& !keep ==> (r is None && final(self)@ == old(self)@)
                &&& keep ==> (r matches Some(m) && m@ == payload.message@ && final(self)@
                    == with_message(old(self)@, id, payload.message@))
            }),
    {
        let room_id = payload.message.room_id.clone();
        let i = match find_entry(&self.rooms, room_id.as_str()) {
            Some(i) => i,
            None => {
                return None;
            },
        };
        let member = str_eq(self.rooms[i].room.host_user_id.as_str(), self.local_user_id.as_str())
            || contains_text(&self.rooms[i].members, self.local_user_id.as_str());
        if !member && find_session(&self.sessions, room_id.as_str()).is_none() {
            return None;
        }
        match self.append_message(room_id.as_str(), payload.message) {
            Ok(m) => Some(m),
            Err(_) => None,
        }
    }

    /// How the window shows room `room_id`: the room, whether it is hosted
    /// here, and whether this device's user belongs to it.
    pub fn activation(&self, room_id: &str) -> (r: Result<WatchActivation, String>)
        ensures
            match entry_of(self@.rooms, room_id@) {
                Some(e) => r matches Ok(a) && a.room@ == e.room && a.is_host == (e.room.host_user_id
                    == self.local()) && a.is_member == is_member_of(e, self.local()),
                None => r matches Err(x) && x@ == "观影房间不存在"@,
            },
    {
        match find_entry(&self.rooms, room_id) {
            Some(i) => {
                assert(entries_view(self.rooms@)[i as int] == self.rooms@[i as int]@);
                let is_host = str_eq(self.rooms[i].room.host_user_id.as_str(), self.local_user_id.as_str());
                let is_member = is_host || contains_text(&self.rooms[i].members, self.local_user_id.as_str());
                Ok(WatchActivation { room: self.rooms[i].room.clone(), is_host, is_member })
            },
            None => Err(text("观影房间不存在")),
        }
    }

    /// The room shown in the window `label`, and whether it is hosted here.
    pub fn window_close_target(&self, label: &str) -> (r: Option<(String, bool)>)
        ensures
            match r {
                Some((id, is_host)) => exists|i: int|
                    0 <= i < self@.sessions.len() && #[trigger] self@.sessions[i].window_label
                        == label@ && self@.sessions[i].room_id == id@ && self@.sessions[i].is_host
                        == is_host,
                None => forall|i: int|
                    0 <= i < self@.sessions.len() ==> #[trigger] self@.sessions[i].window_label
                        != label@,
            },
    {
        let ghost model = self@.sessions;
        let mut i: usize = 0;
        while i < self.sessions.len()
            invariant
                i <= self.sessions@.len(),
                model == sessions_view(self.sessions@),
                forall|k: int| 0 <= k < i ==> #[trigger] model[k].window_label != label@,
            decreases self.sessions.len() - i,
        {
            assert(model[i as int] == self.sessions@[i as int]@);
            if str_eq(self.sessions[i].window_label.as_str(), label) {
                let id = self.sessions[i].room_id.clone();
                assert(self@.sessions[i as int].window_label == label@);
                return Some((id, self.sessions[i].is_host));
            }
            i = i + 1;
        }
        None
    }

    /// The rooms to list: active ones hosted here or by a device online (its
    /// id among `online_hosts`), newest first.
    pub fn list_rooms(&self, online_hosts: &Vec<String>) -> (r: Vec<WatchRoom>)
        ensures
            watch_rooms_view(r@).to_multiset() == listed_rooms(
                self@.rooms,
                self.local(),
                texts(online_hosts@),
            ).to_multiset(),
            newest_first(watch_rooms_view(r@)),
            forall|t: i64|
                #[trigger] created_at_group(watch_rooms_view(r@), t) == created_at_group(
                    listed_rooms(self@.rooms, self.local(), texts(online_hosts@)),
                    t,
                ),
    {
        let ghost model = self@.rooms;
        let ghost local = self.local();
        let ghost online = texts(online_hosts@);
        let ghost pred = |e: EntryModel|
            e.room.status == WatchRoomStatus::Active && (e.room.host_user_id == local
                || online.contains(e.room.host_user_id));
        let mut rooms: Vec<WatchRoom> = Vec::new();
        let mut i: usize = 0;
        while i < self.rooms.len()
            invariant
                i <= self.rooms@.len(),
                model == entries_view(self.rooms@),
                local == self.local_user_id@,
                online == texts(online_hosts@),
                pred == (|e: EntryModel|
                    e.room.status == WatchRoomStatus::Active && (e.room.host_user_id == local
                        || online.contains(e.room.host_user_id))),
                watch_rooms_view(rooms@) == model.take(i as int).filter(pred).map_values(
                    |e: EntryModel| e.room,
                ),
            decreases self.rooms.len() - i,
        {
            assert(model.take(i + 1).drop_last() =~= model.take(i as int));
            let e = &self.rooms[i];
            assert(model[i as int] == e@);
            assert(model.take(i + 1).last() == e@);
            let keep = e.room.status == WatchRoomStatus::Active && (str_eq(
                e.room.host_user_id.as_str(),
                self.local_user_id.as_str(),
            ) || contains_text(online_hosts, e.room.host_user_id.as_str()));
            reveal_with_fuel(Seq::<_>::filter, 1);
            assert(pred(e@) == keep);
            if keep {
                let ghost before = watch_rooms_view(rooms@);
                rooms.push(e.room.clone());
                assert(watch_rooms_view(rooms@) =~= before.push(e@.room));
                assert(model.take(i + 1).filter(pred) == model.take(i as int).filter(pred).push(e@));
                assert(model.take(i + 1).filter(pred).map_values(|e: EntryModel| e.room) =~= model.take(
                    i as int,
                ).filter(pred).map_values(|e: EntryModel| e.room).push(e@.room));
            }
            i = i + 1;
        }
        assert(model.take(i as int) =~= model);
        sort_newest_first(rooms)
    }
}

/// The ids among `previous` that are not among `hosted`, in their order.
pub open spec fn ended_ids(previous: Seq<Seq<char>>, hosted: Seq<Seq<char>>) -> Seq<Seq<char>> {
    previous.filter(|id: Seq<char>| !hosted.contains(id))
}

/// The rooms this device hosted before and hosts no longer: those whose end
/// it announces.
pub fn ended_rooms(previous: &Vec<String>, hosted: &Vec<String>) -> (r: Vec<String>)
    ensures
        ids_view(r@) == ended_ids(ids_view(previous@), ids_view(hosted@)),
{
    let ghost pv = ids_view(previous@);
    let ghost pred = |id: Seq<char>| !ids_view(hosted@).contains(id);
    let mut out: Vec<String> = Vec::new();
    let mut i: usize = 0;
    assert(pv.take(0).filter(pred) =~= Seq::<Seq<char>>::empty()) by {
        reveal_with_fuel(Seq::<_>::filter, 1);
    }
    assert(ids_view(out@) =~= Seq::<Seq<char>>::empty());
    while i < previous.len()
        invariant
            i <= previous@.len(),
            pv == ids_view(previous@),
            pred == (|id: Seq<char>| !ids_view(hosted@).contains(id)),
            ids_view(out@) == pv.take(i as int).filter(pred),
        decreases previous.len() - i,
    {
        let id = &previous[i];
        assert(pv[i as int] == id@);
        assert(pv.take(i + 1) =~= pv.take(i as int).push(id@));
        proof {
            pv.take(i as int).lemma_filter_push(id@, pred);
        }
        if !contains_id(hosted, id.as_str()) {
            let ghost before = out@;
            out.push(id.clone());
            assert(ids_view(out@) =~= ids_view(before).push(id@));
        }
        i = i + 1;
    }
    assert(pv.take(i as int) =~= pv);
    out
}

} // verus!
