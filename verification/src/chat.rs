use crate::protocol::DeviceInfo;
use crate::system::{new_id, now_secs};
use crate::text::{
    clean_chars, clean_text, lemma_filter_insert, lemma_seq_lt_irreflexive, lemma_seq_lt_transitive,
    opt_view, seq_lt, str_eq, str_lt, trim, trimmed,
};
use vstd::prelude::*;

verus! {

/// The id of the room every device belongs to.
pub const MAIN_ROOM_ID: &'static str = "main";

/// How many messages a device keeps.
pub const MESSAGE_LIMIT: usize = 5000;

/// How many of a room's latest messages are listed.
pub const LISTED_MESSAGES: usize = 100;

#[derive(Debug)]
pub struct ChatRoom {
    pub room_id: String,
    pub name: String,
    pub owner_device_id: String,
    pub member_ids: Vec<String>,
    pub is_main: bool,
    pub created_at: i64,
    pub deleted: bool,
}

pub struct ChatRoomModel {
    pub room_id: Seq<char>,
    pub name: Seq<char>,
    pub owner_device_id: Seq<char>,
    pub member_ids: Seq<Seq<char>>,
    pub is_main: bool,
    pub created_at: i64,
    pub deleted: bool,
}

/// The texts of a list of strings.
pub open spec fn texts(v: Seq<String>) -> Seq<Seq<char>> {
    v.map_values(|s: String| s@)
}

impl View for ChatRoom {
    type V = ChatRoomModel;

    open spec fn view(&self) -> ChatRoomModel {
        ChatRoomModel {
            room_id: self.room_id@,
            name: self.name@,
            owner_device_id: self.owner_device_id@,
            member_ids: texts(self.member_ids@),
            is_main: self.is_main,
            created_at: self.created_at,
            deleted: self.deleted,
        }
    }
}

fn clone_strings(v: &Vec<String>) -> (r: Vec<String>)
    ensures
        texts(r@) == texts(v@),
{
    let r = v.clone();
    assert forall|i: int| 0 <= i < v@.len() implies r@[i]@ == v@[i]@ by {
        assert(cloned(v@[i], r@[i]));
    }
    assert(texts(r@) =~= texts(v@));
    r
}

impl Clone for ChatRoom {
    fn clone(&self) -> (r: Self)
        ensures
            r@ == self@,
    {
        ChatRoom {
            room_id: self.room_id.clone(),
            name: self.name.clone(),
            owner_device_id: self.owner_device_id.clone(),
            member_ids: clone_strings(&self.member_ids),
            is_main: self.is_main,
            created_at: self.created_at,
            deleted: self.deleted,
        }
    }
}

#[derive(Debug)]
pub struct ChatMessage {
    pub message_id: String,
    pub room_id: String,
    pub sender_device_id: String,
    pub sender_name: String,
    pub avatar_hash: Option<String>,
    pub body: String,
    pub created_at: i64,
}

pub struct MessageModel {
    pub message_id: Seq<char>,
    pub room_id: Seq<char>,
    pub sender_device_id: Seq<char>,
    pub sender_name: Seq<char>,
    pub avatar_hash: Option<Seq<char>>,
    pub body: Seq<char>,
    pub created_at: i64,
}

impl View for ChatMessage {
    type V = MessageModel;

    open spec fn view(&self) -> MessageModel {
        MessageModel {
            message_id: self.message_id@,
            room_id: self.room_id@,
            sender_device_id: self.sender_device_id@,
            sender_name: self.sender_name@,
            avatar_hash: opt_view(self.avatar_hash),
            body: self.body@,
            created_at: self.created_at,
        }
    }
}

impl Clone for ChatMessage {
    fn clone(&self) -> (r: Self)
        ensures
            r@ == self@,
    {
        ChatMessage {
            message_id: self.message_id.clone(),
            room_id: self.room_id.clone(),
            sender_device_id: self.sender_device_id.clone(),
            sender_name: self.sender_name.clone(),
            avatar_hash: self.avatar_hash.clone(),
            body: self.body.clone(),
            created_at: self.created_at,
        }
    }
}

#[derive(Debug)]
pub struct ChatMessagePayload {
    pub room: ChatRoom,
    pub message: ChatMessage,
}

/// The models of a list of rooms.
pub open spec fn rooms_view(v: Seq<ChatRoom>) -> Seq<ChatRoomModel> {
    v.map_values(|r: ChatRoom| r@)
}

/// The models of a list of messages.
pub open spec fn messages_view(v: Seq<ChatMessage>) -> Seq<MessageModel> {
    v.map_values(|m: ChatMessage| m@)
}

// ---------------------------------------------------------------------------
// The model.
// ---------------------------------------------------------------------------

/// The rooms and messages a device keeps.
pub struct ChatModel {
    pub rooms: Seq<ChatRoomModel>,
    pub messages: Seq<MessageModel>,
}

/// `i` is the first position of a room with id `id` that passes `live`
/// (every room when `live` is false, the rooms not deleted when it is true).
pub open spec fn is_first_room(rooms: Seq<ChatRoomModel>, id: Seq<char>, live: bool, i: int) -> bool {
    &&& 0 <= i < rooms.len()
    &&& rooms[i].room_id == id
    &&& (live ==> !rooms[i].deleted)
    &&& forall|j: int|
        0 <= j < i ==> !(#[trigger] rooms[j].room_id == id && (live ==> !rooms[j].deleted))
}

/// The first position of such a room, or -1.
pub open spec fn room_index(rooms: Seq<ChatRoomModel>, id: Seq<char>, live: bool) -> int {
    if exists|i: int| is_first_room(rooms, id, live, i) {
        choose|i: int| is_first_room(rooms, id, live, i)
    } else {
        -1
    }
}

/// `rooms` with `room` in place of the room that has its id, or with `room`
/// added when none has.
pub open spec fn upsert_room(rooms: Seq<ChatRoomModel>, room: ChatRoomModel) -> Seq<ChatRoomModel> {
    let i = room_index(rooms, room.room_id, false);
    if i >= 0 {
        rooms.update(i, room)
    } else {
        rooms.push(room)
    }
}

/// The room every device belongs to.
pub open spec fn main_room() -> ChatRoomModel {
    ChatRoomModel {
        room_id: MAIN_ROOM_ID@,
        name: "主聊天室"@,
        owner_device_id: "system"@,
        member_ids: Seq::empty(),
        is_main: true,
        created_at: 0,
        deleted: false,
    }
}

/// The rooms with the main room added when none has its id.
pub open spec fn with_main_room(rooms: Seq<ChatRoomModel>) -> Seq<ChatRoomModel> {
    if room_index(rooms, MAIN_ROOM_ID@, false) >= 0 {
        rooms
    } else {
        rooms.push(main_room())
    }
}

/// The latest `LIMIT` messages when there are more.
pub open spec fn capped(messages: Seq<MessageModel>) -> Seq<MessageModel> {
    if messages.len() > MESSAGE_LIMIT {
        messages.skip(messages.len() - MESSAGE_LIMIT)
    } else {
        messages
    }
}

/// The state after a message arrives with its room: the room is stored, and
/// the message is kept unless one with its id is already there.
pub open spec fn inserted(state: ChatModel, room: ChatRoomModel, message: MessageModel) -> ChatModel {
    let known = exists|i: int|
        0 <= i < state.messages.len() && #[trigger] state.messages[i].message_id
            == message.message_id;
    ChatModel {
        rooms: upsert_room(state.rooms, room),
        messages: if known {
            state.messages
        } else {
            capped(state.messages.push(message))
        },
    }
}

/// The ids of a member list, trimmed, without empty ones and without repeats,
/// in the order of first appearance.
pub open spec fn unique_ids_of(ids: Seq<Seq<char>>) -> Seq<Seq<char>>
    decreases ids.len(),
{
    if ids.len() == 0 {
        Seq::empty()
    } else {
        let prev = unique_ids_of(ids.drop_last());
        let id = trim(ids.last());
        if id.len() == 0 || prev.contains(id) {
            prev
        } else {
            prev.push(id)
        }
    }
}

/// The members of a new room: the given ids, and the owner when missing.
pub open spec fn room_members(ids: Seq<Seq<char>>, owner: Seq<char>) -> Seq<Seq<char>> {
    let members = unique_ids_of(ids);
    if members.contains(owner) {
        members
    } else {
        members.push(owner)
    }
}

/// `a` is listed before `b`: the main room first, then older rooms, then by name.
pub open spec fn room_listed_before(a: ChatRoomModel, b: ChatRoomModel) -> bool {
    ||| (a.is_main && !b.is_main)
    ||| (a.is_main == b.is_main && a.created_at < b.created_at)
    ||| (a.is_main == b.is_main && a.created_at == b.created_at && seq_lt(a.name, b.name))
}

/// Rooms in listing order.
pub open spec fn rooms_sorted(s: Seq<ChatRoomModel>) -> bool {
    forall|i: int, j: int| 0 <= i < j < s.len() ==> !room_listed_before(#[trigger] s[j], #[trigger] s[i])
}

/// The messages of room `room_id`, in order.
pub open spec fn room_messages(messages: Seq<MessageModel>, room_id: Seq<char>) -> Seq<MessageModel> {
    messages.filter(|m: MessageModel| m.room_id == room_id)
}

/// The last `LISTED_MESSAGES` of a sequence of messages, or all when fewer.
pub open spec fn latest(messages: Seq<MessageModel>) -> Seq<MessageModel> {
    if messages.len() > LISTED_MESSAGES {
        messages.skip(messages.len() - LISTED_MESSAGES)
    } else {
        messages
    }
}

pub proof fn lemma_room_index_first(rooms: Seq<ChatRoomModel>, id: Seq<char>, live: bool, i: int)
    requires
        is_first_room(rooms, id, live, i),
    ensures
        room_index(rooms, id, live) == i,
{
    let k = choose|k: int| is_first_room(rooms, id, live, k);
    if k < i {
        assert(!(rooms[k].room_id == id && (live ==> !rooms[k].deleted)));
    } else if k > i {
        assert(!(rooms[i].room_id == id && (live ==> !rooms[i].deleted)));
    }
}

// ---------------------------------------------------------------------------
// Helpers.
// ---------------------------------------------------------------------------

fn text(s: &str) -> (r: String)
    ensures
        r@ == s@,
{
    s.to_string()
}

/// The first position of a room with id `room_id` (and not deleted, when
/// `live`).
fn find_room_index(rooms: &Vec<ChatRoom>, room_id: &str, live: bool) -> (r: Option<usize>)
    ensures
        match r {
            Some(i) => room_index(rooms_view(rooms@), room_id@, live) == i && i < rooms@.len(),
            None => room_index(rooms_view(rooms@), room_id@, live) == -1,
        },
{
    let ghost model = rooms_view(rooms@);
    let mut i: usize = 0;
    while i < rooms.len()
        invariant
            i <= rooms@.len(),
            model == rooms_view(rooms@),
            forall|j: int|
                0 <= j < i ==> !(#[trigger] model[j].room_id == room_id@ && (live
                    ==> !model[j].deleted)),
        decreases rooms.len() - i,
    {
        assert(model[i as int] == rooms@[i as int]@);
        if str_eq(rooms[i].room_id.as_str(), room_id) && (!live || !rooms[i].deleted) {
            proof {
                lemma_room_index_first(model, room_id@, live, i as int);
            }
            return Some(i);
        }
        i = i + 1;
    }
    assert(!exists|k: int| is_first_room(model, room_id@, live, k));
    None
}

/// Replaces the room with the same id, or adds the room.
fn upsert_room_in(rooms: &mut Vec<ChatRoom>, room: ChatRoom)
    ensures
        rooms_view(final(rooms)@) == upsert_room(rooms_view(old(rooms)@), room@),
{
    let ghost model = rooms_view(rooms@);
    let ghost r = room@;
    match find_room_index(rooms, room.room_id.as_str(), false) {
        Some(i) => {
            rooms.set(i, room);
            assert(rooms_view(rooms@) =~= model.update(i as int, r));
        },
        None => {
            rooms.push(room);
            assert(rooms_view(rooms@) =~= model.push(r));
        },
    }
}

/// Adds the main room when none has its id.
pub fn ensure_main_room(rooms: &mut Vec<ChatRoom>)
    ensures
        rooms_view(final(rooms)@) == with_main_room(rooms_view(old(rooms)@)),
{
    let ghost model = rooms_view(rooms@);
    if find_room_index(rooms, MAIN_ROOM_ID, false).is_none() {
        let main = ChatRoom {
            room_id: text(MAIN_ROOM_ID),
            name: text("主聊天室"),
            owner_device_id: text("system"),
            member_ids: Vec::new(),
            is_main: true,
            created_at: 0,
            deleted: false,
        };
        assert(main@.member_ids =~= Seq::<Seq<char>>::empty());
        rooms.push(main);
        assert(rooms_view(rooms@) =~= model.push(main_room()));
    }
}

/// The member ids, trimmed, without empty ones and without repeats.
pub fn unique_ids(ids: Vec<String>) -> (r: Vec<String>)
    ensures
        texts(r@) == unique_ids_of(texts(ids@)),
{
    let ghost input = texts(ids@);
    let mut out: Vec<String> = Vec::new();
    let mut i: usize = 0;
    while i < ids.len()
        invariant
            i <= ids@.len(),
            input == texts(ids@),
            texts(out@) == unique_ids_of(input.take(i as int)),
        decreases ids.len() - i,
    {
        assert(input.take(i + 1).drop_last() =~= input.take(i as int));
        assert(input.take(i + 1).last() == ids@[i as int]@);
        let id = trimmed(ids[i].as_str());
        let seen = contains_text(&out, id.as_str());
        if !id.as_str().is_empty() && !seen {
            let ghost before = texts(out@);
            out.push(id);
            assert(texts(out@) =~= before.push(trim(ids@[i as int]@)));
        }
        i = i + 1;
    }
    assert(input.take(i as int) =~= input);
    out
}

/// Whether `id` is among `ids`.
pub fn contains_text(ids: &Vec<String>, id: &str) -> (r: bool)
    ensures
        r == texts(ids@).contains(id@),
{
    let mut i: usize = 0;
    while i < ids.len()
        invariant
            i <= ids@.len(),
            forall|k: int| 0 <= k < i ==> texts(ids@)[k] != id@,
        decreases ids.len() - i,
    {
        assert(texts(ids@)[i as int] == ids@[i as int]@);
        if str_eq(ids[i].as_str(), id) {
            return true;
        }
        i = i + 1;
    }
    false
}

/// The name of a new room: trimmed, cut to 32 characters, and not empty.
pub fn clean_room_name(value: &str) -> (r: Result<String, String>)
    ensures
        match r {
            Ok(name) => name@ == clean_text(value@, 32) && name@.len() > 0,
            Err(e) => e@ == "聊天室名称不能为空"@ && clean_text(value@, 32).len() == 0,
        },
{
    let name = clean_chars(value, 32);
    if name.as_str().is_empty() {
        Err(text("聊天室名称不能为空"))
    } else {
        Ok(name)
    }
}

/// The body of a new message: trimmed, cut to 1000 characters, and not empty.
pub fn clean_message(value: &str) -> (r: Result<String, String>)
    ensures
        match r {
            Ok(body) => body@ == clean_text(value@, 1000) && body@.len() > 0,
            Err(e) => e@ == "消息不能为空"@ && clean_text(value@, 1000).len() == 0,
        },
{
    let body = clean_chars(value, 1000);
    if body.as_str().is_empty() {
        Err(text("消息不能为空"))
    } else {
        Ok(body)
    }
}

fn room_first(a: &ChatRoom, b: &ChatRoom) -> (r: bool)
    ensures
        r == room_listed_before(a@, b@),
{
    (a.is_main && !b.is_main) || (a.is_main == b.is_main && a.created_at < b.created_at) || (
    a.is_main == b.is_main && a.created_at == b.created_at && str_lt(
        a.name.as_str(),
        b.name.as_str(),
    ))
}

proof fn lemma_room_order(a: ChatRoomModel, b: ChatRoomModel, c: ChatRoomModel)
    ensures
        !room_listed_before(a, a),
        room_listed_before(a, b) && room_listed_before(b, c) ==> room_listed_before(a, c),
{
    lemma_seq_lt_irreflexive(a.name);
    if room_listed_before(a, b) && room_listed_before(b, c) && a.is_main == b.is_main && b.is_main
        == c.is_main && a.created_at == b.created_at && b.created_at == c.created_at {
        lemma_seq_lt_transitive(a.name, b.name, c.name);
    }
}

/// Rooms of the same rank: both main or both not, created at the same second,
/// with the same name.
pub open spec fn same_rank(a: ChatRoomModel, b: ChatRoomModel) -> bool {
    a.is_main == b.is_main && a.created_at == b.created_at && a.name == b.name
}

/// The rooms of `rooms` of the same rank as `k`, in their order.
pub open spec fn rank_group(rooms: Seq<ChatRoomModel>, k: ChatRoomModel) -> Seq<ChatRoomModel> {
    rooms.filter(|c: ChatRoomModel| same_rank(c, k))
}

/// Sorts rooms into listing order, keeping rooms of the same rank in the order
/// given.
pub fn sort_rooms(rooms: Vec<ChatRoom>) -> (r: Vec<ChatRoom>)
    ensures
        rooms_view(r@).to_multiset() == rooms_view(rooms@).to_multiset(),
        rooms_sorted(rooms_view(r@)),
        forall|k: ChatRoomModel| #[trigger] rank_group(rooms_view(r@), k) == rank_group(rooms_view(rooms@), k),
{
    let ghost input = rooms_view(rooms@);
    let mut out: Vec<ChatRoom> = Vec::new();
    let mut i: usize = 0;
    assert(rooms_view(out@) =~= input.take(0));
    while i < rooms.len()
        invariant
            i <= rooms@.len(),
            input == rooms_view(rooms@),
            rooms_view(out@).to_multiset() == input.take(i as int).to_multiset(),
            rooms_sorted(rooms_view(out@)),
            forall|k: ChatRoomModel| #[trigger] rank_group(rooms_view(out@), k) == rank_group(input.take(i as int), k),
        decreases rooms.len() - i,
    {
        let item = rooms[i].clone();
        let ghost x = item@;
        assert(x == input[i as int]);
        let ghost cur = rooms_view(out@);
        let mut p: usize = 0;
        while p < out.len() && !room_first(&item, &out[p])
            invariant
                p <= out@.len(),
                cur == rooms_view(out@),
                x == item@,
                forall|k: int| 0 <= k < p ==> !room_listed_before(x, #[trigger] cur[k]),
            decreases out.len() - p,
        {
            assert(cur[p as int] == out@[p as int]@);
            p = p + 1;
        }
        proof {
            if p < cur.len() {
                assert(cur[p as int] == out@[p as int]@);
            }
        }
        out.insert(p, item);
        let ghost next = rooms_view(out@);
        assert(next =~= cur.insert(p as int, x));
        proof {
            vstd::seq_lib::to_multiset_insert(cur, p as int, x);
            vstd::seq_lib::to_multiset_build(input.take(i as int), x);
            assert(input.take(i + 1) =~= input.take(i as int).push(x));
            assert forall|j: int| p <= j < cur.len() implies !same_rank(#[trigger] cur[j], x) by {
                assert(room_listed_before(x, cur[p as int]));
                if same_rank(cur[j], x) {
                    lemma_seq_lt_irreflexive(x.name);
                    if j > p {
                        assert(!room_listed_before(cur[j], cur[p as int]));
                    }
                }
            }
            assert forall|k: ChatRoomModel| #[trigger] rank_group(next, k) == rank_group(input.take(i + 1), k) by {
                let pred = |c: ChatRoomModel| same_rank(c, k);
                assert forall|j: int| pred(x) && p <= j < cur.len() implies !pred(#[trigger] cur[j]) by {
                    assert(!same_rank(cur[j], x));
                }
                lemma_filter_insert(cur, p as int, x, pred);
                input.take(i as int).lemma_filter_push(x, pred);
                assert(rank_group(cur, k) == cur.filter(pred));
                assert(rank_group(cur, k) == rank_group(input.take(i as int), k));
                assert(next.filter(pred) == cur.insert(p as int, x).filter(pred));
                assert(input.take(i + 1).filter(pred) == input.take(i as int).push(x).filter(pred));
            }
            assert forall|a: int, b: int| 0 <= a < b < next.len() implies !room_listed_before(#[trigger] next[b], #[trigger] next[a]) by {
                if a < p && b == p {
                    assert(next[a] == cur[a]);
                } else if a == p && b > p {
                    assert(next[b] == cur[b - 1]);
                    if room_listed_before(cur[b - 1], x) {
                        lemma_room_order(cur[b - 1], x, cur[p as int]);
                        lemma_room_order(cur[p as int], cur[b - 1], cur[b - 1]);
                        if b - 1 > p {
                            assert(!room_listed_before(cur[b - 1], cur[p as int]));
                        }
                    }
                } else if a < p && b > p {
                    assert(next[a] == cur[a]);
                    assert(next[b] == cur[b - 1]);
                } else if a > p {
                    assert(next[a] == cur[a - 1]);
                    assert(next[b] == cur[b - 1]);
                } else {
                    assert(next[a] == cur[a]);
                    assert(next[b] == cur[b]);
                }
            }
        }
        i = i + 1;
    }
    assert(input.take(i as int) =~= input);
    out
}

// ---------------------------------------------------------------------------
// Who a room's messages go to.
// ---------------------------------------------------------------------------

/// A device that a room's messages and changes are sent to: online, not this
/// device, and in the room (every device is in the main room).
pub open spec fn chat_target(d: DeviceInfo, local_id: Seq<char>, room: ChatRoomModel) -> bool {
    d.online && d.id@ != local_id && (room.room_id == "main"@ || room.member_ids.contains(d.id@))
}

/// The devices among `devices` that room `room` is sent to, in the order
/// given.
pub fn chat_targets(devices: Vec<DeviceInfo>, local_id: &str, room: &ChatRoom) -> (r: Vec<DeviceInfo>)
    ensures
        r@ == devices@.filter(|d: DeviceInfo| chat_target(d, local_id@, room@)),
{
    let ghost input = devices@;
    let ghost pred = |d: DeviceInfo| chat_target(d, local_id@, room@);
    let mut rest = devices;
    let mut out: Vec<DeviceInfo> = Vec::new();
    let ghost mut i: int = 0;
    while rest.len() > 0
        invariant
            0 <= i <= input.len(),
            rest@ == input.skip(i),
            pred == (|d: DeviceInfo| chat_target(d, local_id@, room@)),
            out@ == input.take(i).filter(pred),
        decreases rest@.len(),
    {
        let d = rest.remove(0);
        assert(d == input[i]);
        assert(input.take(i + 1).drop_last() =~= input.take(i));
        assert(input.take(i + 1).last() == d);
        reveal_with_fuel(Seq::<_>::filter, 1);
        let keep = d.online && !str_eq(d.id.as_str(), local_id) && (str_eq(room.room_id.as_str(), MAIN_ROOM_ID)
            || contains_text(&room.member_ids, d.id.as_str()));
        proof {
            reveal_strlit("main");
        }
        assert(pred(d) == keep);
        if keep {
            let ghost before = out@;
            out.push(d);
            assert(out@ =~= before.push(input[i]));
        }
        proof {
            assert(rest@ =~= input.skip(i + 1));
            i = i + 1;
        }
    }
    assert(input.take(i) =~= input);
    out
}

// ---------------------------------------------------------------------------
// The service.
// ---------------------------------------------------------------------------

/// The chat rooms and messages this device keeps.
pub struct ChatService {
    rooms: Vec<ChatRoom>,
    messages: Vec<ChatMessage>,
    local_device_id: String,
}

impl View for ChatService {
    type V = ChatModel;

    closed spec fn view(&self) -> ChatModel {
        ChatModel { rooms: rooms_view(self.rooms@), messages: messages_view(self.messages@) }
    }
}

impl ChatService {
    /// The id of this device.
    pub closed spec fn local(&self) -> Seq<char> {
        self.local_device_id@
    }

    /// A service for this device that keeps the given rooms and messages, with
    /// the main room added when it is missing.
    pub fn new(local_device_id: String, rooms: Vec<ChatRoom>, messages: Vec<ChatMessage>) -> (r: Self)
        ensures
            r@ == (ChatModel {
                rooms: with_main_room(rooms_view(rooms@)),
                messages: messages_view(messages@),
            }),
            r.local() == local_device_id@,
    {
        let mut rooms = rooms;
        ensure_main_room(&mut rooms);
        ChatService { rooms, messages, local_device_id }
    }

    /// Every room kept, deleted ones included, as stored.
    pub fn rooms(&self) -> (r: Vec<ChatRoom>)
        ensures
            rooms_view(r@) == self@.rooms,
    {
        let mut out: Vec<ChatRoom> = Vec::new();
        let mut i: usize = 0;
        while i < self.rooms.len()
            invariant
                i <= self.rooms@.len(),
                rooms_view(out@) == self@.rooms.take(i as int),
            decreases self.rooms.len() - i,
        {
            let ghost before = rooms_view(out@);
            out.push(self.rooms[i].clone());
            assert(rooms_view(out@) =~= before.push(self@.rooms[i as int]));
            assert(self@.rooms.take(i + 1) =~= self@.rooms.take(i as int).push(self@.rooms[i as int]));
            i = i + 1;
        }
        assert(self@.rooms.take(i as int) =~= self@.rooms);
        out
    }

    /// Every message kept, as stored.
    pub fn messages(&self) -> (r: Vec<ChatMessage>)
        ensures
            messages_view(r@) == self@.messages,
    {
        let mut out: Vec<ChatMessage> = Vec::new();
        let mut i: usize = 0;
        while i < self.messages.len()
            invariant
                i <= self.messages@.len(),
                messages_view(out@) == self@.messages.take(i as int),
            decreases self.messages.len() - i,
        {
            let ghost before = messages_view(out@);
            out.push(self.messages[i].clone());
            assert(messages_view(out@) =~= before.push(self@.messages[i as int]));
            assert(self@.messages.take(i + 1) =~= self@.messages.take(i as int).push(self@.messages[i as int]));
            i = i + 1;
        }
        assert(self@.messages.take(i as int) =~= self@.messages);
        out
    }

    /// The rooms not deleted, in listing order: the main room first, then
    /// older rooms, then by name.
    pub fn list_rooms(&self) -> (r: Vec<ChatRoom>)
        ensures
            rooms_view(r@).to_multiset() == self@.rooms.filter(|c: ChatRoomModel| !c.deleted).to_multiset(),
            rooms_sorted(rooms_view(r@)),
            forall|k: ChatRoomModel| #[trigger] rank_group(rooms_view(r@), k) == rank_group(
                self@.rooms.filter(|c: ChatRoomModel| !c.deleted),
                k,
            ),
    {
        let ghost model = self@.rooms;
        let ghost pred = |c: ChatRoomModel| !c.deleted;
        let mut rooms: Vec<ChatRoom> = Vec::new();
        let mut i: usize = 0;
        while i < self.rooms.len()
            invariant
                i <= self.rooms@.len(),
                model == rooms_view(self.rooms@),
                pred == (|c: ChatRoomModel| !c.deleted),
                rooms_view(rooms@) == model.take(i as int).filter(pred),
            decreases self.rooms.len() - i,
        {
            assert(model.take(i + 1).drop_last() =~= model.take(i as int));
            let c = &self.rooms[i];
            assert(model[i as int] == c@);
            assert(model.take(i + 1).last() == c@);
            reveal_with_fuel(Seq::<_>::filter, 1);
            if !c.deleted {
                let ghost before = rooms_view(rooms@);
                rooms.push(c.clone());
                assert(rooms_view(rooms@) =~= before.push(c@));
            }
            i = i + 1;
        }
        assert(model.take(i as int) =~= model);
        sort_rooms(rooms)
    }

    /// The latest messages of room `room_id`, oldest first.
    pub fn list_messages(&self, room_id: &str) -> (r: Vec<ChatMessage>)
        ensures
            messages_view(r@) == latest(room_messages(self@.messages, room_id@)),
    {
        let ghost model = self@.messages;
        let ghost pred = |m: MessageModel| m.room_id == room_id@;
        let mut matching: Vec<ChatMessage> = Vec::new();
        let mut i: usize = 0;
        while i < self.messages.len()
            invariant
                i <= self.messages@.len(),
                model == messages_view(self.messages@),
                pred == (|m: MessageModel| m.room_id == room_id@),
                messages_view(matching@) == model.take(i as int).filter(pred),
            decreases self.messages.len() - i,
        {
            assert(model.take(i + 1).drop_last() =~= model.take(i as int));
            let m = &self.messages[i];
            assert(model[i as int] == m@);
            assert(model.take(i + 1).last() == m@);
            reveal_with_fuel(Seq::<_>::filter, 1);
            let keep = str_eq(m.room_id.as_str(), room_id);
            assert(pred(m@) == keep);
            if keep {
                let ghost before = messages_view(matching@);
                matching.push(m.clone());
                assert(messages_view(matching@) =~= before.push(m@));
            }
            i = i + 1;
        }
        assert(model.take(i as int) =~= model);
        let ghost all = messages_view(matching@);
        let start = if matching.len() > LISTED_MESSAGES {
            matching.len() - LISTED_MESSAGES
        } else {
            0
        };
        let mut out: Vec<ChatMessage> = Vec::new();
        let mut k = start;
        while k < matching.len()
            invariant
                start <= k <= matching@.len(),
                all == messages_view(matching@),
                messages_view(out@) == all.subrange(start as int, k as int),
            decreases matching.len() - k,
        {
            let ghost before = messages_view(out@);
            let item = matching[k].clone();
            assert(item@ == all[k as int]);
            out.push(item);
            assert(messages_view(out@) =~= before.push(all[k as int]));
            assert(all.subrange(start as int, k + 1) =~= all.subrange(start as int, k as int).push(all[k as int]));
            k = k + 1;
        }
        assert(all.subrange(start as int, matching.len() as int) =~= latest(all));
        out
    }

    /// The room `room_id`, unless it is missing or deleted.
    pub fn find_room(&self, room_id: &str) -> (r: Option<ChatRoom>)
        ensures
            match r {
                Some(c) => room_index(self@.rooms, room_id@, true) >= 0 && c@ == self@.rooms[room_index(
                    self@.rooms,
                    room_id@,
                    true,
                )],
                None => room_index(self@.rooms, room_id@, true) == -1,
            },
    {
        match find_room_index(&self.rooms, room_id, true) {
            Some(i) => Some(self.rooms[i].clone()),
            None => None,
        }
    }

    /// Whether this device belongs to the room: every device belongs to the
    /// main room.
    pub fn is_local_member(&self, room: &ChatRoom) -> (r: bool)
        ensures
            r == (room.is_main || room@.member_ids.contains(self.local())),
    {
        room.is_main || contains_text(&room.member_ids, self.local_device_id.as_str())
    }

    /// Opens a room named `name` for the given members and its owner, created
    /// at `now` with id `room_id`.
    pub fn create_room_at(
        &mut self,
        name: String,
        member_ids: Vec<String>,
        owner_device_id: String,
        now: i64,
        room_id: String,
    ) -> (r: Result<ChatRoom, String>)
        ensures
            final(self).local() == old(self).local(),
            if clean_text(name@, 32).len() == 0 {
                r matches Err(e) && e@ == "聊天室名称不能为空"@ && final(self)@ == old(self)@
            } else if exists|i: int|
                0 <= i < old(self)@.rooms.len() && !(#[trigger] old(self)@.rooms[i]).deleted
                    && old(self)@.rooms[i].name == clean_text(name@, 32) {
                r matches Err(e) && e@ == "已存在同名聊天室"@ && final(self)@ == old(self)@
            } else {
                r matches Ok(c) && c@ == (ChatRoomModel {
                    room_id: room_id@,
                    name: clean_text(name@, 32),
                    owner_device_id: owner_device_id@,
                    member_ids: room_members(texts(member_ids@), owner_device_id@),
                    is_main: false,
                    created_at: now,
                    deleted: false,
                }) && final(self)@ == (ChatModel {
                    rooms: old(self)@.rooms.push(c@),
                    messages: old(self)@.messages,
                })
            },
    {
        let clean_name = match clean_room_name(name.as_str()) {
            Ok(n) => n,
            Err(e) => {
                return Err(e);
            },
        };
        let mut members = unique_ids(member_ids);
        if !contains_text(&members, owner_device_id.as_str()) {
            let ghost before = texts(members@);
            members.push(owner_device_id.clone());
            assert(texts(members@) =~= before.push(owner_device_id@));
        }
        let ghost model = self@.rooms;
        let mut i: usize = 0;
        while i < self.rooms.len()
            invariant
                i <= self.rooms@.len(),
                model == rooms_view(self.rooms@),
                self@ == old(self)@,
                self.local() == old(self).local(),
                clean_name@ == clean_text(name@, 32),
                clean_name@.len() > 0,
                forall|k: int| 0 <= k < i ==> !(!(#[trigger] model[k]).deleted && model[k].name == clean_name@),
            decreases self.rooms.len() - i,
        {
            assert(model[i as int] == self.rooms@[i as int]@);
            if !self.rooms[i].deleted && str_eq(self.rooms[i].name.as_str(), clean_name.as_str()) {
                assert(!old(self)@.rooms[i as int].deleted && old(self)@.rooms[i as int].name
                    == clean_text(name@, 32));
                return Err(text("已存在同名聊天室"));
            }
            i = i + 1;
        }
        let room = ChatRoom {
            room_id,
            name: clean_name,
            owner_device_id,
            member_ids: members,
            is_main: false,
            created_at: now,
            deleted: false,
        };
        let ghost before = rooms_view(self.rooms@);
        self.rooms.push(room.clone());
        assert(rooms_view(self.rooms@) =~= before.push(room@));
        Ok(room)
    }

    /// Opens a room with a fresh id.
    pub fn create_room(&mut self, name: String, member_ids: Vec<String>, owner_device_id: String) -> (r: Result<ChatRoom, String>)
        ensures
            final(self).local() == old(self).local(),
            if clean_text(name@, 32).len() == 0 {
                r matches Err(e) && e@ == "聊天室名称不能为空"@ && final(self)@ == old(self)@
            } else if exists|i: int|
                0 <= i < old(self)@.rooms.len() && !(#[trigger] old(self)@.rooms[i]).deleted
                    && old(self)@.rooms[i].name == clean_text(name@, 32) {
                r matches Err(e) && e@ == "已存在同名聊天室"@ && final(self)@ == old(self)@
            } else {
                r matches Ok(c) && c@ == (ChatRoomModel {
                    room_id: c@.room_id,
                    name: clean_text(name@, 32),
                    owner_device_id: owner_device_id@,
                    member_ids: room_members(texts(member_ids@), owner_device_id@),
                    is_main: false,
                    created_at: c@.created_at,
                    deleted: false,
                }) && final(self)@ == (ChatModel {
                    rooms: old(self)@.rooms.push(c@),
                    messages: old(self)@.messages,
                })
            },
    {
        let room_id = new_id();
        let now = now_secs();
        self.create_room_at(name, member_ids, owner_device_id, now, room_id)
    }

    /// Deletes the room `room_id` at the request of its owner.
    pub fn delete_room(&mut self, room_id: &str, requester_device_id: &str) -> (r: Result<ChatRoom, String>)
        ensures
            final(self).local() == old(self).local(),
            ({
                let i = room_index(old(self)@.rooms, room_id@, true);
                if i < 0 {
                    r matches Err(e) && e@ == "聊天室不存在"@ && final(self)@ == old(self)@
                } else if old(self)@.rooms[i].is_main {
                    r matches Err(e) && e@ == "主聊天室不能删除"@ && final(self)@ == old(self)@
                } else if old(self)@.rooms[i].owner_device_id != requester_device_id@ {
                    r matches Err(e) && e@ == "只有创建者可以删除聊天室"@ && final(self)@ == old(self)@
                } else {
                    let d = ChatRoomModel { deleted: true, ..old(self)@.rooms[i] };
                    r matches Ok(c) && c@ == d && final(self)@ == (ChatModel {
                        rooms: old(self)@.rooms.update(i, d),
                        messages: old(self)@.messages,
                    })
                }
            }),
    {
        let ghost model = self@.rooms;
        let i = match find_room_index(&self.rooms, room_id, true) {
            Some(i) => i,
            None => {
                return Err(text("聊天室不存在"));
            },
        };
        if self.rooms[i].is_main {
            return Err(text("主聊天室不能删除"));
        }
        if !str_eq(self.rooms[i].owner_device_id.as_str(), requester_device_id) {
            return Err(text("只有创建者可以删除聊天室"));
        }
        let mut room = self.rooms[i].clone();
        room.deleted = true;
        let ghost d = room@;
        self.rooms.set(i, room.clone());
        assert(rooms_view(self.rooms@) =~= model.update(i as int, d));
        Ok(room)
    }

    /// Marks the room `room_id` deleted, as its owner did elsewhere.
    pub fn remove_remote_room(&mut self, room_id: &str)
        ensures
            final(self).local() == old(self).local(),
            ({
                let i = room_index(old(self)@.rooms, room_id@, false);
                final(self)@ == if i < 0 {
                    old(self)@
                } else {
                    ChatModel {
                        rooms: old(self)@.rooms.update(i, ChatRoomModel { deleted: true, ..old(self)@.rooms[i] }),
                        messages: old(self)@.messages,
                    }
                }
            }),
    {
        let ghost model = self@.rooms;
        if let Some(i) = find_room_index(&self.rooms, room_id, false) {
            let mut room = self.rooms[i].clone();
            room.deleted = true;
            let ghost d = room@;
            self.rooms.set(i, room);
            assert(rooms_view(self.rooms@) =~= model.update(i as int, d));
        }
    }

    /// Stores a room as received.
    pub fn accept_room(&mut self, room: ChatRoom)
        ensures
            final(self).local() == old(self).local(),
            final(self)@ == (ChatModel {
                rooms: upsert_room(old(self)@.rooms, room@),
                messages: old(self)@.messages,
            }),
    {
        upsert_room_in(&mut self.rooms, room);
    }

    /// Stores a message with its room.
    fn insert_message(&mut self, room: ChatRoom, message: ChatMessage)
        ensures
            final(self).local() == old(self).local(),
            final(self)@ == inserted(old(self)@, room@, message@),
    {
        upsert_room_in(&mut self.rooms, room);
        let ghost msgs = messages_view(self.messages@);
        let ghost rooms_after = rooms_view(self.rooms@);
        let mut i: usize = 0;
        while i < self.messages.len()
            invariant
                i <= self.messages@.len(),
                msgs == messages_view(self.messages@),
                rooms_after == rooms_view(self.rooms@),
                rooms_after == upsert_room(old(self)@.rooms, room@),
                msgs == old(self)@.messages,
                self.local_device_id@ == old(self).local_device_id@,
                forall|k: int| 0 <= k < i ==> #[trigger] msgs[k].message_id != message@.message_id,
            decreases self.messages.len() - i,
        {
            assert(msgs[i as int] == self.messages@[i as int]@);
            if str_eq(self.messages[i].message_id.as_str(), message.message_id.as_str()) {
                assert(msgs[i as int].message_id == message@.message_id);
                return;
            }
            i = i + 1;
        }
        let ghost m = message@;
        self.messages.push(message);
        assert(messages_view(self.messages@) =~= msgs.push(m));
        if self.messages.len() > MESSAGE_LIMIT {
            let drop_count = self.messages.len() - MESSAGE_LIMIT;
            let ghost full = messages_view(self.messages@);
            let tail = self.messages.split_off(drop_count);
            self.messages = tail;
            assert(messages_view(self.messages@) =~= full.skip(drop_count as int));
        }
    }

    /// Stores a message received with its room.
    pub fn accept_message(&mut self, payload: ChatMessagePayload)
        ensures
            final(self).local() == old(self).local(),
            final(self)@ == inserted(old(self)@, payload.room@, payload.message@),
    {
        self.insert_message(payload.room, payload.message)
    }

    /// Posts a message to the room `room_id`, sent at `now` with id `message_id`.
    pub fn add_message_at(
        &mut self,
        room_id: String,
        sender_device_id: String,
        sender_name: String,
        avatar_hash: Option<String>,
        body: String,
        now: i64,
        message_id: String,
    ) -> (r: Result<ChatMessagePayload, String>)
        ensures
            final(self).local() == old(self).local(),
            ({
                let i = room_index(old(self)@.rooms, room_id@, true);
                if clean_text(body@, 1000).len() == 0 {
                    r matches Err(e) && e@ == "消息不能为空"@ && final(self)@ == old(self)@
                } else if i < 0 {
                    r matches Err(e) && e@ == "聊天室不存在"@ && final(self)@ == old(self)@
                } else {
                    let m = MessageModel {
                        message_id: message_id@,
                        room_id: room_id@,
                        sender_device_id: sender_device_id@,
                        sender_name: sender_name@,
                        avatar_hash: opt_view(avatar_hash),
                        body: clean_text(body@, 1000),
                        created_at: now,
                    };
                    r matches Ok(p) && p.room@ == old(self)@.rooms[i] && p.message@ == m
                        && final(self)@ == inserted(old(self)@, old(self)@.rooms[i], m)
                }
            }),
    {
        let body = match clean_message(body.as_str()) {
            Ok(b) => b,
            Err(e) => {
                return Err(e);
            },
        };
        let room = match self.find_room(room_id.as_str()) {
            Some(c) => c,
            None => {
                return Err(text("聊天室不存在"));
            },
        };
        let message = ChatMessage {
            message_id,
            room_id,
            sender_device_id,
            sender_name,
            avatar_hash,
            body,
            created_at: now,
        };
        self.insert_message(room.clone(), message.clone());
        Ok(ChatMessagePayload { room, message })
    }

    /// Posts a message with a fresh id.
    pub fn add_message(
        &mut self,
        room_id: String,
        sender_device_id: String,
        sender_name: String,
        avatar_hash: Option<String>,
        body: String,
    ) -> (r: Result<ChatMessagePayload, String>)
        ensures
            final(self).local() == old(self).local(),
            ({
                let i = room_index(old(self)@.rooms, room_id@, true);
                if clean_text(body@, 1000).len() == 0 {
                    r matches Err(e) && e@ == "消息不能为空"@ && final(self)@ == old(self)@
                } else if i < 0 {
                    r matches Err(e) && e@ == "聊天室不存在"@ && final(self)@ == old(self)@
                } else {
                    r matches Ok(p) && p.room@ == old(self)@.rooms[i] && p.message@ == (MessageModel {
                        message_id: p.message@.message_id,
                        room_id: room_id@,
                        sender_device_id: sender_device_id@,
                        sender_name: sender_name@,
                        avatar_hash: opt_view(avatar_hash),
                        body: clean_text(body@, 1000),
                        created_at: p.message@.created_at,
                    }) && final(self)@ == inserted(old(self)@, old(self)@.rooms[i], p.message@)
                }
            }),
    {
        let message_id = new_id();
        let now = now_secs();
        self.add_message_at(room_id, sender_device_id, sender_name, avatar_hash, body, now, message_id)
    }
}

} // verus!
