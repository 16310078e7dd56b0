use crate::digest::{sha256_text, text_digest};
use crate::system::{new_id, now_secs};
use crate::text::{
    chars_of, clean_chars, clean_text, opt_str_eq, opt_view, str_eq, string_of, trim, trimmed,
};
use url::Url;
use vstd::prelude::*;
use vstd::string::StringExecFns;

verus! {

/// How many chat messages a watch room keeps.
pub const WATCH_MESSAGE_LIMIT: usize = 200;

/// How many characters a room title keeps.
pub const TITLE_LIMIT: usize = 64;

#[derive(Clone, Copy, Debug, PartialEq, Eq, Structural)]
pub enum WatchRoomStatus {
    Active,
    Ended,
}

#[derive(Debug)]
pub struct WatchRoom {
    pub room_id: String,
    pub host_user_id: String,
    pub host_name: String,
    pub title: String,
    pub url: Option<String>,
    pub has_video_url: bool,
    pub is_private: bool,
    pub password_hash: Option<String>,
    pub member_count: usize,
    pub status: WatchRoomStatus,
    pub created_at: i64,
    pub updated_at: i64,
}

/// What a watch room says, with its strings as character sequences.
pub struct WatchRoomModel {
    pub room_id: Seq<char>,
    pub host_user_id: Seq<char>,
    pub host_name: Seq<char>,
    pub title: Seq<char>,
    pub url: Option<Seq<char>>,
    pub has_video_url: bool,
    pub is_private: bool,
    pub password_hash: Option<Seq<char>>,
    pub member_count: usize,
    pub status: WatchRoomStatus,
    pub created_at: i64,
    pub updated_at: i64,
}

impl View for WatchRoom {
    type V = WatchRoomModel;

    open spec fn view(&self) -> WatchRoomModel {
        WatchRoomModel {
            room_id: self.room_id@,
            host_user_id: self.host_user_id@,
            host_name: self.host_name@,
            title: self.title@,
            url: opt_view(self.url),
            has_video_url: self.has_video_url,
            is_private: self.is_private,
            password_hash: opt_view(self.password_hash),
            member_count: self.member_count,
            status: self.status,
            created_at: self.created_at,
            updated_at: self.updated_at,
        }
    }
}

impl Clone for WatchRoom {
    fn clone(&self) -> (r: Self)
        ensures
            r@ == self@,
    {
        WatchRoom {
            room_id: self.room_id.clone(),
            host_user_id: self.host_user_id.clone(),
            host_name: self.host_name.clone(),
            title: self.title.clone(),
            url: self.url.clone(),
            has_video_url: self.has_video_url,
            is_private: self.is_private,
            password_hash: self.password_hash.clone(),
            member_count: self.member_count,
            status: self.status,
            created_at: self.created_at,
            updated_at: self.updated_at,
        }
    }
}

#[derive(Debug, Clone)]
pub struct CreateWatchRoomInput {
    pub title: String,
    pub is_private: bool,
    pub password: Option<String>,
}

#[derive(Debug)]
pub struct WatchRoomSession {
    pub room: WatchRoom,
    pub is_host: bool,
}

#[derive(Debug)]
pub struct WatchJoinResult {
    pub room_id: String,
    pub target_user_id: String,
    pub accepted: bool,
    pub reason: Option<String>,
}

#[derive(Debug)]
pub struct WatchRoomChatMessage {
    pub message_id: String,
    pub room_id: String,
    pub sender_user_id: String,
    pub sender_name: String,
    pub body: String,
    pub created_at: i64,
    pub system: bool,
}

pub struct WatchMessageModel {
    pub message_id: Seq<char>,
    pub room_id: Seq<char>,
    pub sender_user_id: Seq<char>,
    pub sender_name: Seq<char>,
    pub body: Seq<char>,
    pub created_at: i64,
    pub system: bool,
}

impl View for WatchRoomChatMessage {
    type V = WatchMessageModel;

    open spec fn view(&self) -> WatchMessageModel {
        WatchMessageModel {
            message_id: self.message_id@,
            room_id: self.room_id@,
            sender_user_id: self.sender_user_id@,
            sender_name: self.sender_name@,
            body: self.body@,
            created_at: self.created_at,
            system: self.system,
        }
    }
}

impl Clone for WatchRoomChatMessage {
    fn clone(&self) -> (r: Self)
        ensures
            r@ == self@,
    {
        WatchRoomChatMessage {
            message_id: self.message_id.clone(),
            room_id: self.room_id.clone(),
            sender_user_id: self.sender_user_id.clone(),
            sender_name: self.sender_name.clone(),
            body: self.body.clone(),
            created_at: self.created_at,
            system: self.system,
        }
    }
}

#[derive(Debug, Clone)]
pub struct WatchRoomVideoStatus {
    pub room_id: String,
    pub phase: String,
    pub message: String,
}

#[derive(Debug)]
pub struct WatchRoomCreateMessage {
    pub message_type: String,
    pub room: WatchRoom,
}

#[derive(Debug)]
pub struct WatchRoomStateMessage {
    pub message_type: String,
    pub room: WatchRoom,
}

#[derive(Debug, Clone)]
pub struct WatchRoomJoinRequest {
    pub message_type: String,
    pub room_id: String,
    pub user_id: String,
    pub nickname: String,
    pub password_hash: Option<String>,
}

#[derive(Debug, Clone)]
pub struct WatchRoomLeaveMessage {
    pub message_type: String,
    pub room_id: String,
    pub user_id: String,
}

#[derive(Debug, Clone)]
pub struct WatchRoomEndMessage {
    pub message_type: String,
    pub room_id: String,
    pub host_user_id: String,
    pub reason: String,
}

#[derive(Debug, Clone)]
pub struct WatchRoomUrlUpdateMessage {
    pub message_type: String,
    pub room_id: String,
    pub host_user_id: String,
    pub url: String,
    pub updated_at: i64,
}

#[derive(Debug)]
pub struct WatchRoomChatEnvelope {
    pub message_type: String,
    pub message: WatchRoomChatMessage,
}

// ---------------------------------------------------------------------------
// The url crate.
// ---------------------------------------------------------------------------

/// The scheme of `text` when the url crate parses it as an absolute URL, or
/// `None` when it does not parse.
pub uninterp spec fn url_scheme_of(text: Seq<char>) -> Option<Seq<char>>;

/// `Url::parse` (url), and of the parsed URL its `scheme()`: the scheme of
/// `text` when it parses, `None` when it does not.
#[verifier::external_body]
fn url_scheme(text: &str) -> (r: Option<String>)
    ensures
        opt_view(r) == url_scheme_of(text@),
{
    Url::parse(text).ok().map(|url| url.scheme().to_string())
}

// ---------------------------------------------------------------------------
// Helpers.
// ---------------------------------------------------------------------------

fn text(s: &str) -> (r: String)
    ensures
        r@ == s@,
{
    s.to_string()
}

fn joined(a: &str, b: &str) -> (r: String)
    ensures
        r@ == a@ + b@,
{
    let mut out = a.to_string();
    out.append(b);
    out
}

/// The key under which a pending join waits: the room id and the user id.
pub fn join_key(room_id: &str, user_id: &str) -> (r: String)
    ensures
        r@ == room_id@ + ":"@ + user_id@,
{
    let first = joined(room_id, ":");
    joined(first.as_str(), user_id)
}

/// A room's title: the trimmed title cut to 64 characters, or, when that is
/// empty, "<nickname> 的观影房间" with the trimmed nickname.
pub open spec fn title_of(value: Seq<char>, nickname: Seq<char>) -> Seq<char> {
    if clean_text(value, TITLE_LIMIT as nat).len() == 0 {
        trim(nickname) + " 的观影房间"@
    } else {
        clean_text(value, TITLE_LIMIT as nat)
    }
}

pub fn normalize_title(value: &str, nickname: &str) -> (r: String)
    ensures
        r@ == title_of(value@, nickname@),
{
    let title = clean_chars(value, TITLE_LIMIT);
    if title.as_str().is_empty() {
        let name = trimmed(nickname);
        joined(name.as_str(), " 的观影房间")
    } else {
        title
    }
}

/// Whether a URL's scheme is one a room plays from.
pub open spec fn web_scheme(scheme: Seq<char>) -> bool {
    scheme == "http"@ || scheme == "https"@
}

/// The video URL a room accepts, trimmed, or the error for it.
pub open spec fn watch_url_of(value: Seq<char>) -> Result<Seq<char>, Seq<char>> {
    match url_scheme_of(trim(value)) {
        None => Err("视频网页链接无效"@),
        Some(scheme) => if web_scheme(scheme) {
            Ok(trim(value))
        } else {
            Err("仅支持 http/https 视频网页链接"@)
        },
    }
}

/// The view of a text result.
pub open spec fn result_view(r: Result<String, String>) -> Result<Seq<char>, Seq<char>> {
    match r {
        Ok(s) => Ok(s@),
        Err(e) => Err(e@),
    }
}

/// Checks a video URL: it must parse, with the http or https scheme.
pub fn validate_watch_url(value: &str) -> (r: Result<String, String>)
    ensures
        result_view(r) == watch_url_of(value@),
{
    let url = trimmed(value);
    match url_scheme(url.as_str()) {
        None => Err(text("视频网页链接无效")),
        Some(scheme) => {
            if str_eq(scheme.as_str(), "http") || str_eq(scheme.as_str(), "https") {
                Ok(url)
            } else {
                Err(text("仅支持 http/https 视频网页链接"))
            }
        },
    }
}

/// The stored form of a room password: its digest, marked as such.
pub open spec fn hashed(value: Seq<char>) -> Seq<char> {
    "sha256:"@ + text_digest(value)
}

/// The stored form of a room password.
pub fn hash_text(value: &str) -> (r: String)
    ensures
        r@ == hashed(value@),
{
    let digest = sha256_text(value);
    joined("sha256:", digest.as_str())
}

/// The text of an optional string slice, the empty text for `None`.
pub open spec fn opt_str_text(value: Option<&str>) -> Seq<char> {
    match value {
        Some(s) => s@,
        None => Seq::empty(),
    }
}

/// The stored form of a private room's password, which must not be blank.
pub fn hash_required_password(value: Option<&str>) -> (r: Result<String, String>)
    ensures
        match r {
            Ok(h) => trim(opt_str_text(value)).len() > 0 && h@ == hashed(
                trim(opt_str_text(value)),
            ),
            Err(e) => trim(opt_str_text(value)).len() == 0 && e@ == "密码房间必须设置密码"@,
        },
{
    let value = match value {
        Some(v) => trimmed(v),
        None => {
            assert(trim(Seq::<char>::empty()) =~= Seq::<char>::empty());
            String::new()
        },
    };
    if value.as_str().is_empty() {
        Err(text("密码房间必须设置密码"))
    } else {
        Ok(hash_text(value.as_str()))
    }
}

/// The label of a room's own window.
pub fn watch_window_label(room_id: &str) -> (r: String)
    ensures
        r@ == "watch-room-"@ + room_id@,
{
    joined("watch-room-", room_id)
}

/// The label of the web view that shows a room's video page.
pub fn watch_content_webview_label(room_id: &str) -> (r: String)
    ensures
        r@ == "watch-content-"@ + room_id@,
{
    joined("watch-content-", room_id)
}

/// The system message `body` in room `room_id`, under `message_id`, at `now`.
pub open spec fn system_message_of(
    room_id: Seq<char>,
    sender_name: Seq<char>,
    body: Seq<char>,
    message_id: Seq<char>,
    now: i64,
) -> WatchMessageModel {
    WatchMessageModel {
        message_id,
        room_id,
        sender_user_id: "system"@,
        sender_name,
        body,
        created_at: now,
        system: true,
    }
}

pub fn system_message_at(
    room_id: &str,
    sender_name: &str,
    body: &str,
    message_id: String,
    now: i64,
) -> (r: WatchRoomChatMessage)
    ensures
        r@ == system_message_of(room_id@, sender_name@, body@, message_id@, now),
{
    WatchRoomChatMessage {
        message_id,
        room_id: text(room_id),
        sender_user_id: text("system"),
        sender_name: text(sender_name),
        body: text(body),
        created_at: now,
        system: true,
    }
}

/// A system message with a fresh id, stamped now.
pub fn system_message(room_id: &str, sender_name: &str, body: &str) -> (r: WatchRoomChatMessage)
    ensures
        exists|id: Seq<char>, now: i64|
            r@ == #[trigger] system_message_of(room_id@, sender_name@, body@, id, now),
{
    system_message_at(room_id, sender_name, body, new_id(), now_secs())
}

} // verus!
