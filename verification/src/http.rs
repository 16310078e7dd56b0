use crate::numbers::{decimal_of, decimal_text, parse_i64, parsed_i64};
use crate::pieces::{
    before_char, lemma_split_on_len, lemma_word_at, second_piece, second_piece_text, split_char,
    split_on, starts_with, strip_char, strip_char_text, strip_prefixes, strip_prefixes_text,
    text_starts_with, texts, word_at, opt_text,
};
use crate::text::{
    chars_of, is_white_space, lemma_trim_start_at, str_eq, string_of, trim_start, white_space,
};
use vstd::prelude::*;
use vstd::string::StringExecFns;

verus! {

// ---------------------------------------------------------------------------
// Reading a request that another device sent to this one.
// ---------------------------------------------------------------------------

/// The first line of a request, as `str::lines` gives it: the text before the
/// first line feed, without a carriage return just before it; all of it when
/// it has no line feed.
pub open spec fn first_line(t: Seq<char>) -> Seq<char> {
    if exists|k: int| 0 <= k < t.len() && t[k] == '\n' {
        let k = choose|k: int|
            0 <= k < t.len() && t[k] == '\n' && forall|j: int| 0 <= j < k ==> #[trigger] t[j] != '\n';
        if k > 0 && t[k - 1] == '\r' {
            t.take(k - 1)
        } else {
            t.take(k)
        }
    } else {
        t
    }
}

/// The method and the path of a request line: its first two words, when it
/// has two.
pub open spec fn request_target(line: Seq<char>) -> Option<(Seq<char>, Seq<char>)> {
    let a = trim_start(line);
    let method = word_at(a);
    let b = trim_start(a.skip(method.len() as int));
    let path = word_at(b);
    if method.len() > 0 && path.len() > 0 {
        Some((method, path))
    } else {
        None
    }
}

/// The body of a request or a response: the text after the blank line that
/// ends the head (up to a second such blank line), or nothing.
pub open spec fn body_of(t: Seq<char>) -> Seq<char> {
    match second_piece(t, "\r\n\r\n"@) {
        Some(b) => b,
        None => match second_piece(t, "\n\n"@) {
            Some(b) => b,
            None => Seq::empty(),
        },
    }
}

/// What a device's LAN API serves.
#[derive(Clone, Copy, Debug, PartialEq, Eq, Structural)]
pub enum LanRoute {
    NotFound,
    Manifest,
    Avatar,
    ShareVersion,
    DownloadsCompleted,
    ChatMessages,
    ChatRoomInvite,
    ChatRoomDelete,
    WatchRoomUpdate,
    WatchRoomEnd,
    WatchRoomJoin,
    WatchRoomLeave,
    WatchChatMessages,
    WatchSync,
    GameRoomUpdate,
    GameRoomEnd,
    GameRoomJoin,
    GameRoomLeave,
    GomokuMove,
    GomokuRestartRequest,
    GomokuRestartAccept,
    GomokuSurrender,
}

/// The route that answers `method` on `path`.
pub open spec fn route_of(method: Seq<char>, path: Seq<char>) -> LanRoute {
    if method == "GET"@ {
        if path == "/manifest"@ {
            LanRoute::Manifest
        } else if starts_with(path, "/avatars/"@) {
            LanRoute::Avatar
        } else if starts_with(path, "/shares/"@) {
            let parts = split_on(strip_char(path, '/'), '/');
            if parts.len() == 4 && parts[2] == "versions"@ {
                LanRoute::ShareVersion
            } else {
                LanRoute::NotFound
            }
        } else {
            LanRoute::NotFound
        }
    } else if method == "POST"@ {
        post_route(path)
    } else {
        LanRoute::NotFound
    }
}

/// The route that answers a POST to `path`.
pub open spec fn post_route(path: Seq<char>) -> LanRoute {
    if path == "/downloads/completed"@ {
        LanRoute::DownloadsCompleted
    } else if path == "/chat/messages"@ {
        LanRoute::ChatMessages
    } else if path == "/chat/rooms/invite"@ {
        LanRoute::ChatRoomInvite
    } else if path == "/chat/rooms/delete"@ {
        LanRoute::ChatRoomDelete
    } else if path == "/watch/rooms/update"@ {
        LanRoute::WatchRoomUpdate
    } else if path == "/watch/rooms/end"@ {
        LanRoute::WatchRoomEnd
    } else if path == "/watch/rooms/join"@ {
        LanRoute::WatchRoomJoin
    } else if path == "/watch/rooms/leave"@ {
        LanRoute::WatchRoomLeave
    } else if path == "/watch/chat/messages"@ {
        LanRoute::WatchChatMessages
    } else if path == "/watch/sync"@ {
        LanRoute::WatchSync
    } else if path == "/games/rooms/update"@ {
        LanRoute::GameRoomUpdate
    } else if path == "/games/rooms/end"@ {
        LanRoute::GameRoomEnd
    } else if path == "/games/rooms/join"@ {
        LanRoute::GameRoomJoin
    } else if path == "/games/rooms/leave"@ {
        LanRoute::GameRoomLeave
    } else if path == "/games/gomoku/move"@ {
        LanRoute::GomokuMove
    } else if path == "/games/gomoku/restart/request"@ {
        LanRoute::GomokuRestartRequest
    } else if path == "/games/gomoku/restart/accept"@ {
        LanRoute::GomokuRestartAccept
    } else if path == "/games/gomoku/surrender"@ {
        LanRoute::GomokuSurrender
    } else {
        LanRoute::NotFound
    }
}

/// The avatar digest a path asks for: after every leading "/avatars/", up to
/// the query.
pub open spec fn avatar_hash_of(path: Seq<char>) -> Seq<char> {
    before_char(strip_prefixes(path, "/avatars/"@), '?')
}

/// The share id that a share path names.
pub open spec fn share_id_of(path: Seq<char>) -> Seq<char> {
    split_on(strip_char(path, '/'), '/')[1]
}

/// The version that a share path names; 0 when it is not a number.
pub open spec fn share_version_of(path: Seq<char>) -> i64 {
    match parsed_i64(split_on(strip_char(path, '/'), '/')[3]) {
        Some(v) => v,
        None => 0,
    }
}

/// A request to this device's LAN API, read: where it goes, what it names
/// (the avatar digest or the share id), the share version, and its body.
#[derive(Debug)]
pub struct LanRequest {
    pub route: LanRoute,
    pub target: String,
    pub version: i64,
    pub body: String,
}

/// The request that `text` holds, read as this device's LAN API reads it;
/// `None` when its first line has no method and path.
pub open spec fn lan_request_of(text: Seq<char>) -> Option<(LanRoute, Seq<char>, i64, Seq<char>)> {
    match request_target(first_line(text)) {
        None => None,
        Some((method, path)) => {
            let route = route_of(method, path);
            Some(
                (
                    route,
                    if route == LanRoute::Avatar {
                        avatar_hash_of(path)
                    } else if route == LanRoute::ShareVersion {
                        share_id_of(path)
                    } else {
                        Seq::empty()
                    },
                    if route == LanRoute::ShareVersion {
                        share_version_of(path)
                    } else {
                        0
                    },
                    body_of(text),
                ),
            )
        },
    }
}

/// The view of a read request.
pub open spec fn lan_request_view(r: Option<LanRequest>) -> Option<(LanRoute, Seq<char>, i64, Seq<char>)> {
    match r {
        Some(q) => Some((q.route, q.target@, q.version, q.body@)),
        None => None,
    }
}

fn text(s: &str) -> (r: String)
    ensures
        r@ == s@,
{
    s.to_string()
}

/// The first line of `chars`.
fn first_line_exec(chars: &Vec<char>) -> (r: String)
    ensures
        r@ == first_line(chars@),
{
    let ghost t = chars@;
    let mut k: usize = 0;
    while k < chars.len() && chars[k] != '\n'
        invariant
            k <= chars@.len(),
            forall|j: int| 0 <= j < k ==> #[trigger] chars@[j] != '\n',
        decreases chars@.len() - k,
    {
        k = k + 1;
    }
    if k == chars.len() {
        assert(!exists|j: int| 0 <= j < t.len() && t[j] == '\n');
        assert(t.subrange(0, k as int) =~= t);
        return string_of(chars, 0, k);
    }
    proof {
        let c = choose|c: int|
            0 <= c < t.len() && t[c] == '\n' && forall|j: int| 0 <= j < c ==> #[trigger] t[j] != '\n';
        if c < k {
            assert(t[c] != '\n');
        } else if c > k {
            assert(t[k as int] != '\n');
        }
    }
    if k > 0 && chars[k - 1] == '\r' {
        string_of(chars, 0, k - 1)
    } else {
        string_of(chars, 0, k)
    }
}

/// The method and path of a request line.
fn request_target_exec(line: &str) -> (r: Option<(String, String)>)
    ensures
        match r {
            Some((m, p)) => request_target(line@) == Some((m@, p@)),
            None => request_target(line@) is None,
        },
{
    let chars = chars_of(line);
    let n = chars.len();
    let mut a: usize = 0;
    while a < n && white_space(chars[a])
        invariant
            a <= n == chars@.len(),
            forall|j: int| 0 <= j < a ==> is_white_space(#[trigger] chars@[j]),
        decreases n - a,
    {
        a = a + 1;
    }
    proof {
        lemma_trim_start_at(chars@, a as int);
    }
    let mut b: usize = a;
    while b < n && !white_space(chars[b])
        invariant
            a <= b <= n == chars@.len(),
            forall|j: int| a <= j < b ==> !is_white_space(#[trigger] chars@[j]),
        decreases n - b,
    {
        b = b + 1;
    }
    let ghost s1 = chars@.subrange(a as int, n as int);
    proof {
        assert forall|j: int| 0 <= j < b - a implies !is_white_space(#[trigger] s1[j]) by {
            assert(s1[j] == chars@[a + j]);
        }
        if b < n {
            assert(s1[b - a] == chars@[b as int]);
        }
        lemma_word_at(s1, b - a);
        assert(s1.take(b - a) =~= chars@.subrange(a as int, b as int));
    }
    let mut c: usize = b;
    while c < n && white_space(chars[c])
        invariant
            b <= c <= n == chars@.len(),
            forall|j: int| b <= j < c ==> is_white_space(#[trigger] chars@[j]),
        decreases n - c,
    {
        c = c + 1;
    }
    let ghost s2 = s1.skip(b - a);
    proof {
        assert(s2 =~= chars@.subrange(b as int, n as int));
        assert forall|j: int| 0 <= j < c - b implies is_white_space(#[trigger] s2[j]) by {
            assert(s2[j] == chars@[b + j]);
        }
        if c < n {
            assert(s2[c - b] == chars@[c as int]);
        }
        lemma_trim_start_at(s2, c - b);
    }
    let mut d: usize = c;
    while d < n && !white_space(chars[d])
        invariant
            c <= d <= n == chars@.len(),
            forall|j: int| c <= j < d ==> !is_white_space(#[trigger] chars@[j]),
        decreases n - d,
    {
        d = d + 1;
    }
    let ghost s3 = s2.subrange(c - b, s2.len() as int);
    proof {
        assert(s3 =~= chars@.subrange(c as int, n as int));
        assert forall|j: int| 0 <= j < d - c implies !is_white_space(#[trigger] s3[j]) by {
            assert(s3[j] == chars@[c + j]);
        }
        if d < n {
            assert(s3[d - c] == chars@[d as int]);
        }
        lemma_word_at(s3, d - c);
        assert(s3.take(d - c) =~= chars@.subrange(c as int, d as int));
    }
    if b == a || d == c {
        return None;
    }
    Some((string_of(&chars, a, b), string_of(&chars, c, d)))
}

/// The method and path of a request's first line; `None` when the line does
/// not hold both.
pub fn request_line(request: &str) -> (r: Option<(String, String)>)
    ensures
        match r {
            Some((m, p)) => request_target(first_line(request@)) == Some((m@, p@)),
            None => request_target(first_line(request@)) is None,
        },
{
    let chars = chars_of(request);
    let line = first_line_exec(&chars);
    request_target_exec(line.as_str())
}

/// The body of a request or a response.
pub fn body_text(t: &str) -> (r: String)
    ensures
        r@ == body_of(t@),
{
    proof {
        reveal_strlit("\r\n\r\n");
        reveal_strlit("\n\n");
    }
    match second_piece_text(t, "\r\n\r\n") {
        Some(b) => b,
        None => match second_piece_text(t, "\n\n") {
            Some(b) => b,
            None => String::new(),
        },
    }
}

fn post_route_exec(path: &str) -> (r: LanRoute)
    ensures
        r == post_route(path@),
{
    if str_eq(path, "/downloads/completed") {
        LanRoute::DownloadsCompleted
    } else if str_eq(path, "/chat/messages") {
        LanRoute::ChatMessages
    } else if str_eq(path, "/chat/rooms/invite") {
        LanRoute::ChatRoomInvite
    } else if str_eq(path, "/chat/rooms/delete") {
        LanRoute::ChatRoomDelete
    } else if str_eq(path, "/watch/rooms/update") {
        LanRoute::WatchRoomUpdate
    } else if str_eq(path, "/watch/rooms/end") {
        LanRoute::WatchRoomEnd
    } else if str_eq(path, "/watch/rooms/join") {
        LanRoute::WatchRoomJoin
    } else if str_eq(path, "/watch/rooms/leave") {
        LanRoute::WatchRoomLeave
    } else if str_eq(path, "/watch/chat/messages") {
        LanRoute::WatchChatMessages
    } else if str_eq(path, "/watch/sync") {
        LanRoute::WatchSync
    } else if str_eq(path, "/games/rooms/update") {
        LanRoute::GameRoomUpdate
    } else if str_eq(path, "/games/rooms/end") {
        LanRoute::GameRoomEnd
    } else if str_eq(path, "/games/rooms/join") {
        LanRoute::GameRoomJoin
    } else if str_eq(path, "/games/rooms/leave") {
        LanRoute::GameRoomLeave
    } else if str_eq(path, "/games/gomoku/move") {
        LanRoute::GomokuMove
    } else if str_eq(path, "/games/gomoku/restart/request") {
        LanRoute::GomokuRestartRequest
    } else if str_eq(path, "/games/gomoku/restart/accept") {
        LanRoute::GomokuRestartAccept
    } else if str_eq(path, "/games/gomoku/surrender") {
        LanRoute::GomokuSurrender
    } else {
        LanRoute::NotFound
    }
}

/// Reads a request to this device's LAN API.  `None` stands for a request
/// whose first line has no method and path, which is answered 400.
pub fn parse_lan_request(request: &str) -> (r: Option<LanRequest>)
    ensures
        lan_request_view(r) == lan_request_of(request@),
{
    let chars = chars_of(request);
    let line = first_line_exec(&chars);
    let (method, path) = match request_target_exec(line.as_str()) {
        Some(t) => t,
        None => {
            return None;
        },
    };
    let body = body_text(request);
    let mut target = String::new();
    let mut version: i64 = 0;
    let route = if str_eq(method.as_str(), "GET") {
        if str_eq(path.as_str(), "/manifest") {
            LanRoute::Manifest
        } else if text_starts_with(path.as_str(), "/avatars/") {
            let rest = strip_prefixes_text(path.as_str(), "/avatars/");
            let parts = split_char(rest.as_str(), '?');
            target = parts[0].clone();
            LanRoute::Avatar
        } else if text_starts_with(path.as_str(), "/shares/") {
            let inner = strip_char_text(path.as_str(), '/');
            let parts = split_char(inner.as_str(), '/');
            if parts.len() == 4 && str_eq(parts[2].as_str(), "versions") {
                assert(texts(parts@)[2] == parts@[2]@);
                assert(texts(parts@)[1] == parts@[1]@);
                assert(texts(parts@)[3] == parts@[3]@);
                target = parts[1].clone();
                version = match parse_i64(parts[3].as_str()) {
                    Some(v) => v,
                    None => 0,
                };
                LanRoute::ShareVersion
            } else {
                proof {
                    if texts(parts@).len() == 4 {
                        assert(texts(parts@)[2] == parts@[2]@);
                    }
                }
                LanRoute::NotFound
            }
        } else {
            LanRoute::NotFound
        }
    } else if str_eq(method.as_str(), "POST") {
        post_route_exec(path.as_str())
    } else {
        LanRoute::NotFound
    };
    proof {
        if route == LanRoute::Avatar {
            let rest = strip_prefixes(path@, "/avatars/"@);
            lemma_split_on_len(rest, '?');
        }
    }
    Some(LanRequest { route, target, version, body })
}

// ---------------------------------------------------------------------------
// Answers and requests on the wire.
// ---------------------------------------------------------------------------

/// The reason phrase this device's LAN API gives with a status.
pub open spec fn reason_of(status: u16) -> Seq<char> {
    if status == 200 {
        "OK"@
    } else if status == 202 {
        "Accepted"@
    } else if status == 400 {
        "Bad Request"@
    } else if status == 404 {
        "Not Found"@
    } else {
        "OK"@
    }
}

/// The number of UTF-8 bytes of a text.
pub open spec fn byte_len(s: Seq<char>) -> nat {
    vstd::utf8::encode_utf8(s).len()
}

/// A JSON answer with `status` and `body`.
pub open spec fn json_response_of(status: u16, body: Seq<char>) -> Seq<char> {
    "HTTP/1.1 "@ + decimal_of(status as nat) + " "@ + reason_of(status)
        + "\r\nContent-Type: application/json; charset=utf-8\r\nContent-Length: "@ + decimal_of(
        byte_len(body),
    ) + "\r\nConnection: close\r\n\r\n"@ + body
}

fn joined(a: String, b: &str) -> (r: String)
    ensures
        r@ == a@ + b@,
{
    let mut a = a;
    a.append(b);
    a
}

fn reason_text(status: u16) -> (r: &'static str)
    ensures
        r@ == reason_of(status),
{
    if status == 200 {
        "OK"
    } else if status == 202 {
        "Accepted"
    } else if status == 400 {
        "Bad Request"
    } else if status == 404 {
        "Not Found"
    } else {
        "OK"
    }
}

/// The answer this device's LAN API writes: the status line, the JSON
/// headers and the body.
pub fn json_response(status: u16, body: &str) -> (r: String)
    ensures
        r@ == json_response_of(status, body@),
{
    let code = decimal_text(status as u64);
    let n = body.as_bytes().len();
    assert(n as nat == byte_len(body@));
    let len = decimal_text(n as u64);
    let s = joined(text("HTTP/1.1 "), code.as_str());
    let s = joined(s, " ");
    let s = joined(s, reason_text(status));
    let s = joined(s, "\r\nContent-Type: application/json; charset=utf-8\r\nContent-Length: ");
    let s = joined(s, len.as_str());
    let s = joined(s, "\r\nConnection: close\r\n\r\n");
    joined(s, body)
}

/// The ASCII lower case of a text, as `str::to_ascii_lowercase` gives it.
pub open spec fn ascii_lower(s: Seq<char>) -> Seq<char> {
    s.map_values(|c: char| if 'A' <= c && c <= 'Z' { ((c as u32) + 32) as char } else { c })
}

/// `s.to_ascii_lowercase()`.
pub fn ascii_lowercase(s: &str) -> (r: String)
    ensures
        r@ == ascii_lower(s@),
{
    let chars = chars_of(s);
    let mut out = String::new();
    let mut i: usize = 0;
    while i < chars.len()
        invariant
            i <= chars@.len(),
            chars@ == s@,
            out@ == ascii_lower(s@).take(i as int),
        decreases chars@.len() - i,
    {
        let c = chars[i];
        let l = if 'A' <= c && c <= 'Z' {
            ((c as u8) + 32) as char
        } else {
            c
        };
        crate::text::push_char(&mut out, l);
        assert(ascii_lower(s@).take(i + 1) =~= ascii_lower(s@).take(i as int).push(l));
        i = i + 1;
    }
    assert(ascii_lower(s@).take(i as int) =~= ascii_lower(s@));
    out
}

/// The content type an avatar is served with, by its file extension.
pub open spec fn avatar_content_type_of(extension: Seq<char>) -> Seq<char> {
    if ascii_lower(extension) == "png"@ {
        "image/png"@
    } else if ascii_lower(extension) == "webp"@ {
        "image/webp"@
    } else {
        "image/jpeg"@
    }
}

/// The content type for an avatar file with this extension.
pub fn avatar_content_type(extension: &str) -> (r: &'static str)
    ensures
        r@ == avatar_content_type_of(extension@),
{
    let lower = ascii_lowercase(extension);
    if str_eq(lower.as_str(), "png") {
        "image/png"
    } else if str_eq(lower.as_str(), "webp") {
        "image/webp"
    } else {
        "image/jpeg"
    }
}

/// The head of an avatar answer of `len` bytes.
pub open spec fn avatar_head_of(content_type: Seq<char>, len: u64) -> Seq<char> {
    "HTTP/1.1 200 OK\r\nContent-Type: "@ + content_type + "\r\nContent-Length: "@ + decimal_of(
        len as nat,
    ) + "\r\nCache-Control: max-age=86400\r\nConnection: close\r\n\r\n"@
}

pub fn avatar_head(content_type: &str, len: u64) -> (r: String)
    ensures
        r@ == avatar_head_of(content_type@, len),
{
    let n = decimal_text(len);
    let s = joined(text("HTTP/1.1 200 OK\r\nContent-Type: "), content_type);
    let s = joined(s, "\r\nContent-Length: ");
    let s = joined(s, n.as_str());
    joined(s, "\r\nCache-Control: max-age=86400\r\nConnection: close\r\n\r\n")
}

/// A request for another device's manifest.
pub open spec fn manifest_request_of(ip: Seq<char>, port: u16) -> Seq<char> {
    "GET /manifest HTTP/1.1\r\nHost: "@ + ip + ":"@ + decimal_of(port as nat)
        + "\r\nConnection: close\r\n\r\n"@
}

pub fn manifest_request(ip: &str, port: u16) -> (r: String)
    ensures
        r@ == manifest_request_of(ip@, port),
{
    let p = decimal_text(port as u64);
    let s = joined(text("GET /manifest HTTP/1.1\r\nHost: "), ip);
    let s = joined(s, ":");
    let s = joined(s, p.as_str());
    joined(s, "\r\nConnection: close\r\n\r\n")
}

/// The body of another device's answer, which must have one.
pub fn response_body(response: &str) -> (r: Result<String, String>)
    ensures
        match r {
            Ok(b) => b@ == body_of(response@) && (second_piece(response@, "\r\n\r\n"@) is Some
                || second_piece(response@, "\n\n"@) is Some),
            Err(e) => e@ == "manifest 响应无正文"@ && second_piece(response@, "\r\n\r\n"@) is None
                && second_piece(response@, "\n\n"@) is None,
        },
{
    proof {
        reveal_strlit("\r\n\r\n");
        reveal_strlit("\n\n");
    }
    match second_piece_text(response, "\r\n\r\n") {
        Some(b) => Ok(b),
        None => match second_piece_text(response, "\n\n") {
            Some(b) => Ok(b),
            None => Err(text("manifest 响应无正文")),
        },
    }
}

/// A JSON POST to `path` on another device.
pub open spec fn json_post_of(
    path: Seq<char>,
    ip: Seq<char>,
    port: u16,
    content_type: Seq<char>,
    body: Seq<char>,
) -> Seq<char> {
    "POST "@ + path + " HTTP/1.1\r\nHost: "@ + ip + ":"@ + decimal_of(port as nat)
        + "\r\nContent-Type: "@ + content_type + "\r\nContent-Length: "@ + decimal_of(
        byte_len(body),
    ) + "\r\nConnection: close\r\n\r\n"@ + body
}

/// The POST that carries `body` to `path` on the device at `ip`:`port`.
pub fn json_post(path: &str, ip: &str, port: u16, content_type: &str, body: &str) -> (r: String)
    ensures
        r@ == json_post_of(path@, ip@, port, content_type@, body@),
{
    let p = decimal_text(port as u64);
    let n = body.as_bytes().len();
    assert(n as nat == byte_len(body@));
    let len = decimal_text(n as u64);
    let s = joined(text("POST "), path);
    let s = joined(s, " HTTP/1.1\r\nHost: ");
    let s = joined(s, ip);
    let s = joined(s, ":");
    let s = joined(s, p.as_str());
    let s = joined(s, "\r\nContent-Type: ");
    let s = joined(s, content_type);
    let s = joined(s, "\r\nContent-Length: ");
    let s = joined(s, len.as_str());
    let s = joined(s, "\r\nConnection: close\r\n\r\n");
    joined(s, body)
}

/// How the LAN API answers a request: taken and acted on, answered with a
/// result, naming nothing there is, or with a body it could not read.
#[derive(Clone, Copy, Debug, PartialEq, Eq, Structural)]
pub enum LanOutcome {
    Accepted,
    Answered,
    Missing,
    Unreadable,
}

/// The status of each outcome.
pub open spec fn outcome_status(outcome: LanOutcome) -> u16 {
    match outcome {
        LanOutcome::Accepted => 202,
        LanOutcome::Answered => 200,
        LanOutcome::Missing => 404,
        LanOutcome::Unreadable => 400,
    }
}

/// The HTTP status the LAN API answers an outcome with.
pub fn lan_status(outcome: LanOutcome) -> (r: u16)
    ensures
        r == outcome_status(outcome),
{
    match outcome {
        LanOutcome::Accepted => 202,
        LanOutcome::Answered => 200,
        LanOutcome::Missing => 404,
        LanOutcome::Unreadable => 400,
    }
}

} // verus!
