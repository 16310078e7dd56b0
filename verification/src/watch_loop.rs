use crate::text::{opt_str_eq, opt_view};
use vstd::prelude::*;
use vstd::string::StringExecFns;

verus! {

/// How long a room waits for its page's player to show, in milliseconds.
pub const VIDEO_DETECT_TIMEOUT_MS: u128 = 30000;

/// What probing a room's page found: no answer, a page without a player, or
/// a player.
#[derive(Clone, Copy, Debug, PartialEq, Eq, Structural)]
pub enum PlayerProbe {
    NoAnswer,
    NoPlayer,
    Player,
}

/// What a room's window knows of its video page: the URL shown, when the
/// player must have appeared by, whether it did, and the last status shown.
pub struct VideoWatch {
    current_url: Option<String>,
    deadline_ms: Option<u128>,
    video_ready: bool,
    last_status: String,
}

pub struct VideoWatchModel {
    pub current_url: Option<Seq<char>>,
    pub deadline_ms: Option<u128>,
    pub video_ready: bool,
    pub last_status: Seq<char>,
}

impl View for VideoWatch {
    type V = VideoWatchModel;

    closed spec fn view(&self) -> VideoWatchModel {
        VideoWatchModel {
            current_url: opt_view(self.current_url),
            deadline_ms: self.deadline_ms,
            video_ready: self.video_ready,
            last_status: self.last_status@,
        }
    }
}

/// How a status is told apart from the last one shown.
pub open spec fn status_key(phase: Seq<char>, message: Seq<char>) -> Seq<char> {
    phase + ":"@ + message
}

/// The status to show, unless it is the one shown last.
pub open spec fn shown(last: Seq<char>, phase: Seq<char>, message: Seq<char>) -> Option<(Seq<char>, Seq<char>)> {
    if status_key(phase, message) == last {
        None
    } else {
        Some((phase, message))
    }
}

/// The view of a status to show.
pub open spec fn status_view(s: Option<(String, String)>) -> Option<(Seq<char>, Seq<char>)> {
    match s {
        Some((p, m)) => Some((p@, m@)),
        None => None,
    }
}

/// The status shown when the room's URL changes to `url`.
pub open spec fn url_status(url: Option<Seq<char>>) -> (Seq<char>, Seq<char>) {
    if url is None {
        ("empty"@, "房主尚未设置视频链接，右侧聊天仍可正常使用。"@)
    } else {
        ("detecting"@, "正在检测网页播放器…"@)
    }
}

/// What a probe makes of the window: the status to show and the window after.
pub open spec fn probe_status(w: VideoWatchModel, probe: PlayerProbe, now_ms: u128) -> Option<(Seq<char>, Seq<char>)> {
    if !w.video_ready {
        if probe == PlayerProbe::Player {
            Some(("ready"@, "已检测到网页播放器，播放同步已就绪。"@))
        } else if w.deadline_ms matches Some(d) && now_ms >= d {
            Some(("missing"@, "当前页面未检测到网页播放器，请手动播放或等待房主更新链接。"@))
        } else {
            None
        }
    } else if probe == PlayerProbe::NoAnswer {
        Some(("detecting"@, "正在重新连接网页播放器…"@))
    } else if probe == PlayerProbe::NoPlayer {
        Some(("detecting"@, "正在重新检测网页播放器…"@))
    } else {
        None
    }
}

impl VideoWatch {
    /// A window that shows no page yet.
    pub fn new() -> (r: VideoWatch)
        ensures
            r@.current_url is None,
            r@.deadline_ms is None,
            !r@.video_ready,
            r@.last_status.len() == 0,
    {
        VideoWatch {
            current_url: None,
            deadline_ms: None,
            video_ready: false,
            last_status: String::new(),
        }
    }

    /// Shows a status unless it is the one shown last.
    fn show(&mut self, phase: &str, message: &str) -> (r: Option<(String, String)>)
        ensures
            status_view(r) == shown(old(self)@.last_status, phase@, message@),
            final(self)@.last_status == status_key(phase@, message@),
            final(self)@.current_url == old(self)@.current_url,
            final(self)@.deadline_ms == old(self)@.deadline_ms,
            final(self)@.video_ready == old(self)@.video_ready,
    {
        let mut key = phase.to_string();
        key.append(":");
        key.append(message);
        if crate::text::str_eq(key.as_str(), self.last_status.as_str()) {
            return None;
        }
        self.last_status = key;
        Some((phase.to_string(), message.to_string()))
    }

    /// Whether the window has a page to watch.
    pub fn has_url(&self) -> (r: bool)
        ensures
            r == self@.current_url is Some,
    {
        self.current_url.is_some()
    }

    /// The room's URL as it stands at `now_ms`.  When it changed, the page is
    /// watched anew, from no player, with a fresh deadline; the first flag
    /// says so, and the status to show comes with it.
    pub fn url_seen(&mut self, url: Option<String>, now_ms: u128) -> (r: (bool, Option<(String, String)>))
        requires
            now_ms <= u128::MAX - VIDEO_DETECT_TIMEOUT_MS,
        ensures
            r.0 == (opt_view(url) != old(self)@.current_url),
            !r.0 ==> final(self)@ == old(self)@ && r.1 is None,
            r.0 ==> {
                &&& final(self)@.current_url == opt_view(url)
                &&& final(self)@.deadline_ms == (if url is Some {
                    Some((now_ms + VIDEO_DETECT_TIMEOUT_MS) as u128)
                } else {
                    None
                })
                &&& !final(self)@.video_ready
                &&& status_view(r.1) == shown(
                    old(self)@.last_status,
                    url_status(opt_view(url)).0,
                    url_status(opt_view(url)).1,
                )
                &&& final(self)@.last_status == status_key(
                    url_status(opt_view(url)).0,
                    url_status(opt_view(url)).1,
                )
            },
    {
        if opt_str_eq(&url, &self.current_url) {
            return (false, None);
        }
        let has = url.is_some();
        self.current_url = url;
        self.deadline_ms = if has {
            Some(now_ms + VIDEO_DETECT_TIMEOUT_MS)
        } else {
            None
        };
        self.video_ready = false;
        let status = if has {
            self.show("detecting", "正在检测网页播放器…")
        } else {
            self.show("empty", "房主尚未设置视频链接，右侧聊天仍可正常使用。")
        };
        (true, status)
    }

    /// What probing the page found at `now_ms`: the status to show, and
    /// whether the player is there to sync from.  A player found for the first
    /// time makes the page ready; a player lost makes the window wait for it
    /// again, with a fresh deadline.
    pub fn probed(&mut self, probe: PlayerProbe, now_ms: u128) -> (r: (Option<(String, String)>, bool))
        requires
            now_ms <= u128::MAX - VIDEO_DETECT_TIMEOUT_MS,
        ensures
            final(self)@.current_url == old(self)@.current_url,
            r.1 == (old(self)@.video_ready && probe == PlayerProbe::Player),
            status_view(r.0) == match probe_status(old(self)@, probe, now_ms) {
                Some((p, m)) => shown(old(self)@.last_status, p, m),
                None => None,
            },
            final(self)@.last_status == match probe_status(old(self)@, probe, now_ms) {
                Some((p, m)) => status_key(p, m),
                None => old(self)@.last_status,
            },
            !old(self)@.video_ready ==> final(self)@.video_ready == (probe == PlayerProbe::Player)
                && final(self)@.deadline_ms == old(self)@.deadline_ms,
            old(self)@.video_ready && probe != PlayerProbe::Player ==> !final(self)@.video_ready
                && final(self)@.deadline_ms == Some((now_ms + VIDEO_DETECT_TIMEOUT_MS) as u128),
            old(self)@.video_ready && probe == PlayerProbe::Player ==> final(self)@ == old(self)@,
    {
        if !self.video_ready {
            if probe == PlayerProbe::Player {
                self.video_ready = true;
                let status = self.show("ready", "已检测到网页播放器，播放同步已就绪。");
                return (status, false);
            }
            let late = match self.deadline_ms {
                Some(d) => now_ms >= d,
                None => false,
            };
            if late {
                let status = self.show(
                    "missing",
                    "当前页面未检测到网页播放器，请手动播放或等待房主更新链接。",
                );
                return (status, false);
            }
            return (None, false);
        }
        match probe {
            PlayerProbe::NoAnswer => {
                self.video_ready = false;
                self.deadline_ms = Some(now_ms + VIDEO_DETECT_TIMEOUT_MS);
                (self.show("detecting", "正在重新连接网页播放器…"), false)
            },
            PlayerProbe::NoPlayer => {
                self.video_ready = false;
                self.deadline_ms = Some(now_ms + VIDEO_DETECT_TIMEOUT_MS);
                (self.show("detecting", "正在重新检测网页播放器…"), false)
            },
            PlayerProbe::Player => (None, true),
        }
    }
}

} // verus!
