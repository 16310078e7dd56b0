use crate::http::{ascii_lower, ascii_lowercase};
use crate::numbers::{decimal_of, decimal_text, is_digit, parse_u64, parsed_u64};
use crate::pieces::{
    ends_with, lemma_split_on_len, split_char, split_on, starts_with, contains_text, text_contains,
    text_ends_with, text_starts_with, texts,
};
use crate::text::{chars_of, push_char, string_of, trim, trimmed};
use crate::game_types::{GameRoomVisibility, GameType};
use crate::watch::WatchRoom;
use vstd::prelude::*;
use vstd::string::StringExecFns;

verus! {

/// How the app shows a watch room it activates.
#[derive(Debug)]
pub struct WatchActivation {
    pub room: WatchRoom,
    pub is_host: bool,
    pub is_member: bool,
}

/// A local ezmovie live stream that can be shared on the LAN.
#[derive(Debug, Clone)]
pub struct LocalEzmovieStreamInfo {
    pub active: bool,
    pub url: String,
    pub lan_preview_url: String,
    pub quick_lan_import_url: String,
    pub room_id: String,
    pub stream_code: Option<String>,
}

/// What the update check found.
#[derive(Debug, Clone)]
pub struct UpdateInfo {
    pub current_version: String,
    pub latest_version: String,
    pub update_available: bool,
    pub asset_name: Option<String>,
    pub download_url: Option<String>,
    pub asset_size: Option<u64>,
    pub release_url: Option<String>,
}

/// A file attached to a release.
#[derive(Debug)]
pub struct GithubAsset {
    pub name: String,
    pub browser_download_url: String,
    pub size: u64,
}

impl Clone for GithubAsset {
    fn clone(&self) -> (r: Self)
        ensures
            r.name@ == self.name@,
            r.browser_download_url@ == self.browser_download_url@,
            r.size == self.size,
    {
        GithubAsset {
            name: self.name.clone(),
            browser_download_url: self.browser_download_url.clone(),
            size: self.size,
        }
    }
}

fn text(s: &str) -> (r: String)
    ensures
        r@ == s@,
{
    s.to_string()
}

fn joined(a: String, b: &str) -> (r: String)
    ensures
        r@ == a@ + b@,
{
    let mut a = a;
    a.append(b);
    a
}

// ---------------------------------------------------------------------------
// Quoting for PowerShell.
// ---------------------------------------------------------------------------

/// A text with every `'` doubled, for a single-quoted PowerShell string.
pub open spec fn ps_quoted(s: Seq<char>) -> Seq<char>
    decreases s.len(),
{
    if s.len() == 0 {
        Seq::empty()
    } else {
        ps_quoted(s.drop_last()) + if s.last() == '\'' {
            seq!['\'', '\'']
        } else {
            seq![s.last()]
        }
    }
}

pub fn ps_quote(value: &str) -> (r: String)
    ensures
        r@ == ps_quoted(value@),
{
    let chars = chars_of(value);
    let mut out = String::new();
    let mut i: usize = 0;
    while i < chars.len()
        invariant
            i <= chars@.len(),
            chars@ == value@,
            out@ == ps_quoted(value@.take(i as int)),
        decreases chars@.len() - i,
    {
        let c = chars[i];
        let ghost t = value@.take(i + 1);
        assert(t.drop_last() =~= value@.take(i as int));
        assert(t.last() == c);
        push_char(&mut out, c);
        if c == '\'' {
            push_char(&mut out, '\'');
        }
        i = i + 1;
    }
    assert(value@.take(i as int) =~= value@);
    out
}

// ---------------------------------------------------------------------------
// Versions.
// ---------------------------------------------------------------------------

/// A character that may stand in a version number.
pub open spec fn is_version_char(c: char) -> bool {
    is_digit(c) || c == '.'
}

/// `s` without its leading `v` and `V` characters.
pub open spec fn without_v(s: Seq<char>) -> Seq<char>
    decreases s.len(),
{
    if s.len() > 0 && (s[0] == 'v' || s[0] == 'V') {
        without_v(s.drop_first())
    } else {
        s
    }
}

/// The leading run of version characters of `s`.
pub open spec fn version_run(s: Seq<char>) -> Seq<char>
    decreases s.len(),
{
    if s.len() > 0 && is_version_char(s[0]) {
        seq![s[0]] + version_run(s.drop_first())
    } else {
        Seq::empty()
    }
}

/// The first run of version characters in `s`.
pub open spec fn first_version_run(s: Seq<char>) -> Seq<char>
    decreases s.len(),
{
    if s.len() == 0 {
        Seq::empty()
    } else if is_version_char(s[0]) {
        version_run(s)
    } else {
        first_version_run(s.drop_first())
    }
}

/// How many of the pieces are not empty.
pub open spec fn nonempty_count(pieces: Seq<Seq<char>>) -> nat
    decreases pieces.len(),
{
    if pieces.len() == 0 {
        0
    } else {
        nonempty_count(pieces.drop_last()) + if pieces.last().len() > 0 {
            1nat
        } else {
            0nat
        }
    }
}

/// The version a text names: its first run of digits and dots once white
/// space and leading `v`s are cut, when that run has at least two numbers.
pub open spec fn version_of(value: Seq<char>) -> Option<Seq<char>> {
    let run = first_version_run(without_v(trim(value)));
    if nonempty_count(split_on(run, '.')) >= 2 {
        Some(run)
    } else {
        None
    }
}

proof fn lemma_without_v_at(s: Seq<char>, k: int)
    requires
        0 <= k <= s.len(),
        forall|j: int| 0 <= j < k ==> (#[trigger] s[j] == 'v' || s[j] == 'V'),
        k == s.len() || !(s[k] == 'v' || s[k] == 'V'),
    ensures
        without_v(s) == s.skip(k),
    decreases k,
{
    if k == 0 {
        assert(s.skip(0) =~= s);
    } else {
        let t = s.drop_first();
        assert forall|j: int| 0 <= j < k - 1 implies (#[trigger] t[j] == 'v' || t[j] == 'V') by {
            assert(t[j] == s[j + 1]);
        }
        if k < s.len() {
            assert(t[k - 1] == s[k]);
        }
        lemma_without_v_at(t, k - 1);
        assert(t.skip(k - 1) =~= s.skip(k));
    }
}

proof fn lemma_version_run_at(s: Seq<char>, k: int)
    requires
        0 <= k <= s.len(),
        forall|j: int| 0 <= j < k ==> is_version_char(#[trigger] s[j]),
        k == s.len() || !is_version_char(s[k]),
    ensures
        version_run(s) == s.take(k),
    decreases k,
{
    if k == 0 {
        assert(s.take(0) =~= Seq::<char>::empty());
    } else {
        let t = s.drop_first();
        assert forall|j: int| 0 <= j < k - 1 implies is_version_char(#[trigger] t[j]) by {
            assert(t[j] == s[j + 1]);
        }
        if k < s.len() {
            assert(t[k - 1] == s[k]);
        }
        lemma_version_run_at(t, k - 1);
        assert(seq![s[0]] + t.take(k - 1) =~= s.take(k));
    }
}

proof fn lemma_first_run_at(s: Seq<char>, a: int)
    requires
        0 <= a <= s.len(),
        forall|j: int| 0 <= j < a ==> !is_version_char(#[trigger] s[j]),
    ensures
        first_version_run(s) == first_version_run(s.skip(a)),
    decreases a,
{
    if a > 0 {
        let t = s.drop_first();
        assert forall|j: int| 0 <= j < a - 1 implies !is_version_char(#[trigger] t[j]) by {
            assert(t[j] == s[j + 1]);
        }
        lemma_first_run_at(t, a - 1);
        assert(t.skip(a - 1) =~= s.skip(a));
    } else {
        assert(s.skip(0) =~= s);
    }
}

/// How many of the texts are not empty.
fn count_nonempty(pieces: &Vec<String>) -> (r: usize)
    ensures
        r == nonempty_count(texts(pieces@)),
{
    let ghost p = texts(pieces@);
    let mut n: usize = 0;
    let mut i: usize = 0;
    while i < pieces.len()
        invariant
            i <= pieces@.len(),
            p == texts(pieces@),
            n == nonempty_count(p.take(i as int)),
            n <= i,
        decreases pieces@.len() - i,
    {
        assert(p.take(i + 1).drop_last() =~= p.take(i as int));
        assert(p.take(i + 1).last() == pieces@[i as int]@);
        if !pieces[i].as_str().is_empty() {
            n = n + 1;
        }
        i = i + 1;
    }
    assert(p.take(i as int) =~= p);
    n
}

/// The version a text names, when it names one.
pub fn clean_version(value: &str) -> (r: Option<String>)
    ensures
        match r {
            Some(v) => version_of(value@) == Some(v@),
            None => version_of(value@) is None,
        },
{
    let t = trimmed(value);
    let chars = chars_of(t.as_str());
    let n = chars.len();
    let mut a: usize = 0;
    while a < n && (chars[a] == 'v' || chars[a] == 'V')
        invariant
            a <= n == chars@.len(),
            forall|j: int| 0 <= j < a ==> (#[trigger] chars@[j] == 'v' || chars@[j] == 'V'),
        decreases n - a,
    {
        a = a + 1;
    }
    proof {
        lemma_without_v_at(chars@, a as int);
    }
    let ghost s = chars@.skip(a as int);
    let mut b: usize = a;
    while b < n && !('0' <= chars[b] && chars[b] <= '9') && chars[b] != '.'
        invariant
            a <= b <= n == chars@.len(),
            forall|j: int| a <= j < b ==> !is_version_char(#[trigger] chars@[j]),
        decreases n - b,
    {
        b = b + 1;
    }
    proof {
        assert forall|j: int| 0 <= j < b - a implies !is_version_char(#[trigger] s[j]) by {
            assert(s[j] == chars@[a + j]);
        }
        lemma_first_run_at(s, b - a);
        assert(s.skip(b - a) =~= chars@.skip(b as int));
    }
    let mut c: usize = b;
    while c < n && (('0' <= chars[c] && chars[c] <= '9') || chars[c] == '.')
        invariant
            b <= c <= n == chars@.len(),
            forall|j: int| b <= j < c ==> is_version_char(#[trigger] chars@[j]),
        decreases n - c,
    {
        c = c + 1;
    }
    let ghost u = chars@.skip(b as int);
    proof {
        assert forall|j: int| 0 <= j < c - b implies is_version_char(#[trigger] u[j]) by {
            assert(u[j] == chars@[b + j]);
        }
        if c < n {
            assert(u[c - b] == chars@[c as int]);
        }
        lemma_version_run_at(u, c - b);
        if b < n {
            assert(u[0] == chars@[b as int]);
        }
        assert(u.take(c - b) =~= chars@.subrange(b as int, c as int));
    }
    let version = string_of(&chars, b, c);
    let pieces = split_char(version.as_str(), '.');
    if count_nonempty(&pieces) >= 2 {
        Some(version)
    } else {
        None
    }
}

/// The numbers of a version: each piece between dots read as a number, 0
/// when it is not one.
pub open spec fn version_numbers(value: Seq<char>) -> Seq<u64> {
    let base = match version_of(value) {
        Some(v) => v,
        None => value,
    };
    split_on(base, '.').map_values(|p: Seq<char>| parsed_u64(p).unwrap_or(0))
}

/// The numbers of a version.
pub fn version_parts(value: &str) -> (r: Vec<u64>)
    ensures
        r@ == version_numbers(value@),
{
    let base = match clean_version(value) {
        Some(v) => v,
        None => text(value),
    };
    let pieces = split_char(base.as_str(), '.');
    let ghost p = texts(pieces@);
    let mut out: Vec<u64> = Vec::new();
    let mut i: usize = 0;
    while i < pieces.len()
        invariant
            i <= pieces@.len(),
            p == texts(pieces@),
            out@ == p.take(i as int).map_values(|q: Seq<char>| parsed_u64(q).unwrap_or(0)),
        decreases pieces@.len() - i,
    {
        let v = match parse_u64(pieces[i].as_str()) {
            Some(v) => v,
            None => 0,
        };
        assert(p[i as int] == pieces@[i as int]@);
        out.push(v);
        assert(p.take(i + 1).map_values(|q: Seq<char>| parsed_u64(q).unwrap_or(0)) =~= p.take(
            i as int,
        ).map_values(|q: Seq<char>| parsed_u64(q).unwrap_or(0)).push(v));
        i = i + 1;
    }
    assert(p.take(i as int) =~= p);
    out
}

/// How one version stands to another.
#[derive(Clone, Copy, Debug, PartialEq, Eq, Structural)]
pub enum VersionOrder {
    Older,
    Same,
    Newer,
}

/// The `i`-th number of a version, 0 past its end.
pub open spec fn part_at(a: Seq<u64>, i: int) -> u64 {
    if 0 <= i < a.len() {
        a[i]
    } else {
        0
    }
}

/// How `a` stands to `b` from the `i`-th number on: the first number in which
/// they differ decides.
pub open spec fn order_from(a: Seq<u64>, b: Seq<u64>, i: nat) -> VersionOrder
    decreases (if a.len() > b.len() {
        a.len()
    } else {
        b.len()
    }) - i,
{
    if i >= a.len() && i >= b.len() {
        VersionOrder::Same
    } else if part_at(a, i as int) < part_at(b, i as int) {
        VersionOrder::Older
    } else if part_at(a, i as int) > part_at(b, i as int) {
        VersionOrder::Newer
    } else {
        order_from(a, b, i + 1)
    }
}

/// How the version `left` stands to the version `right`.
pub fn compare_versions(left: &str, right: &str) -> (r: VersionOrder)
    ensures
        r == order_from(version_numbers(left@), version_numbers(right@), 0),
{
    let l = version_parts(left);
    let rr = version_parts(right);
    let n = if l.len() > rr.len() {
        l.len()
    } else {
        rr.len()
    };
    let mut i: usize = 0;
    while i < n
        invariant
            i <= n,
            n == (if l@.len() > rr@.len() {
                l@.len()
            } else {
                rr@.len()
            }),
            order_from(l@, rr@, 0) == order_from(l@, rr@, i as nat),
            l@ == version_numbers(left@),
            rr@ == version_numbers(right@),
        decreases n - i,
    {
        let a = if i < l.len() {
            l[i]
        } else {
            0
        };
        let b = if i < rr.len() {
            rr[i]
        } else {
            0
        };
        if a < b {
            return VersionOrder::Older;
        }
        if a > b {
            return VersionOrder::Newer;
        }
        i = i + 1;
    }
    VersionOrder::Same
}

// ---------------------------------------------------------------------------
// Releases.
// ---------------------------------------------------------------------------

/// The index of the first true value, or -1.
pub open spec fn first_true(bs: Seq<bool>) -> int {
    if exists|i: int| 0 <= i < bs.len() && bs[i] && forall|j: int| 0 <= j < i ==> !#[trigger] bs[j] {
        choose|i: int| 0 <= i < bs.len() && bs[i] && forall|j: int| 0 <= j < i ==> !#[trigger] bs[j]
    } else {
        -1
    }
}

/// The installer that releases name by convention.
pub open spec fn is_named_installer(name: Seq<char>) -> bool {
    starts_with(ascii_lower(name), "quicklan_"@) && ends_with(ascii_lower(name), "_x64-setup.exe"@)
}

/// Any setup program.
pub open spec fn is_setup_program(name: Seq<char>) -> bool {
    ends_with(ascii_lower(name), ".exe"@) && contains_text(ascii_lower(name), "setup"@)
}

/// The names of a list of assets.
pub open spec fn asset_names(assets: Seq<GithubAsset>) -> Seq<Seq<char>> {
    assets.map_values(|a: GithubAsset| a.name@)
}

/// The position of the installer to download: the first asset named by
/// convention, else the first setup program; -1 when there is none.
pub open spec fn installer_index(names: Seq<Seq<char>>) -> int {
    let primary = first_true(names.map_values(|n: Seq<char>| is_named_installer(n)));
    if primary >= 0 {
        primary
    } else {
        first_true(names.map_values(|n: Seq<char>| is_setup_program(n)))
    }
}

fn named_installer(name: &str) -> (r: bool)
    ensures
        r == is_named_installer(name@),
{
    let lower = ascii_lowercase(name);
    text_starts_with(lower.as_str(), "quicklan_") && text_ends_with(
        lower.as_str(),
        "_x64-setup.exe",
    )
}

fn setup_program(name: &str) -> (r: bool)
    ensures
        r == is_setup_program(name@),
{
    let lower = ascii_lowercase(name);
    text_ends_with(lower.as_str(), ".exe") && text_contains(lower.as_str(), "setup")
}

proof fn lemma_first_true(bs: Seq<bool>, i: int)
    requires
        0 <= i < bs.len(),
        bs[i],
        forall|j: int| 0 <= j < i ==> !#[trigger] bs[j],
    ensures
        first_true(bs) == i,
{
    let k = choose|k: int| 0 <= k < bs.len() && bs[k] && forall|j: int| 0 <= j < k ==> !#[trigger] bs[j];
    if k < i {
        assert(!bs[k]);
    } else if k > i {
        assert(!bs[i]);
    }
}

/// The installer to download among a release's assets.
pub fn select_installer_asset(assets: &Vec<GithubAsset>) -> (r: Option<GithubAsset>)
    ensures
        match r {
            Some(a) => {
                let i = installer_index(asset_names(assets@));
                &&& 0 <= i < assets@.len()
                &&& a.name@ == assets@[i].name@
                &&& a.browser_download_url@ == assets@[i].browser_download_url@
                &&& a.size == assets@[i].size
            },
            None => installer_index(asset_names(assets@)) == -1,
        },
{
    let ghost names = asset_names(assets@);
    let ghost primary = names.map_values(|n: Seq<char>| is_named_installer(n));
    let ghost backup = names.map_values(|n: Seq<char>| is_setup_program(n));
    let mut i: usize = 0;
    while i < assets.len()
        invariant
            i <= assets@.len(),
            names == asset_names(assets@),
            primary == names.map_values(|n: Seq<char>| is_named_installer(n)),
            forall|j: int| 0 <= j < i ==> !#[trigger] primary[j],
        decreases assets@.len() - i,
    {
        assert(primary[i as int] == is_named_installer(assets@[i as int].name@));
        if named_installer(assets[i].name.as_str()) {
            proof {
                lemma_first_true(primary, i as int);
            }
            return Some(assets[i].clone());
        }
        i = i + 1;
    }
    assert(first_true(primary) == -1) by {
        if exists|k: int| 0 <= k < primary.len() && primary[k] && forall|j: int|
            0 <= j < k ==> !#[trigger] primary[j] {
            let k = choose|k: int| 0 <= k < primary.len() && primary[k] && forall|j: int|
                0 <= j < k ==> !#[trigger] primary[j];
            assert(!primary[k]);
        }
    }
    let mut i: usize = 0;
    while i < assets.len()
        invariant
            i <= assets@.len(),
            names == asset_names(assets@),
            backup == names.map_values(|n: Seq<char>| is_setup_program(n)),
            primary == names.map_values(|n: Seq<char>| is_named_installer(n)),
            first_true(primary) == -1,
            forall|j: int| 0 <= j < i ==> !#[trigger] backup[j],
        decreases assets@.len() - i,
    {
        assert(backup[i as int] == is_setup_program(assets@[i as int].name@));
        if setup_program(assets[i].name.as_str()) {
            proof {
                lemma_first_true(backup, i as int);
            }
            return Some(assets[i].clone());
        }
        i = i + 1;
    }
    assert(first_true(backup) == -1) by {
        if exists|k: int| 0 <= k < backup.len() && backup[k] && forall|j: int|
            0 <= j < k ==> !#[trigger] backup[j] {
            let k = choose|k: int| 0 <= k < backup.len() && backup[k] && forall|j: int|
                0 <= j < k ==> !#[trigger] backup[j];
            assert(!backup[k]);
        }
    }
    None
}

/// The text of an optional string slice.
pub open spec fn opt_str_view(o: Option<&str>) -> Option<Seq<char>> {
    match o {
        Some(s) => Some(s@),
        None => None,
    }
}

/// The version a release names: from its tag, else from its name.
pub open spec fn release_version(tag_name: Seq<char>, name: Option<Seq<char>>) -> Option<Seq<char>> {
    match version_of(tag_name) {
        Some(v) => Some(v),
        None => match name {
            Some(n) => version_of(n),
            None => None,
        },
    }
}

/// What the update check reports on the latest release, given the version
/// running here; or why it cannot report.
pub fn update_info(
    tag_name: &str,
    name: Option<&str>,
    draft: bool,
    prerelease: bool,
    html_url: Option<String>,
    assets: &Vec<GithubAsset>,
    current_version: &str,
) -> (r: Result<UpdateInfo, String>)
    ensures
        draft || prerelease ==> (r matches Err(e) && e@ == "GitHub 最新发布不是正式版本，请稍后再试"@),
        !(draft || prerelease) && release_version(tag_name@, opt_str_view(name)) is None ==> (r matches Err(
            e,
        ) && e@ == "GitHub Release 中未找到可识别的版本号"@),
        !(draft || prerelease) ==> (release_version(tag_name@, opt_str_view(name)) matches Some(latest)
            ==> {
            let newer = order_from(
                version_numbers(latest),
                version_numbers(current_version@),
                0,
            ) == VersionOrder::Newer;
            let i = installer_index(asset_names(assets@));
            &&& newer && i < 0 ==> (r matches Err(e) && e@
                == "发现新版本，但 Release 中没有找到 Windows 安装包"@)
            &&& !(newer && i < 0) ==> (r matches Ok(info) && info.current_version@
                == current_version@ && info.latest_version@ == latest && info.update_available
                == newer && crate::text::opt_view(info.release_url) == crate::text::opt_view(
                html_url,
            ) && crate::text::opt_view(info.asset_name) == (if newer {
                Some(assets@[i].name@)
            } else {
                None
            }) && crate::text::opt_view(info.download_url) == (if newer {
                Some(assets@[i].browser_download_url@)
            } else {
                None
            }) && info.asset_size == (if newer {
                Some(assets@[i].size)
            } else {
                None
            }))
        }),
{
    if draft || prerelease {
        return Err(text("GitHub 最新发布不是正式版本，请稍后再试"));
    }
    let latest = match clean_version(tag_name) {
        Some(v) => v,
        None => match name {
            Some(n) => match clean_version(n) {
                Some(v) => v,
                None => {
                    return Err(text("GitHub Release 中未找到可识别的版本号"));
                },
            },
            None => {
                return Err(text("GitHub Release 中未找到可识别的版本号"));
            },
        },
    };
    let update_available = compare_versions(latest.as_str(), current_version)
        == VersionOrder::Newer;
    let asset = if update_available {
        select_installer_asset(assets)
    } else {
        None
    };
    if update_available && asset.is_none() {
        return Err(text("发现新版本，但 Release 中没有找到 Windows 安装包"));
    }
    let (asset_name, download_url, asset_size) = match asset {
        Some(a) => (Some(a.name), Some(a.browser_download_url), Some(a.size)),
        None => (None, None, None),
    };
    Ok(
        UpdateInfo {
            current_version: text(current_version),
            latest_version: latest,
            update_available,
            asset_name,
            download_url,
            asset_size,
            release_url: html_url,
        },
    )
}

/// Whether a download URL points at a GitHub release file.
pub open spec fn is_release_url(url: Seq<char>) -> bool {
    starts_with(url, "https://github.com/"@) || starts_with(
        url,
        "https://objects.githubusercontent.com/"@,
    )
}

pub fn is_release_download_url(url: &str) -> (r: bool)
    ensures
        r == is_release_url(url@),
{
    text_starts_with(url, "https://github.com/") || text_starts_with(
        url,
        "https://objects.githubusercontent.com/",
    )
}

/// Why a downloaded installer of `actual` bytes is refused, if it is: it is
/// empty, or its size is not the one the release gave.
pub open spec fn installer_size_error_of(actual: u64, expected: Option<u64>) -> Option<Seq<char>> {
    if actual == 0 {
        Some("下载的安装包为空"@)
    } else if expected matches Some(e) && e > 0 && actual != e {
        Some(
            "安装包大小校验失败: expected "@ + decimal_of(expected->0 as nat) + ", got "@
                + decimal_of(actual as nat),
        )
    } else {
        None
    }
}

pub fn installer_size_error(actual: u64, expected: Option<u64>) -> (r: Option<String>)
    ensures
        crate::text::opt_view(r) == installer_size_error_of(actual, expected),
{
    if actual == 0 {
        return Some(text("下载的安装包为空"));
    }
    match expected {
        Some(e) => {
            if e > 0 && actual != e {
                let s = joined(text("安装包大小校验失败: expected "), decimal_text(e).as_str());
                let s = joined(s, ", got ");
                Some(joined(s, decimal_text(actual).as_str()))
            } else {
                None
            }
        },
        None => None,
    }
}

// ---------------------------------------------------------------------------
// Addresses of a local live stream.
// ---------------------------------------------------------------------------

/// The first piece of `s` before `c` is a prefix of `s`, free of `c`, and
/// followed by `c` when shorter than `s`.
pub proof fn lemma_first_piece(s: Seq<char>, c: char)
    ensures
        split_on(s, c)[0].len() <= s.len(),
        split_on(s, c)[0] == s.take(split_on(s, c)[0].len() as int),
        forall|i: int| 0 <= i < split_on(s, c)[0].len() ==> #[trigger] s[i] != c,
        split_on(s, c)[0].len() < s.len() ==> s[split_on(s, c)[0].len() as int] == c,
    decreases s.len(),
{
    if s.len() == 0 {
        assert(s.take(0) =~= Seq::<char>::empty());
    } else {
        let t = s.drop_last();
        lemma_first_piece(t, c);
        lemma_split_on_len(t, c);
        let p = split_on(t, c);
        let p0 = p[0];
        assert forall|i: int| 0 <= i < t.len() implies #[trigger] s[i] == t[i] by {}
        if s.last() == c {
            assert(split_on(s, c)[0] == p0);
            assert(s.take(p0.len() as int) =~= t.take(p0.len() as int));
            if p0.len() == t.len() {
                assert(s[t.len() as int] == s.last());
            }
        } else if p.len() == 1 {
            assert(split_on(s, c)[0] == p0.push(s.last()));
            if p0.len() < t.len() {
                lemma_piece_count(t, c, p0.len() as int);
            }
            assert(p0.len() == t.len());
            assert(p0 =~= t);
            assert(split_on(s, c)[0] =~= s);
            assert(s.take(s.len() as int) =~= s);
            assert forall|i: int| 0 <= i < s.len() implies #[trigger] s[i] != c by {
                if i < t.len() {
                    assert(t[i] != c);
                } else {
                    assert(s[i] == s.last());
                }
            }
        } else {
            assert(split_on(s, c)[0] == p0);
            if p0.len() == t.len() {
                lemma_one_piece(t, c);
            }
            assert(p0.len() < t.len());
            assert(s.take(p0.len() as int) =~= t.take(p0.len() as int));
        }
    }
}

proof fn lemma_piece_count(s: Seq<char>, c: char, k: int)
    requires
        0 <= k < s.len(),
        s[k] == c,
    ensures
        split_on(s, c).len() >= 2,
    decreases s.len(),
{
    let t = s.drop_last();
    lemma_split_on_len(t, c);
    if k < s.len() - 1 {
        assert(t[k] == c);
        lemma_piece_count(t, c, k);
    }
}

proof fn lemma_one_piece(s: Seq<char>, c: char)
    requires
        forall|i: int| 0 <= i < s.len() ==> #[trigger] s[i] != c,
    ensures
        split_on(s, c).len() == 1,
    decreases s.len(),
{
    if s.len() > 0 {
        let t = s.drop_last();
        assert forall|i: int| 0 <= i < t.len() implies #[trigger] t[i] != c by {
            assert(t[i] == s[i]);
        }
        lemma_one_piece(t, c);
        assert(s.last() == s[s.len() - 1]);
    }
}

/// The length of the text before the first `c`.
fn first_piece_len(chars: &Vec<char>, c: char) -> (r: usize)
    ensures
        r == split_on(chars@, c)[0].len(),
{
    let mut k: usize = 0;
    while k < chars.len() && chars[k] != c
        invariant
            k <= chars@.len(),
            forall|j: int| 0 <= j < k ==> #[trigger] chars@[j] != c,
        decreases chars@.len() - k,
    {
        k = k + 1;
    }
    proof {
        lemma_first_piece(chars@, c);
        let m = split_on(chars@, c)[0].len() as int;
        if m < k {
            assert(chars@[m] != c);
        } else if m > k {
            assert(chars@[k as int] != c);
        }
    }
    k
}

/// The text after `http://` or `https://`, when the URL starts with either.
pub open spec fn http_rest(v: Seq<char>) -> Option<Seq<char>> {
    if starts_with(v, "http://"@) {
        Some(v.skip("http://"@.len() as int))
    } else if starts_with(v, "https://"@) {
        Some(v.skip("https://"@.len() as int))
    } else {
        None
    }
}

/// The host an http(s) URL names, or why it names none.
pub open spec fn http_host_of(v: Seq<char>) -> Result<Seq<char>, Seq<char>> {
    match http_rest(v) {
        None => Err("ezmovie 共享地址必须是 http 或 https"@),
        Some(rest) => {
            let authority = split_on(rest, '/')[0];
            if trim(authority).len() == 0 {
                Err("ezmovie 直播地址缺少主机名"@)
            } else {
                Ok(split_on(authority, ':')[0])
            }
        },
    }
}

/// The view of a text result.
pub open spec fn text_result(r: Result<String, String>) -> Result<Seq<char>, Seq<char>> {
    match r {
        Ok(s) => Ok(s@),
        Err(e) => Err(e@),
    }
}

/// The scheme part and the rest of an http(s) URL.
fn split_scheme(value: &str) -> (r: Option<(&'static str, String)>)
    ensures
        match r {
            Some((scheme, rest)) => http_rest(value@) == Some(rest@) && scheme@ == (if starts_with(
                value@,
                "http://"@,
            ) {
                "http://"@
            } else {
                "https://"@
            }),
            None => http_rest(value@) is None,
        },
{
    let chars = chars_of(value);
    if text_starts_with(value, "http://") {
        let n = chars_of("http://").len();
        Some(("http://", string_of(&chars, n, chars.len())))
    } else if text_starts_with(value, "https://") {
        let n = chars_of("https://").len();
        Some(("https://", string_of(&chars, n, chars.len())))
    } else {
        None
    }
}

/// The host an http(s) URL names.
pub fn extract_http_host(value: &str) -> (r: Result<String, String>)
    ensures
        text_result(r) == http_host_of(value@),
{
    let rest = match split_scheme(value) {
        Some((_, rest)) => rest,
        None => {
            return Err(text("ezmovie 共享地址必须是 http 或 https"));
        },
    };
    let rest_chars = chars_of(rest.as_str());
    let a = first_piece_len(&rest_chars, '/');
    proof {
        lemma_first_piece(rest@, '/');
    }
    let authority = string_of(&rest_chars, 0, a);
    if trimmed(authority.as_str()).as_str().is_empty() {
        return Err(text("ezmovie 直播地址缺少主机名"));
    }
    let auth_chars = chars_of(authority.as_str());
    let h = first_piece_len(&auth_chars, ':');
    proof {
        lemma_first_piece(authority@, ':');
    }
    Ok(string_of(&auth_chars, 0, h))
}

/// An http(s) URL with its host replaced, port and path kept; other text as
/// it is.
pub open spec fn with_host(v: Seq<char>, host: Seq<char>) -> Seq<char> {
    match http_rest(v) {
        None => v,
        Some(rest) => {
            let scheme = if starts_with(v, "http://"@) {
                "http://"@
            } else {
                "https://"@
            };
            let authority = split_on(rest, '/')[0];
            let suffix = rest.skip(authority.len() as int);
            let port = authority.skip(split_on(authority, ':')[0].len() as int);
            scheme + host + port + suffix
        },
    }
}

/// The URL `value` pointed at `host`.
pub fn rewrite_http_url_host(value: &str, host: &str) -> (r: String)
    ensures
        r@ == with_host(value@, host@),
{
    let (scheme, rest) = match split_scheme(value) {
        Some(parts) => parts,
        None => {
            return text(value);
        },
    };
    let rest_chars = chars_of(rest.as_str());
    let a = first_piece_len(&rest_chars, '/');
    proof {
        lemma_first_piece(rest@, '/');
    }
    let authority = string_of(&rest_chars, 0, a);
    let suffix = string_of(&rest_chars, a, rest_chars.len());
    let auth_chars = chars_of(authority.as_str());
    let h = first_piece_len(&auth_chars, ':');
    proof {
        lemma_first_piece(authority@, ':');
    }
    let port = string_of(&auth_chars, h, auth_chars.len());
    let out = joined(text(scheme), host);
    let out = joined(out, port.as_str());
    joined(out, suffix.as_str())
}

/// A decimal octet as IPv4 text writes it: one to three digits, no leading
/// zero, at most 255.
pub open spec fn octet_ok(p: Seq<char>) -> bool {
    &&& 1 <= p.len() <= 3
    &&& crate::numbers::all_digits(p)
    &&& !(p.len() > 1 && p[0] == '0')
    &&& crate::numbers::digits_value(p) <= 255
}

/// The four octets of an IPv4 address in dotted text, as `Ipv4Addr`'s parser
/// reads them.
pub open spec fn ipv4_of(s: Seq<char>) -> Option<Seq<u8>> {
    let ps = split_on(s, '.');
    if ps.len() == 4 && octet_ok(ps[0]) && octet_ok(ps[1]) && octet_ok(ps[2]) && octet_ok(ps[3]) {
        Some(
            seq![
                crate::numbers::digits_value(ps[0]) as u8,
                crate::numbers::digits_value(ps[1]) as u8,
                crate::numbers::digits_value(ps[2]) as u8,
                crate::numbers::digits_value(ps[3]) as u8,
            ],
        )
    } else {
        None
    }
}

fn octet_value(p: &str) -> (r: Option<u8>)
    ensures
        match r {
            Some(v) => octet_ok(p@) && v == crate::numbers::digits_value(p@),
            None => !octet_ok(p@),
        },
{
    let chars = chars_of(p);
    if chars.len() < 1 || chars.len() > 3 {
        return None;
    }
    let mut i: usize = 0;
    while i < chars.len()
        invariant
            i <= chars@.len(),
            chars@ == p@,
            forall|j: int| 0 <= j < i ==> is_digit(#[trigger] chars@[j]),
        decreases chars@.len() - i,
    {
        if !('0' <= chars[i] && chars[i] <= '9') {
            return None;
        }
        i = i + 1;
    }
    if chars.len() > 1 && chars[0] == '0' {
        return None;
    }
    match parse_u64(p) {
        Some(v) => {
            assert(p@.len() > 0 && p@[0] != '+');
            if v <= 255 {
                Some(v as u8)
            } else {
                None
            }
        },
        None => {
            assert(p@.len() > 0 && p@[0] != '+');
            None
        },
    }
}

/// The four octets of an IPv4 address in dotted text.
pub fn parse_ipv4(s: &str) -> (r: Option<(u8, u8, u8, u8)>)
    ensures
        match r {
            Some((a, b, c, d)) => ipv4_of(s@) == Some(seq![a, b, c, d]),
            None => ipv4_of(s@) is None,
        },
{
    let parts = split_char(s, '.');
    if parts.len() != 4 {
        return None;
    }
    assert(texts(parts@)[0] == parts@[0]@);
    assert(texts(parts@)[1] == parts@[1]@);
    assert(texts(parts@)[2] == parts@[2]@);
    assert(texts(parts@)[3] == parts@[3]@);
    let a = match octet_value(parts[0].as_str()) {
        Some(v) => v,
        None => {
            return None;
        },
    };
    let b = match octet_value(parts[1].as_str()) {
        Some(v) => v,
        None => {
            return None;
        },
    };
    let c = match octet_value(parts[2].as_str()) {
        Some(v) => v,
        None => {
            return None;
        },
    };
    let d = match octet_value(parts[3].as_str()) {
        Some(v) => v,
        None => {
            return None;
        },
    };
    assert(ipv4_of(s@) == Some(seq![a, b, c, d]));
    Some((a, b, c, d))
}

/// An IPv4 address a local stream may be shared from: a private range, the
/// shared (CGNAT) range, or the one public address allowed.
pub open spec fn lan_shareable(a: u8, b: u8, c: u8, d: u8) -> bool {
    ||| a == 10
    ||| (a == 172 && 16 <= b && b <= 31)
    ||| (a == 192 && b == 168)
    ||| (a == 100 && 64 <= b && b <= 127)
    ||| (a == 115 && b == 156 && c == 214 && d == 21)
}

pub fn is_supported_local_share_ipv4(a: u8, b: u8, c: u8, d: u8) -> (r: bool)
    ensures
        r == lan_shareable(a, b, c, d),
{
    let is_private = a == 10 || (a == 172 && 16 <= b && b <= 31) || (a == 192 && b == 168);
    let is_cgnat = a == 100 && 64 <= b && b <= 127;
    let is_allowed_public = a == 115 && b == 156 && c == 214 && d == 21;
    is_private || is_cgnat || is_allowed_public
}

/// The error for an address that is not on the LAN.
pub open spec fn lan_address_error() -> Seq<char> {
    "ezmovie 共享地址必须使用局域网 IPv4 地址"@
}

/// Why a stream URL cannot be shared on the LAN, if it cannot.
pub open spec fn share_url_error(v: Seq<char>) -> Option<Seq<char>> {
    match http_host_of(v) {
        Err(e) => Some(e),
        Ok(h) => if h == "127.0.0.1"@ || h == "localhost"@ {
            Some("该直播地址仅限本机访问，不能共享给局域网观众"@)
        } else {
            match ipv4_of(h) {
                Some(o) => if lan_shareable(o[0], o[1], o[2], o[3]) {
                    None
                } else {
                    Some(lan_address_error())
                },
                None => Some(lan_address_error()),
            }
        },
    }
}

/// Checks that a stream URL can be shared on the LAN.
pub fn validate_local_ezmovie_share_url(value: &str) -> (r: Result<(), String>)
    ensures
        match r {
            Ok(()) => share_url_error(value@) is None,
            Err(e) => share_url_error(value@) == Some(e@),
        },
{
    let host = match extract_http_host(value) {
        Ok(h) => h,
        Err(e) => {
            return Err(e);
        },
    };
    if crate::text::str_eq(host.as_str(), "127.0.0.1") || crate::text::str_eq(
        host.as_str(),
        "localhost",
    ) {
        return Err(text("该直播地址仅限本机访问，不能共享给局域网观众"));
    }
    match parse_ipv4(host.as_str()) {
        Some((a, b, c, d)) => {
            if is_supported_local_share_ipv4(a, b, c, d) {
                Ok(())
            } else {
                Err(text("ezmovie 共享地址必须使用局域网 IPv4 地址"))
            }
        },
        None => Err(text("ezmovie 共享地址必须使用局域网 IPv4 地址")),
    }
}

/// The LAN host of a stream URL that can be shared.
pub open spec fn private_host_of(v: Seq<char>) -> Result<Seq<char>, Seq<char>> {
    match share_url_error(v) {
        Some(e) => Err(e),
        None => http_host_of(v),
    }
}

pub fn extract_private_ipv4_host(value: &str) -> (r: Result<String, String>)
    ensures
        text_result(r) == private_host_of(value@),
{
    match validate_local_ezmovie_share_url(value) {
        Err(e) => Err(e),
        Ok(()) => extract_http_host(value),
    }
}

/// The first of the stream's addresses, in order, that has a LAN host.
pub open spec fn resolved_host(
    lan_preview_url: Option<Seq<char>>,
    preview_url: Option<Seq<char>>,
    url: Option<Seq<char>>,
) -> Result<Seq<char>, Seq<char>> {
    if lan_preview_url matches Some(v) && private_host_of(v) is Ok {
        private_host_of(lan_preview_url->0)
    } else if preview_url matches Some(v) && private_host_of(v) is Ok {
        private_host_of(preview_url->0)
    } else if url matches Some(v) && private_host_of(v) is Ok {
        private_host_of(url->0)
    } else {
        Err(lan_address_error())
    }
}

/// The LAN host of a local stream, from its addresses.
pub fn resolve_ezmovie_lan_host(
    lan_preview_url: &Option<String>,
    preview_url: &Option<String>,
    url: &Option<String>,
) -> (r: Result<String, String>)
    ensures
        text_result(r) == resolved_host(
            crate::text::opt_view(*lan_preview_url),
            crate::text::opt_view(*preview_url),
            crate::text::opt_view(*url),
        ),
{
    if let Some(v) = lan_preview_url {
        if let Ok(h) = extract_private_ipv4_host(v.as_str()) {
            return Ok(h);
        }
    }
    if let Some(v) = preview_url {
        if let Ok(h) = extract_private_ipv4_host(v.as_str()) {
            return Ok(h);
        }
    }
    if let Some(v) = url {
        if let Ok(h) = extract_private_ipv4_host(v.as_str()) {
            return Ok(h);
        }
    }
    Err(text("ezmovie 共享地址必须使用局域网 IPv4 地址"))
}

/// What the local ezmovie player says of its live session.
#[derive(Debug, Clone)]
pub struct EzmovieSession {
    pub active: bool,
    pub url: Option<String>,
    pub preview_url: Option<String>,
    pub lan_preview_url: Option<String>,
    pub room_id: Option<String>,
    pub stream_code: Option<String>,
}

/// The body of the ezmovie player's answer, when its status line says 200:
/// the text after the first blank line.
pub open spec fn ezmovie_body_of(t: Seq<char>) -> Option<Seq<char>> {
    let i = crate::pieces::find_from(t, "\r\n\r\n"@, 0);
    let head = if i >= 0 {
        t.take(i)
    } else {
        t
    };
    let j = crate::pieces::find_from(t, "\n\n"@, 0);
    let body = if i >= 0 {
        t.skip(i + 4)
    } else if j >= 0 {
        t.skip(j + 2)
    } else {
        Seq::empty()
    };
    if starts_with(head, "HTTP/1.1 200"@) || starts_with(head, "HTTP/1.0 200"@) {
        Some(body)
    } else {
        None
    }
}

/// The body of the ezmovie player's answer, when it answered 200.
pub fn ezmovie_response_body(response: &str) -> (r: Option<String>)
    ensures
        crate::text::opt_view(r) == ezmovie_body_of(response@),
{
    proof {
        reveal_strlit("\r\n\r\n");
        reveal_strlit("\n\n");
    }
    let chars = chars_of(response);
    let n = chars.len();
    let crlf = chars_of("\r\n\r\n");
    let lf = chars_of("\n\n");
    let first = crate::pieces::find_text(&chars, &crlf, 0);
    proof {
        crate::pieces::lemma_find_from(chars@, crlf@, 0);
    }
    let head = match first {
        Some(i) => string_of(&chars, 0, i),
        None => string_of(&chars, 0, chars.len()),
    };
    assert(chars@.subrange(0, chars@.len() as int) =~= chars@);
    let body = match first {
        Some(i) => string_of(&chars, i + 4, chars.len()),
        None => match crate::pieces::find_text(&chars, &lf, 0) {
            Some(j) => {
                proof {
                    crate::pieces::lemma_find_from(chars@, lf@, 0);
                }
                string_of(&chars, j + 2, chars.len())
            },
            None => String::new(),
        },
    };
    if text_starts_with(head.as_str(), "HTTP/1.1 200") || text_starts_with(
        head.as_str(),
        "HTTP/1.0 200",
    ) {
        Some(body)
    } else {
        None
    }
}

/// The address a LAN stream is imported from on `host`.
pub open spec fn stream_address(host: Seq<char>) -> Seq<char> {
    "http://"@ + host + ":18333/"@
}

fn stream_address_text(host: &str) -> (r: String)
    ensures
        r@ == stream_address(host@),
{
    joined(joined(text("http://"), host), ":18333/")
}

/// What the ezmovie session makes of a shareable live stream: nothing when
/// no stream is live, else its LAN addresses and room, or why it cannot be
/// shared.
pub open spec fn stream_info_of(s: EzmovieSession) -> Result<
    Option<(Seq<char>, Seq<char>, Seq<char>, Option<Seq<char>>)>,
    Seq<char>,
> {
    if !s.active {
        Ok(None)
    } else {
        match resolved_host(
            crate::text::opt_view(s.lan_preview_url),
            crate::text::opt_view(s.preview_url),
            crate::text::opt_view(s.url),
        ) {
            Err(e) => Err(e),
            Ok(h) => {
                let u = stream_address(h);
                if trim(u).len() == 0 {
                    Err("ezmovie 会话缺少可共享的直播地址"@)
                } else {
                    match http_host_of(u) {
                        Err(e) => Err(e),
                        Ok(h2) => {
                            let q = stream_address(h2);
                            if share_url_error(q) is Some {
                                Err(share_url_error(q)->0)
                            } else if trim(u).len() == 0 {
                                Err("ezmovie 会话缺少局域网预览地址"@)
                            } else if share_url_error(u) is Some {
                                Err(share_url_error(u)->0)
                            } else if !(s.room_id matches Some(id) && trim(id@).len() > 0) {
                                Err("ezmovie 会话缺少房间 ID"@)
                            } else {
                                Ok(Some((q, u, s.room_id->0@, crate::text::opt_view(s.stream_code))))
                            }
                        },
                    }
                }
            },
        }
    }
}

/// The view of a stream result: the import address, the LAN preview, the
/// room and the stream code.
pub open spec fn stream_result(r: Result<Option<LocalEzmovieStreamInfo>, String>) -> Result<
    Option<(Seq<char>, Seq<char>, Seq<char>, Option<Seq<char>>)>,
    Seq<char>,
> {
    match r {
        Ok(Some(i)) => Ok(Some((i.quick_lan_import_url@, i.lan_preview_url@, i.room_id@, crate::text::opt_view(i.stream_code)))),
        Ok(None) => Ok(None),
        Err(e) => Err(e@),
    }
}

/// The live stream that the ezmovie session offers for the LAN.
pub fn ezmovie_stream_info(session: &EzmovieSession) -> (r: Result<Option<LocalEzmovieStreamInfo>, String>)
    ensures
        stream_result(r) == stream_info_of(*session),
        r matches Ok(Some(i)) ==> i.active && i.url@ == i.quick_lan_import_url@,
{
    if !session.active {
        return Ok(None);
    }
    let lan_host = match resolve_ezmovie_lan_host(
        &session.lan_preview_url,
        &session.preview_url,
        &session.url,
    ) {
        Ok(h) => h,
        Err(e) => {
            return Err(e);
        },
    };
    let stream_url = stream_address_text(lan_host.as_str());
    if trimmed(stream_url.as_str()).as_str().is_empty() {
        return Err(text("ezmovie 会话缺少可共享的直播地址"));
    }
    let host = match extract_http_host(stream_url.as_str()) {
        Ok(h) => h,
        Err(e) => {
            return Err(e);
        },
    };
    let import_url = stream_address_text(host.as_str());
    if let Err(e) = validate_local_ezmovie_share_url(import_url.as_str()) {
        return Err(e);
    }
    let lan_preview_url = stream_url;
    if trimmed(lan_preview_url.as_str()).as_str().is_empty() {
        return Err(text("ezmovie 会话缺少局域网预览地址"));
    }
    if let Err(e) = validate_local_ezmovie_share_url(lan_preview_url.as_str()) {
        return Err(e);
    }
    let room_id = match &session.room_id {
        Some(id) => {
            if trimmed(id.as_str()).as_str().is_empty() {
                return Err(text("ezmovie 会话缺少房间 ID"));
            }
            id.clone()
        },
        None => {
            return Err(text("ezmovie 会话缺少房间 ID"));
        },
    };
    Ok(
        Some(
            LocalEzmovieStreamInfo {
                active: true,
                url: import_url.clone(),
                lan_preview_url,
                quick_lan_import_url: import_url,
                room_id,
                stream_code: session.stream_code.clone(),
            },
        ),
    )
}

/// The error for an avatar file of another kind.
pub open spec fn avatar_kind_error() -> Seq<char> {
    "头像文件需要 jpg、png 或 webp 格式"@
}

/// The extension an avatar is kept under, by its file's extension.
pub open spec fn avatar_extension_of(extension: Option<Seq<char>>) -> Result<Seq<char>, Seq<char>> {
    match extension {
        None => Err(avatar_kind_error()),
        Some(e) => {
            let l = ascii_lower(e);
            if l == "jpg"@ || l == "jpeg"@ {
                Ok("jpg"@)
            } else if l == "png"@ {
                Ok("png"@)
            } else if l == "webp"@ {
                Ok("webp"@)
            } else {
                Err(avatar_kind_error())
            }
        },
    }
}

/// The extension an avatar is kept under.
pub fn avatar_extension(extension: Option<&str>) -> (r: Result<&'static str, String>)
    ensures
        match r {
            Ok(e) => avatar_extension_of(opt_str_view(extension)) == Ok::<Seq<char>, Seq<char>>(e@),
            Err(e) => avatar_extension_of(opt_str_view(extension)) == Err::<Seq<char>, Seq<char>>(
                e@,
            ),
        },
{
    let e = match extension {
        Some(e) => e,
        None => {
            return Err(text("头像文件需要 jpg、png 或 webp 格式"));
        },
    };
    let l = ascii_lowercase(e);
    if crate::text::str_eq(l.as_str(), "jpg") || crate::text::str_eq(l.as_str(), "jpeg") {
        Ok("jpg")
    } else if crate::text::str_eq(l.as_str(), "png") {
        Ok("png")
    } else if crate::text::str_eq(l.as_str(), "webp") {
        Ok("webp")
    } else {
        Err(text("头像文件需要 jpg、png 或 webp 格式"))
    }
}

/// Where the app's control API listens.
#[derive(Debug, Clone)]
pub struct ControlApiInfo {
    pub enabled: bool,
    pub bind: String,
}

/// The app's version and this device's id.
#[derive(Debug, Clone)]
pub struct AppInfo {
    pub version: &'static str,
    pub device_id: String,
}

// ---------------------------------------------------------------------------
// Game room requests from the window.
// ---------------------------------------------------------------------------

/// The game type a listing asks for: none for every type, the one named
/// "gomoku", or an error naming any other.
pub fn parse_game_type(value: Option<&str>) -> (r: Result<Option<GameType>, String>)
    ensures
        match value {
            None => r == Ok::<Option<GameType>, String>(None),
            Some(v) => if v@ == "gomoku"@ {
                r == Ok::<Option<GameType>, String>(Some(GameType::Gomoku))
            } else {
                r matches Err(e) && e@ == "不支持的游戏类型: "@ + v@
            },
        },
{
    match value {
        None => Ok(None),
        Some(v) => {
            if crate::text::str_eq(v, "gomoku") {
                Ok(Some(GameType::Gomoku))
            } else {
                Err(joined(text("不支持的游戏类型: "), v))
            }
        },
    }
}

/// The visibility a new game room asks for: "public" or "password".
pub fn parse_visibility(value: &str) -> (r: Result<GameRoomVisibility, String>)
    ensures
        value@ == "public"@ ==> r == Ok::<GameRoomVisibility, String>(GameRoomVisibility::Public),
        value@ == "password"@ ==> r == Ok::<GameRoomVisibility, String>(GameRoomVisibility::Password),
        value@ != "public"@ && value@ != "password"@ ==> (r matches Err(e) && e@ == "无效的房间可见性"@),
{
    proof {
        reveal_strlit("public");
        reveal_strlit("password");
        assert("public"@.len() != "password"@.len());
    }
    if crate::text::str_eq(value, "public") {
        Ok(GameRoomVisibility::Public)
    } else if crate::text::str_eq(value, "password") {
        Ok(GameRoomVisibility::Password)
    } else {
        Err(text("无效的房间可见性"))
    }
}

/// The name a new game room gets: the one given, or, when it is blank,
/// "<nickname> 的五子棋房间".
pub fn game_room_name(room_name: String, nickname: &str) -> (r: String)
    ensures
        trim(room_name@).len() == 0 ==> r@ == nickname@ + " 的五子棋房间"@,
        trim(room_name@).len() > 0 ==> r@ == room_name@,
{
    if crate::text::is_blank(room_name.as_str()) {
        joined(text(nickname), " 的五子棋房间")
    } else {
        room_name
    }
}

} // verus!
