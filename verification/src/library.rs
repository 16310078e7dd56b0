use crate::protocol::{LibrarySettings, ManifestShare, ShareItem, ShareVersion};
use crate::text::{
    chars_of, clean_chars, clean_text, is_blank, lemma_filter_insert, lemma_seq_lt_irreflexive, lemma_seq_lt_transitive, seq_lt,
    str_eq, str_lt, string_of, trim, trimmed,
};
use crate::digest::{sha256_text, text_digest};
use vstd::prelude::*;

verus! {

#[derive(Debug, Clone)]
pub struct LibrarySummary {
    pub library_version: i64,
    pub share_count: i64,
    pub manifest_hash: String,
}

#[derive(Debug, Clone)]
pub struct DownloadSource {
    pub share_id: String,
    pub version: i64,
    pub file_hash: String,
    pub name: String,
    pub size: u64,
    pub device_id: String,
    pub device_name: String,
    pub ip: String,
    pub tcp_port: u16,
    pub api_port: u16,
    pub is_local: bool,
}

#[derive(Debug, Clone)]
pub struct SharedContent {
    pub share_id: String,
    pub version: i64,
    pub file_hash: String,
    pub name: String,
    pub size: u64,
    pub path: String,
}

/// The prefix that marks a stored password as a digest.
pub open spec fn digest_prefix() -> Seq<char> {
    "sha256:"@
}

/// The category a share is filed under: the trimmed category cut to 32
/// characters, or "其他" when it is blank.
pub open spec fn category_of(value: Seq<char>) -> Seq<char> {
    if trim(value).len() == 0 {
        "其他"@
    } else {
        take_chars_of(trim(value), 32)
    }
}

pub open spec fn take_chars_of(s: Seq<char>, n: nat) -> Seq<char> {
    crate::text::take_chars(s, n)
}

pub fn clean_category(value: &str) -> (r: String)
    ensures
        r@ == category_of(value@),
{
    if is_blank(value) {
        "其他".to_string()
    } else {
        clean_chars(value, 32)
    }
}

/// A share's permission: "password", or "public" for anything else.
pub open spec fn permission_of(value: Seq<char>) -> Seq<char> {
    if value == "password"@ {
        "password"@
    } else {
        "public"@
    }
}

pub fn clean_permission(value: &str) -> (r: String)
    ensures
        r@ == permission_of(value@),
{
    if str_eq(value, "password") {
        "password".to_string()
    } else {
        "public".to_string()
    }
}

/// A device note as kept: trimmed and cut to 48 characters.
pub fn clean_device_note(value: &str) -> (r: String)
    ensures
        r@ == clean_text(value@, 48),
{
    clean_chars(value, 48)
}

/// The password a share stores: none for a public share, the digest of the
/// trimmed password, marked with its prefix, for a password share.
pub open spec fn stored_password(permission: Seq<char>, password: Option<Seq<char>>) -> Option<Seq<char>> {
    if permission_of(permission) != "password"@ {
        None
    } else {
        Some(digest_prefix() + text_digest(trim(password.unwrap_or(Seq::empty()))))
    }
}

/// The password a share stores, or the error for a password share without one.
pub fn normalized_password_for_storage(permission: &str, password: Option<&str>) -> (r: Result<Option<String>, String>)
    ensures
        match r {
            Ok(stored) => crate::text::opt_view(stored) == stored_password(permission@, opt_str_view(password))
                && !(permission_of(permission@) == "password"@ && trim(opt_str_view(password).unwrap_or(Seq::empty())).len() == 0),
            Err(e) => e@ == "密码共享必须设置访问密码"@ && permission_of(permission@) == "password"@
                && trim(opt_str_view(password).unwrap_or(Seq::empty())).len() == 0,
        },
{
    let permission = clean_permission(permission);
    if !str_eq(permission.as_str(), "password") {
        return Ok(None);
    }
    let password = match password {
        Some(p) => trimmed(p),
        None => {
            assert(trim(Seq::<char>::empty()) =~= Seq::<char>::empty());
            String::new()
        },
    };
    if password.as_str().is_empty() {
        return Err("密码共享必须设置访问密码".to_string());
    }
    let mut stored = "sha256:".to_string();
    let digest = sha256_text(password.as_str());
    stored.append(digest.as_str());
    Ok(Some(stored))
}

/// The text view of an optional string slice.
pub open spec fn opt_str_view(o: Option<&str>) -> Option<Seq<char>> {
    match o {
        Some(s) => Some(s@),
        None => None,
    }
}

/// Whether a password given on download matches the stored one: the trimmed
/// input's digest is compared to a digest, the trimmed input itself to a
/// password kept as it was given.
pub open spec fn matches_stored(input: Seq<char>, stored: Seq<char>) -> bool {
    if stored.len() >= digest_prefix().len() && stored.take(digest_prefix().len() as int)
        == digest_prefix() {
        text_digest(trim(input)) == stored.skip(digest_prefix().len() as int)
    } else {
        trim(input) == stored
    }
}

pub fn password_matches(input: &str, stored: &str) -> (r: bool)
    ensures
        r == matches_stored(input@, stored@),
{
    let input = trimmed(input);
    let chars = chars_of(stored);
    let prefix = chars_of("sha256:");
    let n = prefix.len();
    let mut has_prefix = chars.len() >= n;
    let mut i: usize = 0;
    while has_prefix && i < n
        invariant_except_break
            i <= n == prefix@.len(),
            prefix@ == "sha256:"@,
            chars@ == stored@,
            has_prefix ==> chars@.len() >= n,
            forall|k: int| 0 <= k < i ==> chars@[k] == prefix@[k],
            !has_prefix ==> !(stored@.len() >= n && stored@.take(n as int) == prefix@),
        ensures
            has_prefix ==> chars@.len() >= n && forall|k: int| 0 <= k < n ==> chars@[k] == prefix@[k],
            !has_prefix ==> !(stored@.len() >= n && stored@.take(n as int) == prefix@),
        decreases n - i,
    {
        if chars[i] != prefix[i] {
            has_prefix = false;
            assert(stored@.take(n as int)[i as int] != prefix@[i as int]);
            break;
        }
        i = i + 1;
    }
    if has_prefix {
        assert(stored@.take(n as int) =~= prefix@);
        let rest = string_of(&chars, n, chars.len());
        let digest = sha256_text(input.as_str());
        assert(rest@ =~= stored@.skip(n as int));
        str_eq(digest.as_str(), rest.as_str())
    } else {
        str_eq(input.as_str(), stored)
    }
}

/// An upload speed cap: one of the offered values, or "unlimited".
pub open spec fn speed_of(value: Seq<char>) -> Seq<char> {
    if value == "10MB/s"@ || value == "50MB/s"@ || value == "100MB/s"@ {
        value
    } else {
        "unlimited"@
    }
}

pub fn normalize_speed(value: &str) -> (r: String)
    ensures
        r@ == speed_of(value@),
{
    if str_eq(value, "10MB/s") || str_eq(value, "50MB/s") || str_eq(value, "100MB/s") {
        value.to_string()
    } else {
        "unlimited".to_string()
    }
}

/// The library settings a device starts with.
pub fn default_library_settings() -> (r: LibrarySettings)
    ensures
        r.acceleration_enabled,
        r.max_upload_speed@ == "unlimited"@,
        r.max_upload_tasks == 3,
        r.cache_limit_gb == 50,
{
    LibrarySettings {
        acceleration_enabled: true,
        max_upload_speed: "unlimited".to_string(),
        max_upload_tasks: 3,
        cache_limit_gb: 50,
    }
}

/// `v` held within `lo..=hi`.
pub open spec fn clamped(v: i64, lo: i64, hi: i64) -> i64 {
    if v < lo {
        lo
    } else if v > hi {
        hi
    } else {
        v
    }
}

fn clamp(v: i64, lo: i64, hi: i64) -> (r: i64)
    ensures
        r == clamped(v, lo, hi),
{
    if v < lo {
        lo
    } else if v > hi {
        hi
    } else {
        v
    }
}

/// Library settings as stored: at most 1 to 5 upload tasks, a cache of 10 to
/// 500 GB, and a known speed cap.
pub fn normalized_library_settings(settings: LibrarySettings) -> (r: LibrarySettings)
    ensures
        r.acceleration_enabled == settings.acceleration_enabled,
        r.max_upload_speed@ == speed_of(settings.max_upload_speed@),
        r.max_upload_tasks == clamped(settings.max_upload_tasks, 1, 5),
        r.cache_limit_gb == clamped(settings.cache_limit_gb, 10, 500),
{
    LibrarySettings {
        acceleration_enabled: settings.acceleration_enabled,
        max_upload_speed: normalize_speed(settings.max_upload_speed.as_str()),
        max_upload_tasks: clamp(settings.max_upload_tasks, 1, 5),
        cache_limit_gb: clamp(settings.cache_limit_gb, 10, 500),
    }
}

// ---------------------------------------------------------------------------
// What the library decides from what its database holds.
// ---------------------------------------------------------------------------

/// Whether a device's announcement says its library changed since it was last
/// seen: a device seen for the first time, or one with another library version
/// or manifest hash.
pub fn library_changed(previous: Option<(i64, &str)>, library_version: i64, manifest_hash: &str) -> (r:
    bool)
    ensures
        r == match previous {
            Some((v, h)) => v != library_version || h@ != manifest_hash@,
            None => true,
        },
{
    match previous {
        Some((v, h)) => v != library_version || !str_eq(h, manifest_hash),
        None => true,
    }
}

/// The texts of a list of strings.
pub open spec fn id_texts(v: Seq<String>) -> Seq<Seq<char>> {
    v.map_values(|s: String| s@)
}

/// The shares of a device still active here that its manifest no longer
/// lists, in the order given.
pub fn shares_to_deactivate(active: &Vec<String>, listed: &Vec<String>) -> (r: Vec<String>)
    ensures
        id_texts(r@) == id_texts(active@).filter(|id: Seq<char>| !id_texts(listed@).contains(id)),
{
    let ghost model = id_texts(active@);
    let ghost names = id_texts(listed@);
    let ghost pred = |id: Seq<char>| !names.contains(id);
    let mut out: Vec<String> = Vec::new();
    let mut i: usize = 0;
    while i < active.len()
        invariant
            i <= active@.len(),
            model == id_texts(active@),
            names == id_texts(listed@),
            pred == (|id: Seq<char>| !names.contains(id)),
            id_texts(out@) == model.take(i as int).filter(pred),
        decreases active.len() - i,
    {
        assert(model.take(i + 1).drop_last() =~= model.take(i as int));
        assert(model[i as int] == active@[i as int]@);
        assert(model.take(i + 1).last() == active@[i as int]@);
        let mut found = false;
        let mut k: usize = 0;
        while k < listed.len()
            invariant
                k <= listed@.len(),
                i < active@.len(),
                names == id_texts(listed@),
                found == (exists|j: int| 0 <= j < k && names[j] == active@[i as int]@),
            decreases listed.len() - k,
        {
            assert(names[k as int] == listed@[k as int]@);
            if str_eq(listed[k].as_str(), active[i].as_str()) {
                found = true;
            }
            k = k + 1;
        }
        reveal_with_fuel(Seq::<_>::filter, 1);
        assert(pred(active@[i as int]@) == !found);
        if !found {
            let ghost before = id_texts(out@);
            out.push(active[i].clone());
            assert(id_texts(out@) =~= before.push(active@[i as int]@));
        }
        i = i + 1;
    }
    assert(model.take(i as int) =~= model);
    out
}

/// Why a download of a share is refused for its password, if it is: the
/// share is gone, or it is a password share whose password was not given.
pub open spec fn share_password_error(
    row: Option<(Seq<char>, Option<Seq<char>>)>,
    password: Option<Seq<char>>,
) -> Option<Seq<char>> {
    match row {
        None => Some("共享资源不存在"@),
        Some((permission, stored)) => if permission != "password"@ {
            None
        } else {
            match stored {
                None => Some("密码错误"@),
                Some(h) => if trim(h).len() == 0 {
                    Some("密码错误"@)
                } else if matches_stored(password.unwrap_or(Seq::empty()), h) {
                    None
                } else {
                    Some("密码错误"@)
                },
            }
        },
    }
}

/// The text of an optional string slice, and of a pair read from a share.
pub open spec fn share_row_view(row: Option<(&str, Option<&str>)>) -> Option<
    (Seq<char>, Option<Seq<char>>),
> {
    match row {
        Some((p, s)) => Some((p@, opt_str_view(s))),
        None => None,
    }
}

/// Checks a password given for a share against the share's row (its
/// permission and stored password), or its absence.
pub fn check_share_password(row: Option<(&str, Option<&str>)>, password: Option<&str>) -> (r: Result<
    (),
    String,
>)
    ensures
        match r {
            Ok(()) => share_password_error(share_row_view(row), opt_str_view(password)) is None,
            Err(e) => share_password_error(share_row_view(row), opt_str_view(password)) == Some(
                e@,
            ),
        },
{
    let (permission, stored) = match row {
        Some(r) => r,
        None => {
            return Err("共享资源不存在".to_string());
        },
    };
    if !str_eq(permission, "password") {
        return Ok(());
    }
    let stored = match stored {
        Some(h) => h,
        None => {
            return Err("密码错误".to_string());
        },
    };
    if is_blank(stored) {
        return Err("密码错误".to_string());
    }
    let given = match password {
        Some(p) => p,
        None => "",
    };
    proof {
        reveal_strlit("");
    }
    if password_matches(given, stored) {
        Ok(())
    } else {
        Err("密码错误".to_string())
    }
}

/// The version a local share gets when its file is replaced: one past its
/// latest, when the share is known.
pub fn next_share_version(current: Option<i64>) -> (r: Result<i64, String>)
    requires
        current matches Some(v) ==> v < i64::MAX,
    ensures
        match current {
            Some(v) => r matches Ok(n) && n == v + 1,
            None => r matches Err(e) && e@ == "共享资源不存在"@,
        },
{
    match current {
        Some(v) => Ok(v + 1),
        None => Err("共享资源不存在".to_string()),
    }
}

/// What removing a local share ends with, by how many rows it changed.
pub fn removal_result(changed: usize) -> (r: Result<(), String>)
    ensures
        changed == 0 <==> r is Err,
        r matches Err(e) ==> e@ == "共享资源不存在"@,
{
    if changed == 0 {
        Err("共享资源不存在".to_string())
    } else {
        Ok(())
    }
}


// ---------------------------------------------------------------------------
// Choosing where to download from.
// ---------------------------------------------------------------------------

/// A replica a share could be downloaded from, with what decides between
/// replicas: whether the share is still offered, whether the replica's
/// device is online, how many uploads it is serving, and its latency.
#[derive(Debug)]
pub struct ReplicaCandidate {
    pub source: DownloadSource,
    pub share_active: bool,
    pub online: bool,
    pub upload_tasks: i64,
    pub latency_ms: Option<i64>,
}

/// The latency a replica is ranked by; an unknown latency counts as 999999 ms.
pub open spec fn latency_rank(latency_ms: Option<i64>) -> int {
    match latency_ms {
        Some(v) => v as int,
        None => 999999,
    }
}

/// A replica that can serve a download: its share is offered and its device
/// online.
pub open spec fn usable(c: ReplicaCandidate) -> bool {
    c.share_active && c.online
}

/// `a` is preferred to `b`: a newer version, then fewer uploads under way,
/// then a lower latency, then this device's own copy.
pub open spec fn preferred(a: ReplicaCandidate, b: ReplicaCandidate) -> bool {
    ||| a.source.version > b.source.version
    ||| (a.source.version == b.source.version && a.upload_tasks < b.upload_tasks)
    ||| (a.source.version == b.source.version && a.upload_tasks == b.upload_tasks && latency_rank(
        a.latency_ms,
    ) < latency_rank(b.latency_ms))
    ||| (a.source.version == b.source.version && a.upload_tasks == b.upload_tasks && latency_rank(
        a.latency_ms,
    ) == latency_rank(b.latency_ms) && a.source.is_local && !b.source.is_local)
}

/// Replica `i` is the one chosen: usable, with no usable replica preferred
/// to it, and preferred to every usable replica listed before it.
pub open spec fn chosen_at(s: Seq<ReplicaCandidate>, i: int) -> bool {
    &&& 0 <= i < s.len()
    &&& usable(s[i])
    &&& forall|j: int| 0 <= j < s.len() && usable(#[trigger] s[j]) ==> !preferred(s[j], s[i])
    &&& forall|j: int| 0 <= j < i && usable(#[trigger] s[j]) ==> preferred(s[i], s[j])
}

fn is_preferred(a: &ReplicaCandidate, b: &ReplicaCandidate) -> (r: bool)
    ensures
        r == preferred(*a, *b),
{
    let la: i64 = match a.latency_ms {
        Some(v) => v,
        None => 999999,
    };
    let lb: i64 = match b.latency_ms {
        Some(v) => v,
        None => 999999,
    };
    a.source.version > b.source.version || (a.source.version == b.source.version && a.upload_tasks
        < b.upload_tasks) || (a.source.version == b.source.version && a.upload_tasks
        == b.upload_tasks && la < lb) || (a.source.version == b.source.version && a.upload_tasks
        == b.upload_tasks && la == lb && a.source.is_local && !b.source.is_local)
}

/// The download source of a share: among the usable replicas, the one
/// preferred to all others (the first listed among equals).  An error when
/// no replica is usable.
pub fn choose_download_source(candidates: Vec<ReplicaCandidate>) -> (r: Result<DownloadSource, String>)
    ensures
        match r {
            Ok(source) => exists|i: int| chosen_at(candidates@, i) && source == candidates@[i].source,
            Err(e) => e@ == "当前没有可用的在线副本节点"@ && forall|j: int|
                0 <= j < candidates@.len() ==> !usable(#[trigger] candidates@[j]),
        },
{
    let ghost s = candidates@;
    let mut best: Option<usize> = None;
    let mut j: usize = 0;
    while j < candidates.len()
        invariant
            j <= s.len(),
            s == candidates@,
            best is None ==> forall|k: int| 0 <= k < j ==> !usable(#[trigger] s[k]),
            best matches Some(b) ==> {
                &&& b < j
                &&& usable(s[b as int])
                &&& forall|k: int| 0 <= k < j && usable(#[trigger] s[k]) ==> !preferred(s[k], s[b as int])
                &&& forall|k: int| 0 <= k < b && usable(#[trigger] s[k]) ==> preferred(s[b as int], s[k])
            },
        decreases candidates.len() - j,
    {
        let c = &candidates[j];
        if c.share_active && c.online {
            match best {
                None => {
                    best = Some(j);
                },
                Some(b) => {
                    if is_preferred(c, &candidates[b]) {
                        assert forall|k: int| 0 <= k <= j && usable(#[trigger] s[k]) implies !preferred(
                            s[k],
                            s[j as int],
                        ) by {
                            if k < j {
                                assert(!preferred(s[k], s[b as int]));
                            }
                        }
                        assert forall|k: int| 0 <= k < j && usable(#[trigger] s[k]) implies preferred(
                            s[j as int],
                            s[k],
                        ) by {
                            if k < b {
                                assert(preferred(s[b as int], s[k]));
                            } else if k > b {
                                assert(!preferred(s[k], s[b as int]));
                            }
                        }
                        best = Some(j);
                    }
                },
            }
        }
        j = j + 1;
    }
    match best {
        None => Err("当前没有可用的在线副本节点".to_string()),
        Some(b) => {
            let mut candidates = candidates;
            let c = candidates.remove(b);
            assert(chosen_at(s, b as int));
            Ok(c.source)
        },
    }
}

// ---------------------------------------------------------------------------
// Versions and listing order.
// ---------------------------------------------------------------------------

/// The latest version of a share: the highest version number it has, or 1
/// when it has none.
pub fn latest_version(versions: &Vec<ShareVersion>) -> (r: i64)
    ensures
        versions@.len() == 0 ==> r == 1,
        versions@.len() > 0 ==> (exists|i: int| 0 <= i < versions@.len() && r == #[trigger] versions@[i].version)
            && forall|i: int| 0 <= i < versions@.len() ==> #[trigger] versions@[i].version <= r,
{
    if versions.len() == 0 {
        return 1;
    }
    let mut m: i64 = versions[0].version;
    let mut i: usize = 1;
    while i < versions.len()
        invariant
            1 <= i <= versions@.len(),
            exists|k: int| 0 <= k < i && m == #[trigger] versions@[k].version,
            forall|k: int| 0 <= k < i ==> #[trigger] versions@[k].version <= m,
        decreases versions.len() - i,
    {
        if versions[i].version > m {
            m = versions[i].version;
        }
        i = i + 1;
    }
    m
}

/// `a` is listed before `b`: updated more recently, then by name.
pub open spec fn share_listed_before(a: ShareItem, b: ShareItem) -> bool {
    a.updated_at > b.updated_at || (a.updated_at == b.updated_at && seq_lt(a.name@, b.name@))
}

/// Shares in listing order.
pub open spec fn shares_sorted(s: Seq<ShareItem>) -> bool {
    forall|i: int, j: int| 0 <= i < j < s.len() ==> !share_listed_before(#[trigger] s[j], #[trigger] s[i])
}

fn share_first(a: &ShareItem, b: &ShareItem) -> (r: bool)
    ensures
        r == share_listed_before(*a, *b),
{
    a.updated_at > b.updated_at || (a.updated_at == b.updated_at && str_lt(a.name.as_str(), b.name.as_str()))
}

proof fn lemma_share_order(a: ShareItem, b: ShareItem, c: ShareItem)
    ensures
        !share_listed_before(a, a),
        share_listed_before(a, b) && share_listed_before(b, c) ==> share_listed_before(a, c),
{
    lemma_seq_lt_irreflexive(a.name@);
    if share_listed_before(a, b) && share_listed_before(b, c) && a.updated_at == b.updated_at
        && b.updated_at == c.updated_at {
        lemma_seq_lt_transitive(a.name@, b.name@, c.name@);
    }
}

/// Shares of the same listing rank: updated at the same time, with the same
/// name.
pub open spec fn share_same_rank(a: ShareItem, b: ShareItem) -> bool {
    a.updated_at == b.updated_at && a.name@ == b.name@
}

/// The shares of `items` of the same listing rank as `k`, in their order.
pub open spec fn share_rank_group(items: Seq<ShareItem>, k: ShareItem) -> Seq<ShareItem> {
    items.filter(|c: ShareItem| share_same_rank(c, k))
}

/// Sorts shares into listing order: most recently updated first, then by
/// name, keeping shares of the same rank in the order given.
pub fn sort_share_items(items: Vec<ShareItem>) -> (r: Vec<ShareItem>)
    ensures
        r@.to_multiset() == items@.to_multiset(),
        shares_sorted(r@),
        forall|k: ShareItem| #[trigger] share_rank_group(r@, k) == share_rank_group(items@, k),
{
    let ghost input = items@;
    let mut rest = items;
    let mut out: Vec<ShareItem> = Vec::new();
    let ghost mut i: int = 0;
    assert(rest@ =~= input.skip(0));
    assert(out@ =~= input.take(0));
    while rest.len() > 0
        invariant
            0 <= i <= input.len(),
            rest@ == input.skip(i),
            out@.to_multiset() == input.take(i).to_multiset(),
            shares_sorted(out@),
            forall|k: ShareItem| #[trigger] share_rank_group(out@, k) == share_rank_group(input.take(i), k),
        decreases rest@.len(),
    {
        let item = rest.remove(0);
        let ghost x = item;
        assert(x == input[i]);
        let ghost cur = out@;
        let mut p: usize = 0;
        while p < out.len() && !share_first(&item, &out[p])
            invariant
                p <= out@.len(),
                cur == out@,
                x == item,
                forall|k: int| 0 <= k < p ==> !share_listed_before(x, #[trigger] cur[k]),
            decreases out.len() - p,
        {
            p = p + 1;
        }
        out.insert(p, item);
        let ghost next = out@;
        assert(next =~= cur.insert(p as int, x));
        proof {
            vstd::seq_lib::to_multiset_insert(cur, p as int, x);
            vstd::seq_lib::to_multiset_build(input.take(i), x);
            assert(input.take(i + 1) =~= input.take(i).push(x));
            assert(rest@ =~= input.skip(i + 1));
            assert forall|j: int| p <= j < cur.len() implies !share_same_rank(#[trigger] cur[j], x) by {
                assert(share_listed_before(x, cur[p as int]));
                if share_same_rank(cur[j], x) {
                    lemma_share_order(x, x, x);
                    if j > p {
                        assert(!share_listed_before(cur[j], cur[p as int]));
                    }
                }
            }
            assert forall|k: ShareItem| #[trigger] share_rank_group(next, k) == share_rank_group(input.take(i + 1), k) by {
                let pred = |c: ShareItem| share_same_rank(c, k);
                assert forall|j: int| pred(x) && p <= j < cur.len() implies !pred(#[trigger] cur[j]) by {
                    assert(!share_same_rank(cur[j], x));
                }
                lemma_filter_insert(cur, p as int, x, pred);
                input.take(i).lemma_filter_push(x, pred);
                assert(share_rank_group(cur, k) == cur.filter(pred));
                assert(share_rank_group(cur, k) == share_rank_group(input.take(i), k));
                assert(next.filter(pred) == cur.insert(p as int, x).filter(pred));
                assert(input.take(i + 1).filter(pred) == input.take(i).push(x).filter(pred));
            }
            assert forall|a: int, b: int| 0 <= a < b < next.len() implies !share_listed_before(
                #[trigger] next[b],
                #[trigger] next[a],
            ) by {
                if a < p && b == p {
                    assert(next[a] == cur[a]);
                } else if a == p && b > p {
                    assert(next[b] == cur[b - 1]);
                    if share_listed_before(cur[b - 1], x) {
                        lemma_share_order(cur[b - 1], x, cur[p as int]);
                        lemma_share_order(cur[p as int], cur[b - 1], cur[b - 1]);
                        if b - 1 > p {
                            assert(!share_listed_before(cur[b - 1], cur[p as int]));
                        }
                    }
                } else if a < p && b > p {
                    assert(next[a] == cur[a]);
                    assert(next[b] == cur[b - 1]);
                } else if a > p {
                    assert(next[a] == cur[a - 1]);
                    assert(next[b] == cur[b - 1]);
                } else {
                    assert(next[a] == cur[a]);
                    assert(next[b] == cur[b]);
                }
            }
            i = i + 1;
        }
    }
    assert(input.take(i) =~= input);
    out
}

// ---------------------------------------------------------------------------
// Serving a version of a share.
// ---------------------------------------------------------------------------

/// Share `i` is the first with id `id`.
pub open spec fn first_share(shares: Seq<ManifestShare>, id: Seq<char>, i: int) -> bool {
    &&& 0 <= i < shares.len()
    &&& shares[i].share_id@ == id
    &&& forall|k: int| 0 <= k < i ==> (#[trigger] shares[k]).share_id@ != id
}

/// Version `j` of share `i` is the first numbered `version`.
pub open spec fn first_version(share: ManifestShare, version: i64, j: int) -> bool {
    &&& 0 <= j < share.versions@.len()
    &&& share.versions@[j].version == version
    &&& forall|m: int| 0 <= m < j ==> (#[trigger] share.versions@[m]).version != version
}

/// Where version `version` of share `id` stands in a manifest: the first
/// share with that id, and in it the first version with that number; `None`
/// when there is no such share or it has no such version.
pub fn share_version_position(shares: &Vec<ManifestShare>, id: &str, version: i64) -> (r: Option<(usize, usize)>)
    ensures
        match r {
            Some((i, j)) => first_share(shares@, id@, i as int) && first_version(shares@[i as int], version, j as int),
            None => forall|i: int|
                #[trigger] first_share(shares@, id@, i) ==> forall|m: int|
                    0 <= m < shares@[i].versions@.len() ==> (#[trigger] shares@[i].versions@[m]).version != version,
        },
{
    let mut i: usize = 0;
    while i < shares.len()
        invariant
            i <= shares@.len(),
            forall|k: int| 0 <= k < i ==> (#[trigger] shares@[k]).share_id@ != id@,
        decreases shares.len() - i,
    {
        if crate::text::str_eq(shares[i].share_id.as_str(), id) {
            let versions = &shares[i].versions;
            let mut j: usize = 0;
            while j < versions.len()
                invariant
                    i < shares@.len(),
                    shares@[i as int].share_id@ == id@,
                    forall|k: int| 0 <= k < i ==> (#[trigger] shares@[k]).share_id@ != id@,
                    j <= versions@.len(),
                    versions@ == shares@[i as int].versions@,
                    forall|m: int| 0 <= m < j ==> (#[trigger] versions@[m]).version != version,
                decreases versions.len() - j,
            {
                if versions[j].version == version {
                    return Some((i, j));
                }
                j = j + 1;
            }
            proof {
                assert forall|x: int| #[trigger] first_share(shares@, id@, x) implies forall|m: int|
                    0 <= m < shares@[x].versions@.len() ==> (#[trigger] shares@[x].versions@[m]).version
                        != version by {
                    if x < i {
                        assert(shares@[x].share_id@ != id@);
                    } else if x > i {
                        assert(shares@[i as int].share_id@ == id@);
                    }
                }
            }
            return None;
        }
        i = i + 1;
    }
    None
}

} // verus!
