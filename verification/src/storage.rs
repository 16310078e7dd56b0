use crate::numbers::{decimal_of, decimal_text};
use crate::pieces::{strip_char, strip_char_text};
use crate::text::{chars_of, control_char, is_blank, is_control_char, opt_view, push_char, trim, trimmed};
use crate::watch::result_view;
use vstd::prelude::*;
use vstd::string::StringExecFns;

verus! {

/// How many numbered names are tried for a download before giving up.
pub const MAX_NAME_ATTEMPTS: u32 = 9999;

/// A character that file names on Windows cannot hold.
pub open spec fn is_reserved_char(c: char) -> bool {
    c == '/' || c == '\\' || c == ':' || c == '*' || c == '?' || c == '"' || c == '<' || c == '>'
        || c == '|'
}

/// `s` with reserved and control characters replaced by `_`.
pub open spec fn sanitized(s: Seq<char>) -> Seq<char> {
    s.map_values(|c: char| if is_reserved_char(c) || is_control_char(c) { '_' } else { c })
}

/// A file name safe to save under: reserved and control characters replaced
/// by `_`, white space cut from both ends, then dots cut from both ends.
pub open spec fn safe_name_of(name: Seq<char>) -> Seq<char> {
    strip_char(trim(sanitized(name)), '.')
}

pub fn safe_file_name(name: &str) -> (r: String)
    ensures
        r@ == safe_name_of(name@),
{
    let chars = chars_of(name);
    let mut cleaned = String::new();
    let mut i: usize = 0;
    while i < chars.len()
        invariant
            i <= chars@.len(),
            chars@ == name@,
            cleaned@ == sanitized(name@).take(i as int),
        decreases chars@.len() - i,
    {
        let c = chars[i];
        let reserved = c == '/' || c == '\\' || c == ':' || c == '*' || c == '?' || c == '"' || c
            == '<' || c == '>' || c == '|';
        let out = if reserved || control_char(c) {
            '_'
        } else {
            c
        };
        push_char(&mut cleaned, out);
        assert(sanitized(name@).take(i + 1) =~= sanitized(name@).take(i as int).push(out));
        i = i + 1;
    }
    assert(sanitized(name@).take(i as int) =~= sanitized(name@));
    let t = trimmed(cleaned.as_str());
    strip_char_text(t.as_str(), '.')
}

/// The name tried for a download on attempt `attempt`: the name itself
/// first, then the stem with the attempt's number in brackets, before the
/// extension when there is one.
pub open spec fn candidate_name_of(
    file_name: Seq<char>,
    stem: Seq<char>,
    extension: Seq<char>,
    attempt: u32,
) -> Seq<char> {
    if attempt == 0 {
        file_name
    } else if extension.len() == 0 {
        stem + " ("@ + decimal_of(attempt as nat) + ")"@
    } else {
        stem + " ("@ + decimal_of(attempt as nat) + ")."@ + extension
    }
}

/// The stem a name is numbered under: its own, or "download".
pub open spec fn stem_or_default(stem: Option<Seq<char>>) -> Seq<char> {
    match stem {
        Some(s) => s,
        None => "download"@,
    }
}

/// The extension a name keeps: its own, or none.
pub open spec fn extension_or_none(extension: Option<Seq<char>>) -> Seq<char> {
    match extension {
        Some(e) => e,
        None => Seq::empty(),
    }
}

/// The text of an optional string slice.
pub open spec fn opt_str(o: Option<&str>) -> Option<Seq<char>> {
    match o {
        Some(s) => Some(s@),
        None => None,
    }
}

/// The name tried for a download on attempt `attempt`, from the name and
/// its stem and extension (as the path of the name gives them).
pub fn candidate_file_name(
    file_name: &str,
    stem: Option<&str>,
    extension: Option<&str>,
    attempt: u32,
) -> (r: String)
    ensures
        r@ == candidate_name_of(
            file_name@,
            stem_or_default(opt_str(stem)),
            extension_or_none(opt_str(extension)),
            attempt,
        ),
{
    if attempt == 0 {
        return file_name.to_string();
    }
    let stem = match stem {
        Some(s) => s,
        None => "download",
    };
    let extension = match extension {
        Some(e) => e,
        None => "",
    };
    proof {
        reveal_strlit("");
    }
    let mut out = stem.to_string();
    out.append(" (");
    out.append(decimal_text(attempt as u64).as_str());
    if extension.is_empty() {
        out.append(")");
    } else {
        out.append(").");
        out.append(extension);
    }
    out
}

// ---------------------------------------------------------------------------
// File names of paths.
// ---------------------------------------------------------------------------

/// `name` stands in `path` as a run of its characters.
pub open spec fn part_of(path: Seq<char>, name: Seq<char>) -> bool {
    exists|i: int| 0 <= i && i + name.len() <= path.len() && #[trigger] path.subrange(i, i + name.len()) == name
}

/// `name` holds no `/`.
pub open spec fn no_slash(name: Seq<char>) -> bool {
    !name.contains('/')
}

/// A path of one plain component on every platform: not empty, not `.` or
/// `..`, and holding none of `/`, `\` and `:`, which separate components or
/// start a prefix.
pub open spec fn single_component(path: Seq<char>) -> bool {
    &&& path.len() > 0
    &&& path != "."@
    &&& path != ".."@
    &&& forall|i: int| 0 <= i < path.len() ==> #[trigger] path[i] != '/' && path[i] != '\\' && path[i] != ':'
}

/// `path` has a `/` at `k` followed by one plain last component, with no `\`
/// or `:` before it and no leading `//`: the characters that, on some
/// platform, separate components otherwise or start a prefix.
pub open spec fn plain_last_component(path: Seq<char>, k: int) -> bool {
    &&& 0 <= k < path.len()
    &&& path[k] == '/'
    &&& single_component(path.skip(k + 1))
    &&& forall|i: int| 0 <= i < k ==> #[trigger] path[i] != '\\' && path[i] != ':'
    &&& !(path.len() >= 2 && path[0] == '/' && path[1] == '/')
}

/// `Path::file_name` (std), read as text: the last component of `path`, or
/// `None` when it has none (a root, or a path ending in `..`).  Some
/// characters separate components or start a prefix on one platform only, so
/// the contract says what holds on every platform: a name that comes back is
/// a non-empty run of the path's characters holding no `/`; a path of one
/// plain component is its own file name; and a path whose last `/` is
/// followed by a plain component, with none of those characters before it,
/// has that component as its file name.
#[verifier::external_body]
fn file_name_part(path: &str) -> (r: Option<String>)
    ensures
        r matches Some(n) ==> n@.len() > 0 && part_of(path@, n@) && no_slash(n@),
        single_component(path@) ==> opt_view(r) == Some(path@),
        forall|k: int| #[trigger] plain_last_component(path@, k) ==> opt_view(r) == Some(path@.skip(k + 1)),
{
    std::path::Path::new(path).file_name().and_then(|name| name.to_str()).map(|name| name.to_string())
}

/// The name of the file at `path`, given the file name part of the path
/// (`name`): that part when it is there and not blank, else the error that
/// names the path.
pub open spec fn file_name_result(path: Seq<char>, name: Option<Seq<char>>) -> Result<Seq<char>, Seq<char>> {
    match name {
        Some(n) => if trim(n).len() > 0 {
            Ok(n)
        } else {
            Err("无法解析文件名: "@ + path)
        },
        None => Err("无法解析文件名: "@ + path),
    }
}

/// The name of the file at `path`, from the file name part of the path.
pub fn file_name_from(path: &str, name: Option<String>) -> (r: Result<String, String>)
    ensures
        result_view(r) == file_name_result(path@, opt_view(name)),
{
    match name {
        Some(n) => {
            if !is_blank(n.as_str()) {
                return Ok(n);
            }
        },
        None => {},
    }
    let mut message = "无法解析文件名: ".to_string();
    message.append(path);
    Err(message)
}

/// The name of the file at `path`: its last component, which must not be
/// blank.  For a path whose last `/` is followed by a plain component, and
/// that holds no `\`, `:` or leading `//`, that component is the name.
pub fn path_file_name(path: &str) -> (r: Result<String, String>)
    ensures
        r matches Ok(n) ==> trim(n@).len() > 0 && part_of(path@, n@) && no_slash(n@),
        r matches Err(e) ==> e@ == "无法解析文件名: "@ + path@,
        single_component(path@) && trim(path@).len() > 0 ==> result_view(r) == Ok::<Seq<char>, Seq<char>>(path@),
        forall|k: int|
            #[trigger] plain_last_component(path@, k) && trim(path@.skip(k + 1)).len() > 0 ==> result_view(r)
                == Ok::<Seq<char>, Seq<char>>(path@.skip(k + 1)),
{
    file_name_from(path, file_name_part(path))
}

} // verus!
