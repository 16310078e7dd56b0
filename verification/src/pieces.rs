use crate::text::{chars_of, is_white_space, push_char, string_of};
use vstd::prelude::*;

verus! {

// ---------------------------------------------------------------------------
// Splitting and stripping text, as `str` does it.
// ---------------------------------------------------------------------------

/// The pieces of `s` between the occurrences of `c`, as `str::split` gives
/// them: always at least one.
pub open spec fn split_on(s: Seq<char>, c: char) -> Seq<Seq<char>>
    decreases s.len(),
{
    if s.len() == 0 {
        seq![Seq::empty()]
    } else {
        let p = split_on(s.drop_last(), c);
        if s.last() == c {
            p.push(Seq::empty())
        } else {
            p.update(p.len() - 1, p.last().push(s.last()))
        }
    }
}

pub proof fn lemma_split_on_len(s: Seq<char>, c: char)
    ensures
        split_on(s, c).len() >= 1,
    decreases s.len(),
{
    if s.len() > 0 {
        lemma_split_on_len(s.drop_last(), c);
    }
}

/// The texts of a list of strings.
pub open spec fn texts(v: Seq<String>) -> Seq<Seq<char>> {
    v.map_values(|s: String| s@)
}

/// `s.split(c)`, collected.
pub fn split_char(s: &str, c: char) -> (r: Vec<String>)
    ensures
        texts(r@) == split_on(s@, c),
        r@.len() >= 1,
{
    let chars = chars_of(s);
    let mut done: Vec<String> = Vec::new();
    let mut current = String::new();
    let mut i: usize = 0;
    assert(chars@.take(0) =~= Seq::<char>::empty());
    assert(texts(done@).push(current@) =~= split_on(chars@.take(0), c));
    while i < chars.len()
        invariant
            i <= chars@.len(),
            chars@ == s@,
            texts(done@).push(current@) == split_on(chars@.take(i as int), c),
        decreases chars@.len() - i,
    {
        let x = chars[i];
        let ghost t = chars@.take(i + 1);
        assert(t.drop_last() =~= chars@.take(i as int));
        assert(t.last() == x);
        proof {
            lemma_split_on_len(chars@.take(i as int), c);
        }
        if x == c {
            let ghost before = texts(done@);
            done.push(current);
            current = String::new();
            assert(texts(done@) =~= before.push(texts(done@).last()));
            assert(texts(done@).push(current@) =~= split_on(t, c));
        } else {
            let ghost before = texts(done@).push(current@);
            push_char(&mut current, x);
            assert(texts(done@).push(current@) =~= before.update(before.len() - 1, before.last().push(
                x,
            )));
        }
        i = i + 1;
    }
    assert(chars@.take(i as int) =~= s@);
    let ghost before = texts(done@);
    done.push(current);
    assert(texts(done@) =~= before.push(texts(done@).last()));
    done
}

/// `s` without every leading and trailing `c`, as `str::trim_matches` with a
/// character gives it.
pub open spec fn strip_char(s: Seq<char>, c: char) -> Seq<char>
    decreases s.len(),
{
    if s.len() > 0 && s[0] == c {
        strip_char(s.drop_first(), c)
    } else if s.len() > 0 && s.last() == c {
        strip_char(s.drop_last(), c)
    } else {
        s
    }
}

proof fn lemma_strip_char_at(s: Seq<char>, c: char, a: int, b: int)
    requires
        0 <= a <= b <= s.len(),
        forall|j: int| 0 <= j < a ==> #[trigger] s[j] == c,
        forall|j: int| b <= j < s.len() ==> #[trigger] s[j] == c,
        a == b || (s[a] != c && s[b - 1] != c),
    ensures
        strip_char(s, c) == s.subrange(a, b),
    decreases s.len(),
{
    if s.len() > 0 && s[0] == c {
        if a == 0 {
            // then a == b == 0 and every character is c
            assert(b == 0);
            let t = s.drop_first();
            assert forall|j: int| 0 <= j < t.len() implies #[trigger] t[j] == c by {
                assert(t[j] == s[j + 1]);
            }
            lemma_strip_char_at(t, c, 0, 0);
            assert(t.subrange(0, 0) =~= s.subrange(0, 0));
        } else {
            let t = s.drop_first();
            assert forall|j: int| 0 <= j < a - 1 implies #[trigger] t[j] == c by {
                assert(t[j] == s[j + 1]);
            }
            assert forall|j: int| b - 1 <= j < t.len() implies #[trigger] t[j] == c by {
                assert(t[j] == s[j + 1]);
            }
            if a < b {
                assert(t[a - 1] == s[a]);
                assert(t[b - 2] == s[b - 1]);
            }
            lemma_strip_char_at(t, c, a - 1, b - 1);
            assert(t.subrange(a - 1, b - 1) =~= s.subrange(a, b));
        }
    } else if s.len() > 0 && s.last() == c {
        assert(s[s.len() - 1] == c);
        let t = s.drop_last();
        if b == s.len() {
            assert(a == b || s[b - 1] != c);
            assert(a == b);
            assert(a == 0 || s[0] == c);
            assert(a == 0);
        }
        let nb = if b == s.len() {
            b - 1
        } else {
            b
        };
        let na = if a > nb {
            nb
        } else {
            a
        };
        assert forall|j: int| 0 <= j < na implies #[trigger] t[j] == c by {
            assert(t[j] == s[j]);
        }
        assert forall|j: int| nb <= j < t.len() implies #[trigger] t[j] == c by {
            assert(t[j] == s[j]);
        }
        if na < nb {
            assert(t[na] == s[na]);
            assert(t[nb - 1] == s[nb - 1]);
        }
        lemma_strip_char_at(t, c, na, nb);
        assert(t.subrange(na, nb) =~= s.subrange(a, b));
    } else {
        if s.len() > 0 {
            assert(a == 0 || s[0] == c);
            assert(b == s.len() || s[s.len() - 1] == c);
        }
        assert(s.subrange(a, b) =~= s);
    }
}

/// `s.trim_matches(c)`.
pub fn strip_char_text(s: &str, c: char) -> (r: String)
    ensures
        r@ == strip_char(s@, c),
{
    let chars = chars_of(s);
    let n = chars.len();
    let mut a: usize = 0;
    while a < n && chars[a] == c
        invariant
            a <= n == chars@.len(),
            forall|j: int| 0 <= j < a ==> #[trigger] chars@[j] == c,
        decreases n - a,
    {
        a = a + 1;
    }
    let mut b: usize = n;
    while b > a && chars[b - 1] == c
        invariant
            a <= b <= n == chars@.len(),
            forall|j: int| b <= j < n ==> #[trigger] chars@[j] == c,
        decreases b,
    {
        b = b - 1;
    }
    proof {
        lemma_strip_char_at(chars@, c, a as int, b as int);
    }
    string_of(&chars, a, b)
}

/// Whether `pre` occurs in `s` at `i`.
pub open spec fn occurs_at(s: Seq<char>, pre: Seq<char>, i: int) -> bool {
    0 <= i && i + pre.len() <= s.len() && s.subrange(i, i + pre.len()) == pre
}

/// `s` starts with `pre`.
pub open spec fn starts_with(s: Seq<char>, pre: Seq<char>) -> bool {
    occurs_at(s, pre, 0)
}

/// `s` ends with `suf`.
pub open spec fn ends_with(s: Seq<char>, suf: Seq<char>) -> bool {
    suf.len() <= s.len() && occurs_at(s, suf, s.len() - suf.len())
}

/// `pre` occurs in `s`.
pub open spec fn contains_text(s: Seq<char>, pre: Seq<char>) -> bool {
    exists|i: int| #[trigger] occurs_at(s, pre, i)
}

/// Whether `pre` occurs in `chars` at `i`.
pub fn occurs_at_exec(chars: &Vec<char>, pre: &Vec<char>, i: usize) -> (r: bool)
    ensures
        r == occurs_at(chars@, pre@, i as int),
{
    if i > chars.len() || pre.len() > chars.len() - i {
        return false;
    }
    let mut k: usize = 0;
    while k < pre.len()
        invariant
            k <= pre@.len(),
            i <= chars@.len(),
            chars@.len() <= usize::MAX,
            i + pre@.len() <= chars@.len(),
            forall|j: int| 0 <= j < k ==> chars@[i + j] == pre@[j],
        decreases pre@.len() - k,
    {
        if chars[i + k] != pre[k] {
            assert(chars@.subrange(i as int, i + pre@.len())[k as int] != pre@[k as int]);
            return false;
        }
        k = k + 1;
    }
    assert(chars@.subrange(i as int, i + pre@.len()) =~= pre@);
    true
}

/// `s.starts_with(pre)`.
pub fn text_starts_with(s: &str, pre: &str) -> (r: bool)
    ensures
        r == starts_with(s@, pre@),
{
    occurs_at_exec(&chars_of(s), &chars_of(pre), 0)
}

/// `s.ends_with(suf)`.
pub fn text_ends_with(s: &str, suf: &str) -> (r: bool)
    ensures
        r == ends_with(s@, suf@),
{
    let chars = chars_of(s);
    let pat = chars_of(suf);
    if pat.len() > chars.len() {
        return false;
    }
    occurs_at_exec(&chars, &pat, chars.len() - pat.len())
}

/// `s.contains(pre)`.
pub fn text_contains(s: &str, pre: &str) -> (r: bool)
    ensures
        r == contains_text(s@, pre@),
{
    let chars = chars_of(s);
    let pat = chars_of(pre);
    let mut i: usize = 0;
    loop
        invariant
            i <= chars@.len(),
            chars@ == s@,
            pat@ == pre@,
            forall|j: int| 0 <= j < i ==> !#[trigger] occurs_at(s@, pre@, j),
        ensures
            forall|j: int| 0 <= j <= chars@.len() ==> !#[trigger] occurs_at(s@, pre@, j),
        decreases chars@.len() - i,
    {
        if occurs_at_exec(&chars, &pat, i) {
            return true;
        }
        if i == chars.len() {
            break;
        }
        i = i + 1;
    }
    assert forall|j: int| !#[trigger] occurs_at(s@, pre@, j) by {
        if 0 <= j && j <= i {
        }
    }
    false
}

/// The first position at or after `from` where `pat` occurs in `s`, or -1.
pub open spec fn find_from(s: Seq<char>, pat: Seq<char>, from: int) -> int {
    if exists|i: int| from <= i && occurs_at(s, pat, i) && forall|j: int|
        from <= j < i ==> !#[trigger] occurs_at(s, pat, j) {
        choose|i: int| from <= i && occurs_at(s, pat, i) && forall|j: int|
            from <= j < i ==> !#[trigger] occurs_at(s, pat, j)
    } else {
        -1
    }
}

/// The first position at or after `from` where `pat` occurs.
pub fn find_text(chars: &Vec<char>, pat: &Vec<char>, from: usize) -> (r: Option<usize>)
    requires
        from <= chars@.len(),
    ensures
        match r {
            Some(i) => find_from(chars@, pat@, from as int) == i,
            None => find_from(chars@, pat@, from as int) == -1,
        },
{
    let mut i: usize = from;
    loop
        invariant
            from <= i <= chars@.len(),
            forall|j: int| from <= j < i ==> !#[trigger] occurs_at(chars@, pat@, j),
        ensures
            forall|j: int| from <= j <= chars@.len() ==> !#[trigger] occurs_at(chars@, pat@, j),
        decreases chars@.len() - i,
    {
        if occurs_at_exec(chars, pat, i) {
            proof {
                lemma_find_first(chars@, pat@, from as int, i as int);
            }
            return Some(i);
        }
        if i == chars.len() {
            break;
        }
        i = i + 1;
    }
    proof {
        lemma_find_from(chars@, pat@, from as int);
        if find_from(chars@, pat@, from as int) >= 0 {
            let k = find_from(chars@, pat@, from as int);
            assert(k <= chars@.len());
            assert(!occurs_at(chars@, pat@, k));
        }
    }
    None
}

proof fn lemma_find_first(s: Seq<char>, pat: Seq<char>, from: int, w: int)
    requires
        from <= w,
        occurs_at(s, pat, w),
        forall|j: int| from <= j < w ==> !#[trigger] occurs_at(s, pat, j),
    ensures
        find_from(s, pat, from) == w,
{
    let k = choose|k: int| from <= k && occurs_at(s, pat, k) && forall|j: int|
        from <= j < k ==> !#[trigger] occurs_at(s, pat, j);
    if k < w {
        assert(!occurs_at(s, pat, k));
    } else if k > w {
        assert(!occurs_at(s, pat, w));
    }
}

proof fn lemma_some_occurrence(s: Seq<char>, pat: Seq<char>, from: int, k: int)
    requires
        from <= k,
        occurs_at(s, pat, k),
    ensures
        exists|i: int| from <= i && occurs_at(s, pat, i) && forall|j: int|
            from <= j < i ==> !#[trigger] occurs_at(s, pat, j),
    decreases k - from,
{
    if forall|j: int| from <= j < k ==> !#[trigger] occurs_at(s, pat, j) {
    } else {
        let j = choose|j: int| from <= j < k && #[trigger] occurs_at(s, pat, j);
        lemma_some_occurrence(s, pat, from, j);
    }
}

/// What `find_from` gives: the first occurrence at or after `from`, or -1
/// when there is none.
pub proof fn lemma_find_from(s: Seq<char>, pat: Seq<char>, from: int)
    ensures
        find_from(s, pat, from) >= 0 ==> from <= find_from(s, pat, from) && occurs_at(
            s,
            pat,
            find_from(s, pat, from),
        ) && forall|j: int| from <= j < find_from(s, pat, from) ==> !#[trigger] occurs_at(s, pat, j),
        find_from(s, pat, from) < 0 ==> forall|j: int| from <= j ==> !#[trigger] occurs_at(s, pat, j),
{
    if exists|k: int| from <= k && #[trigger] occurs_at(s, pat, k) {
        let k = choose|k: int| from <= k && #[trigger] occurs_at(s, pat, k);
        lemma_some_occurrence(s, pat, from, k);
    }
}

/// The second piece of `s.split(sep)`: the text between the first and the
/// second occurrence of `sep`, or to the end; `None` when `sep` does not occur.
pub open spec fn second_piece(s: Seq<char>, sep: Seq<char>) -> Option<Seq<char>> {
    let i = find_from(s, sep, 0);
    if i < 0 {
        None
    } else {
        let start = i + sep.len();
        let j = find_from(s, sep, start);
        Some(s.subrange(start, if j < 0 { s.len() as int } else { j }))
    }
}

/// `s.split(sep).nth(1)` for a separator that is not empty.
pub fn second_piece_text(s: &str, sep: &str) -> (r: Option<String>)
    requires
        sep@.len() > 0,
    ensures
        opt_text(r) == second_piece(s@, sep@),
{
    let chars = chars_of(s);
    let pat = chars_of(sep);
    let n = chars.len();
    let i = match find_text(&chars, &pat, 0) {
        Some(i) => i,
        None => {
            return None;
        },
    };
    proof {
        lemma_find_from(chars@, pat@, 0);
    }
    let start = i + pat.len();
    let end = match find_text(&chars, &pat, start) {
        Some(j) => {
            proof {
                lemma_find_from(chars@, pat@, start as int);
            }
            j
        },
        None => chars.len(),
    };
    Some(string_of(&chars, start, end))
}

/// The text of an optional string.
pub open spec fn opt_text(o: Option<String>) -> Option<Seq<char>> {
    match o {
        Some(s) => Some(s@),
        None => None,
    }
}

/// `s` with every leading `pre` removed, as `str::trim_start_matches` with a
/// text gives it.
pub open spec fn strip_prefixes(s: Seq<char>, pre: Seq<char>) -> Seq<char>
    decreases s.len(),
{
    if pre.len() > 0 && starts_with(s, pre) {
        strip_prefixes(s.skip(pre.len() as int), pre)
    } else {
        s
    }
}

/// `s.trim_start_matches(pre)`.
pub fn strip_prefixes_text(s: &str, pre: &str) -> (r: String)
    ensures
        r@ == strip_prefixes(s@, pre@),
{
    let chars = chars_of(s);
    let pat = chars_of(pre);
    let mut i: usize = 0;
    let n = chars.len();
    assert(chars@.skip(0) =~= chars@);
    if pat.len() > 0 {
        while occurs_at_exec(&chars, &pat, i)
            invariant
                pat@.len() > 0,
                i <= chars@.len(),
                chars@.len() <= usize::MAX,
                strip_prefixes(chars@, pat@) == strip_prefixes(chars@.skip(i as int), pat@),
            decreases chars@.len() - i,
        {
            let ghost t = chars@.skip(i as int);
            assert(i + pat@.len() <= chars@.len());
            assert(t.subrange(0, pat@.len() as int) =~= chars@.subrange(i as int, i + pat@.len()));
            assert(t.skip(pat@.len() as int) =~= chars@.skip(i + pat@.len()));
            i = i + pat.len();
        }
        let ghost t = chars@.skip(i as int);
        assert(!starts_with(t, pat@)) by {
            if starts_with(t, pat@) {
                assert(t.subrange(0, pat@.len() as int) =~= chars@.subrange(
                    i as int,
                    i + pat@.len(),
                ));
            }
        }
    }
    assert(chars@.skip(0) =~= chars@);
    string_of(&chars, i, chars.len())
}

/// The text of `s` up to the first `c`, or all of it: `s.split(c).next()`.
pub open spec fn before_char(s: Seq<char>, c: char) -> Seq<char> {
    split_on(s, c)[0]
}

/// The leading run of characters of `s` that are not white space.
pub open spec fn word_at(s: Seq<char>) -> Seq<char>
    decreases s.len(),
{
    if s.len() == 0 || is_white_space(s[0]) {
        Seq::empty()
    } else {
        seq![s[0]] + word_at(s.drop_first())
    }
}

pub proof fn lemma_word_at(s: Seq<char>, k: int)
    requires
        0 <= k <= s.len(),
        forall|j: int| 0 <= j < k ==> !is_white_space(#[trigger] s[j]),
        k == s.len() || is_white_space(s[k]),
    ensures
        word_at(s) == s.take(k),
    decreases k,
{
    if k > 0 {
        let t = s.drop_first();
        assert forall|j: int| 0 <= j < k - 1 implies !is_white_space(#[trigger] t[j]) by {
            assert(t[j] == s[j + 1]);
        }
        if k < s.len() {
            assert(t[k - 1] == s[k]);
        }
        lemma_word_at(t, k - 1);
        assert(seq![s[0]] + t.take(k - 1) =~= s.take(k));
    } else {
        assert(s.take(0) =~= Seq::<char>::empty());
    }
}

} // verus!
