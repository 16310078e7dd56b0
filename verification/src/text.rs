use vstd::prelude::*;

verus! {

/// The characters that carry Unicode's `White_Space` property, which is what
/// `char::is_whitespace` and `str::trim` go by.
pub open spec fn is_white_space(c: char) -> bool {
    let n = c as u32;
    ||| (0x09 <= n && n <= 0x0D)
    ||| n == 0x20
    ||| n == 0x85
    ||| n == 0xA0
    ||| n == 0x1680
    ||| (0x2000 <= n && n <= 0x200A)
    ||| n == 0x2028
    ||| n == 0x2029
    ||| n == 0x202F
    ||| n == 0x205F
    ||| n == 0x3000
}

/// The characters of Unicode's general category `Cc`, which is what
/// `char::is_control` goes by.
pub open spec fn is_control_char(c: char) -> bool {
    let n = c as u32;
    n <= 0x1F || (0x7F <= n && n <= 0x9F)
}

/// `s` without its leading white space.
pub open spec fn trim_start(s: Seq<char>) -> Seq<char>
    decreases s.len(),
{
    if s.len() > 0 && is_white_space(s[0]) {
        trim_start(s.drop_first())
    } else {
        s
    }
}

/// `s` without its trailing white space.
pub open spec fn trim_end(s: Seq<char>) -> Seq<char>
    decreases s.len(),
{
    if s.len() > 0 && is_white_space(s.last()) {
        trim_end(s.drop_last())
    } else {
        s
    }
}

/// `s` without white space at either end, as `str::trim` gives it.
pub open spec fn trim(s: Seq<char>) -> Seq<char> {
    trim_end(trim_start(s))
}

/// The first `n` characters of `s`, or all of them when it has fewer.
pub open spec fn take_chars(s: Seq<char>, n: nat) -> Seq<char> {
    if n <= s.len() {
        s.take(n as int)
    } else {
        s
    }
}

/// What `value.trim().chars().take(n).collect::<String>()` gives.
pub open spec fn clean_text(s: Seq<char>, n: nat) -> Seq<char> {
    take_chars(trim(s), n)
}

/// Whether `s` holds a character that is not white space.
pub open spec fn has_content(s: Seq<char>) -> bool {
    exists|i: int| 0 <= i < s.len() && !is_white_space(#[trigger] s[i])
}

/// Lexicographic order of two strings by code point, which is the order of
/// `str::cmp` (UTF-8 keeps the order of code points).
pub open spec fn seq_lt(a: Seq<char>, b: Seq<char>) -> bool
    decreases a.len(),
{
    if a.len() == 0 {
        b.len() > 0
    } else if b.len() == 0 {
        false
    } else if a[0] != b[0] {
        (a[0] as u32) < (b[0] as u32)
    } else {
        seq_lt(a.drop_first(), b.drop_first())
    }
}

pub proof fn lemma_trim_start_at(s: Seq<char>, i: int)
    requires
        0 <= i <= s.len(),
        forall|j: int| 0 <= j < i ==> is_white_space(#[trigger] s[j]),
        i == s.len() || !is_white_space(s[i]),
    ensures
        trim_start(s) == s.subrange(i, s.len() as int),
    decreases i,
{
    if i == 0 {
        assert(s.subrange(0, s.len() as int) =~= s);
    } else {
        let t = s.drop_first();
        assert forall|j: int| 0 <= j < i - 1 implies is_white_space(#[trigger] t[j]) by {
            assert(t[j] == s[j + 1]);
        }
        lemma_trim_start_at(t, i - 1);
        assert(t.subrange(i - 1, t.len() as int) =~= s.subrange(i, s.len() as int));
    }
}

pub proof fn lemma_trim_end_at(s: Seq<char>, e: int)
    requires
        0 <= e <= s.len(),
        forall|j: int| e <= j < s.len() ==> is_white_space(#[trigger] s[j]),
        e == 0 || !is_white_space(s[e - 1]),
    ensures
        trim_end(s) == s.subrange(0, e),
    decreases s.len() - e,
{
    if e == s.len() {
        assert(s.subrange(0, e) =~= s);
    } else {
        let t = s.drop_last();
        assert forall|j: int| e <= j < t.len() implies is_white_space(#[trigger] t[j]) by {
            assert(t[j] == s[j]);
        }
        lemma_trim_end_at(t, e);
        assert(t.subrange(0, e) =~= s.subrange(0, e));
    }
}

proof fn lemma_trim_start_content(s: Seq<char>)
    ensures
        has_content(s) ==> has_content(trim_start(s)),
        !has_content(s) ==> trim_start(s).len() == 0,
    decreases s.len(),
{
    if s.len() > 0 && is_white_space(s[0]) {
        let t = s.drop_first();
        if has_content(s) {
            let i = choose|i: int| 0 <= i < s.len() && !is_white_space(#[trigger] s[i]);
            assert(t[i - 1] == s[i]);
        } else {
            assert forall|i: int| 0 <= i < t.len() implies is_white_space(#[trigger] t[i]) by {
                assert(t[i] == s[i + 1]);
            }
        }
        lemma_trim_start_content(t);
    }
}

proof fn lemma_trim_end_content(s: Seq<char>)
    ensures
        has_content(s) ==> trim_end(s).len() > 0,
        trim_end(s).len() <= s.len(),
    decreases s.len(),
{
    if s.len() > 0 && is_white_space(s.last()) {
        let t = s.drop_last();
        if has_content(s) {
            let i = choose|i: int| 0 <= i < s.len() && !is_white_space(#[trigger] s[i]);
            assert(t[i] == s[i]);
        }
        lemma_trim_end_content(t);
    }
}

/// A trimmed string is empty exactly when the string holds nothing but white space.
pub proof fn lemma_trim_empty(s: Seq<char>)
    ensures
        (trim(s).len() == 0) <==> !has_content(s),
{
    lemma_trim_start_content(s);
    lemma_trim_end_content(trim_start(s));
}

pub fn white_space(c: char) -> (r: bool)
    ensures
        r == is_white_space(c),
{
    let n = c as u32;
    (0x09 <= n && n <= 0x0D) || n == 0x20 || n == 0x85 || n == 0xA0 || n == 0x1680 || (0x2000
        <= n && n <= 0x200A) || n == 0x2028 || n == 0x2029 || n == 0x202F || n == 0x205F || n
        == 0x3000
}

pub fn control_char(c: char) -> (r: bool)
    ensures
        r == is_control_char(c),
{
    let n = c as u32;
    n <= 0x1F || (0x7F <= n && n <= 0x9F)
}

/// Appends one character to a string (`String::push`).
#[verifier::external_body]
pub(crate) fn push_char(s: &mut String, c: char)
    ensures
        final(s)@ == old(s)@.push(c),
{
    s.push(c);
}

/// The characters of `s`, in order.
pub fn chars_of(s: &str) -> (r: Vec<char>)
    ensures
        r@ == s@,
{
    let mut out: Vec<char> = Vec::new();
    for c in it: s.chars()
        invariant
            out@ == it.seq().take(it.index() as int),
            it.seq() == s@,
    {
        out.push(c);
    }
    out
}

/// The string made of `chars[from..to]`.
pub fn string_of(chars: &Vec<char>, from: usize, to: usize) -> (r: String)
    requires
        from <= to <= chars@.len(),
    ensures
        r@ == chars@.subrange(from as int, to as int),
{
    let mut out = String::new();
    let mut i = from;
    while i < to
        invariant
            from <= i <= to <= chars@.len(),
            out@ == chars@.subrange(from as int, i as int),
        decreases to - i,
    {
        push_char(&mut out, chars[i]);
        assert(chars@.subrange(from as int, i + 1) =~= chars@.subrange(from as int, i as int).push(
            chars@[i as int],
        ));
        i = i + 1;
    }
    out
}

/// The bounds `(start, end)` of `s` once white space is cut from both ends.
pub fn trim_bounds(chars: &Vec<char>) -> (r: (usize, usize))
    ensures
        r.0 <= r.1 <= chars@.len(),
        chars@.subrange(r.0 as int, r.1 as int) == trim(chars@),
{
    let n = chars.len();
    let mut start: usize = 0;
    while start < n && white_space(chars[start])
        invariant
            start <= n == chars@.len(),
            forall|j: int| 0 <= j < start ==> is_white_space(#[trigger] chars@[j]),
        decreases n - start,
    {
        start = start + 1;
    }
    proof {
        lemma_trim_start_at(chars@, start as int);
    }
    let ghost t = chars@.subrange(start as int, n as int);
    let mut end: usize = n;
    while end > start && white_space(chars[end - 1])
        invariant
            start <= end <= n == chars@.len(),
            t == chars@.subrange(start as int, n as int),
            forall|j: int| end <= j < n ==> is_white_space(#[trigger] chars@[j]),
        decreases end,
    {
        end = end - 1;
    }
    proof {
        let e = end - start;
        assert forall|j: int| e <= j < t.len() implies is_white_space(#[trigger] t[j]) by {
            assert(t[j] == chars@[j + start]);
        }
        if e > 0 {
            assert(t[e - 1] == chars@[end - 1]);
        }
        lemma_trim_end_at(t, e);
        assert(t.subrange(0, e) =~= chars@.subrange(start as int, end as int));
    }
    (start, end)
}

/// `str::trim`, as an owned string.
pub fn trimmed(s: &str) -> (r: String)
    ensures
        r@ == trim(s@),
{
    let chars = chars_of(s);
    let (start, end) = trim_bounds(&chars);
    string_of(&chars, start, end)
}

/// `value.trim().chars().take(max).collect::<String>()`.
pub fn clean_chars(s: &str, max: usize) -> (r: String)
    ensures
        r@ == clean_text(s@, max as nat),
{
    let chars = chars_of(s);
    let (start, end) = trim_bounds(&chars);
    let stop = if end - start > max {
        start + max
    } else {
        end
    };
    let r = string_of(&chars, start, stop);
    proof {
        let t = chars@.subrange(start as int, end as int);
        if max as nat <= t.len() {
            assert(chars@.subrange(start as int, stop as int) =~= t.take(max as int));
        }
    }
    r
}

/// Whether `s` is empty once trimmed, as `s.trim().is_empty()` tells.
pub fn is_blank(s: &str) -> (r: bool)
    ensures
        r == (trim(s@).len() == 0),
        r == !has_content(s@),
{
    let chars = chars_of(s);
    let (start, end) = trim_bounds(&chars);
    proof {
        lemma_trim_empty(s@);
    }
    start == end
}

/// Whether two character vectors hold the same characters.
pub fn chars_eq(a: &Vec<char>, b: &Vec<char>) -> (r: bool)
    ensures
        r == (a@ == b@),
{
    if a.len() != b.len() {
        return false;
    }
    let mut i: usize = 0;
    while i < a.len()
        invariant
            a@.len() == b@.len(),
            i <= a@.len(),
            forall|j: int| 0 <= j < i ==> a@[j] == b@[j],
        decreases a.len() - i,
    {
        if a[i] != b[i] {
            return false;
        }
        i = i + 1;
    }
    assert(a@ =~= b@);
    true
}

/// Whether two strings are equal (`str::eq`).
pub fn str_eq(a: &str, b: &str) -> (r: bool)
    ensures
        r == (a@ == b@),
{
    let x = chars_of(a);
    let y = chars_of(b);
    chars_eq(&x, &y)
}

/// Whether `a` sorts strictly before `b` as `str::cmp` orders them.
pub fn str_lt(a: &str, b: &str) -> (r: bool)
    ensures
        r == seq_lt(a@, b@),
{
    let x = chars_of(a);
    let y = chars_of(b);
    let mut i: usize = 0;
    while i < x.len() && i < y.len() && x[i] == y[i]
        invariant
            i <= x@.len(),
            i <= y@.len(),
            x@ == a@,
            y@ == b@,
            forall|j: int| 0 <= j < i ==> x@[j] == y@[j],
        decreases x.len() - i,
    {
        i = i + 1;
    }
    proof {
        lemma_seq_lt_prefix(a@, b@, i as int);
    }
    if i == x.len() {
        i < y.len()
    } else if i == y.len() {
        false
    } else {
        (x[i] as u32) < (y[i] as u32)
    }
}

/// No string sorts before itself.
pub proof fn lemma_seq_lt_irreflexive(a: Seq<char>)
    ensures
        !seq_lt(a, a),
    decreases a.len(),
{
    if a.len() > 0 {
        lemma_seq_lt_irreflexive(a.drop_first());
    }
}

/// The order of strings is transitive.
pub proof fn lemma_seq_lt_transitive(a: Seq<char>, b: Seq<char>, c: Seq<char>)
    requires
        seq_lt(a, b),
        seq_lt(b, c),
    ensures
        seq_lt(a, c),
    decreases a.len(),
{
    if a.len() > 0 && b.len() > 0 && c.len() > 0 {
        if a[0] == b[0] && b[0] == c[0] {
            lemma_seq_lt_transitive(a.drop_first(), b.drop_first(), c.drop_first());
        }
    }
}

proof fn lemma_seq_lt_prefix(a: Seq<char>, b: Seq<char>, i: int)
    requires
        0 <= i <= a.len(),
        i <= b.len(),
        forall|j: int| 0 <= j < i ==> a[j] == b[j],
    ensures
        seq_lt(a, b) == seq_lt(a.skip(i), b.skip(i)),
    decreases i,
{
    if i > 0 {
        lemma_seq_lt_prefix(a.drop_first(), b.drop_first(), i - 1);
        assert(a.drop_first().skip(i - 1) =~= a.skip(i));
        assert(b.drop_first().skip(i - 1) =~= b.skip(i));
    } else {
        assert(a.skip(0) =~= a);
        assert(b.skip(0) =~= b);
    }
}

/// The string view of an optional string.
pub open spec fn opt_view(o: Option<String>) -> Option<Seq<char>> {
    match o {
        Some(s) => Some(s@),
        None => None,
    }
}

/// Whether two optional strings are equal (`Option<String>::eq`).
pub fn opt_str_eq(a: &Option<String>, b: &Option<String>) -> (r: bool)
    ensures
        r == (opt_view(*a) == opt_view(*b)),
{
    match (a, b) {
        (Some(x), Some(y)) => str_eq(x.as_str(), y.as_str()),
        (None, None) => true,
        _ => false,
    }
}

/// Whether an optional string holds exactly `s`, as `o.as_deref() == Some(s)` tells.
pub fn opt_is(o: &Option<String>, s: &str) -> (r: bool)
    ensures
        r == (opt_view(*o) == Some(s@)),
{
    match o {
        Some(x) => str_eq(x.as_str(), s),
        None => false,
    }
}

/// A string with the characters of `s` (`str::to_string`).
pub fn owned(s: &str) -> (r: String)
    ensures
        r@ == s@,
{
    let chars = chars_of(s);
    string_of(&chars, 0, chars.len())
}

/// Filtering keeps nothing of a sequence none of whose items pass.
pub proof fn lemma_filter_none<A>(s: Seq<A>, pred: spec_fn(A) -> bool)
    requires
        forall|k: int| 0 <= k < s.len() ==> !pred(#[trigger] s[k]),
    ensures
        s.filter(pred) =~= Seq::<A>::empty(),
    decreases s.len(),
{
    reveal_with_fuel(Seq::<_>::filter, 1);
    if s.len() > 0 {
        lemma_filter_none(s.drop_last(), pred);
        assert(!pred(s[s.len() - 1]));
    }
}

/// Inserting `x` at `p`, before items none of which passes along with `x`,
/// adds `x` at the end of what passes when it passes, and changes nothing
/// else that passes.
pub proof fn lemma_filter_insert<A>(cur: Seq<A>, p: int, x: A, pred: spec_fn(A) -> bool)
    requires
        0 <= p <= cur.len(),
        pred(x) ==> forall|k: int| p <= k < cur.len() ==> !pred(#[trigger] cur[k]),
    ensures
        cur.insert(p, x).filter(pred) == if pred(x) {
            cur.filter(pred).push(x)
        } else {
            cur.filter(pred)
        },
{
    let head = cur.take(p);
    let tail = cur.skip(p);
    assert(cur.insert(p, x) =~= head + (seq![x] + tail));
    assert(cur =~= head + tail);
    Seq::filter_distributes_over_add(head, seq![x] + tail, pred);
    Seq::filter_distributes_over_add(seq![x], tail, pred);
    Seq::filter_distributes_over_add(head, tail, pred);
    Seq::<A>::empty().lemma_filter_push(x, pred);
    assert(seq![x] =~= Seq::<A>::empty().push(x));
    assert(Seq::<A>::empty().filter(pred) =~= Seq::<A>::empty()) by {
        reveal_with_fuel(Seq::<_>::filter, 1);
    }
    if pred(x) {
        assert forall|k: int| 0 <= k < tail.len() implies !pred(#[trigger] tail[k]) by {
            assert(tail[k] == cur[p + k]);
        }
        lemma_filter_none(tail, pred);
        assert(cur.insert(p, x).filter(pred) =~= cur.filter(pred).push(x));
    } else {
        assert(cur.insert(p, x).filter(pred) =~= cur.filter(pred));
    }
}

} // verus!
