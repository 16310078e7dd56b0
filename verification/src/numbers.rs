use crate::text::push_char;
use vstd::prelude::*;

verus! {

/// An ASCII decimal digit.
pub open spec fn is_digit(c: char) -> bool {
    '0' <= c && c <= '9'
}

/// The value of an ASCII decimal digit.
pub open spec fn digit_value(c: char) -> nat {
    (c as int - '0' as int) as nat
}

/// Text made only of ASCII decimal digits.
pub open spec fn all_digits(s: Seq<char>) -> bool {
    forall|i: int| 0 <= i < s.len() ==> is_digit(#[trigger] s[i])
}

/// The number that decimal digits write.
pub open spec fn digits_value(s: Seq<char>) -> nat
    decreases s.len(),
{
    if s.len() == 0 {
        0
    } else {
        digits_value(s.drop_last()) * 10 + digit_value(s.last())
    }
}

/// What `str::parse::<u64>` gives: an optional `+` and at least one digit,
/// for a value that fits.
pub open spec fn parsed_u64(s: Seq<char>) -> Option<u64> {
    let d = if s.len() > 0 && s[0] == '+' {
        s.drop_first()
    } else {
        s
    };
    if d.len() > 0 && all_digits(d) && digits_value(d) <= u64::MAX {
        Some(digits_value(d) as u64)
    } else {
        None
    }
}

/// What `str::parse::<i64>` gives: an optional sign and at least one digit,
/// for a value that fits.
pub open spec fn parsed_i64(s: Seq<char>) -> Option<i64> {
    let negative = s.len() > 0 && s[0] == '-';
    let d = if s.len() > 0 && (s[0] == '+' || s[0] == '-') {
        s.drop_first()
    } else {
        s
    };
    let v: int = if negative {
        -digits_value(d)
    } else {
        digits_value(d) as int
    };
    if d.len() > 0 && all_digits(d) && i64::MIN <= v && v <= i64::MAX {
        Some(v as i64)
    } else {
        None
    }
}

/// The character of a decimal digit below 10.
pub open spec fn digit_char(d: nat) -> char {
    (d + 48) as char
}

/// The decimal text of `n`, without leading zeros.
pub open spec fn decimal_of(n: nat) -> Seq<char>
    decreases n,
{
    if n < 10 {
        seq![digit_char(n)]
    } else {
        decimal_of(n / 10) + seq![digit_char(n % 10)]
    }
}

proof fn lemma_digits_grow(s: Seq<char>, c: char)
    requires
        is_digit(c),
    ensures
        digits_value(s.push(c)) == digits_value(s) * 10 + digit_value(c),
        digits_value(s.push(c)) >= digits_value(s),
{
    assert(s.push(c).drop_last() =~= s);
}

/// The digits `d[from..]`, read as a number when it fits in a `u64`; `None`
/// when one of them is not a digit, or when the number is larger.  The first
/// flag says whether all are digits.
fn read_digits(d: &Vec<char>, from: usize) -> (r: (bool, Option<u64>))
    requires
        from <= d@.len(),
    ensures
        r.0 == all_digits(d@.skip(from as int)),
        r.0 ==> match r.1 {
            Some(v) => v == digits_value(d@.skip(from as int)),
            None => digits_value(d@.skip(from as int)) > u64::MAX,
        },
{
    let ghost s = d@.skip(from as int);
    let mut acc: u64 = 0;
    let mut too_big = false;
    let mut i = from;
    while i < d.len()
        invariant
            from <= i <= d@.len(),
            s == d@.skip(from as int),
            all_digits(d@.subrange(from as int, i as int)),
            !too_big ==> acc == digits_value(d@.subrange(from as int, i as int)),
            too_big ==> digits_value(d@.subrange(from as int, i as int)) > u64::MAX,
        decreases d@.len() - i,
    {
        let c = d[i];
        let ghost prev = d@.subrange(from as int, i as int);
        if !('0' <= c && c <= '9') {
            assert(s[i - from] == c);
            return (false, None);
        }
        assert(d@.subrange(from as int, i + 1) =~= prev.push(c));
        proof {
            lemma_digits_grow(prev, c);
        }
        let digit = (c as u32 - '0' as u32) as u64;
        assert(digit == digit_value(c));
        if !too_big {
            if acc > 1844674407370955161 || (acc == 1844674407370955161 && digit > 5) {
                too_big = true;
            } else {
                acc = acc * 10 + digit;
            }
        }
        i = i + 1;
    }
    assert(d@.subrange(from as int, i as int) =~= s);
    if too_big {
        (true, None)
    } else {
        (true, Some(acc))
    }
}

/// `str::parse::<u64>`.
pub fn parse_u64(s: &str) -> (r: Option<u64>)
    ensures
        r == parsed_u64(s@),
{
    let chars = crate::text::chars_of(s);
    let from: usize = if chars.len() > 0 && chars[0] == '+' {
        1
    } else {
        0
    };
    assert(chars@.skip(from as int) =~= (if s@.len() > 0 && s@[0] == '+' {
        s@.drop_first()
    } else {
        s@
    }));
    if from >= chars.len() {
        return None;
    }
    let (digits, value) = read_digits(&chars, from);
    if !digits {
        return None;
    }
    value
}

/// `str::parse::<i64>`.
pub fn parse_i64(s: &str) -> (r: Option<i64>)
    ensures
        r == parsed_i64(s@),
{
    let chars = crate::text::chars_of(s);
    let negative = chars.len() > 0 && chars[0] == '-';
    let from: usize = if chars.len() > 0 && (chars[0] == '+' || chars[0] == '-') {
        1
    } else {
        0
    };
    assert(chars@.skip(from as int) =~= (if s@.len() > 0 && (s@[0] == '+' || s@[0] == '-') {
        s@.drop_first()
    } else {
        s@
    }));
    if from >= chars.len() {
        return None;
    }
    let (digits, value) = read_digits(&chars, from);
    if !digits {
        return None;
    }
    match value {
        None => None,
        Some(v) => {
            if negative {
                if v <= 9223372036854775807 {
                    Some(-(v as i64))
                } else if v == 9223372036854775808 {
                    Some(i64::MIN)
                } else {
                    None
                }
            } else if v <= 9223372036854775807 {
                Some(v as i64)
            } else {
                None
            }
        },
    }
}

fn digit_to_char(d: u64) -> (r: char)
    requires
        d < 10,
    ensures
        r == digit_char(d as nat),
{
    ((d as u8) + 48) as char
}

/// Appends the decimal text of `n`.
pub fn push_decimal(out: &mut String, n: u64)
    ensures
        final(out)@ == old(out)@ + decimal_of(n as nat),
    decreases n,
{
    if n >= 10 {
        push_decimal(out, n / 10);
    }
    push_char(out, digit_to_char(n % 10));
    proof {
        if n < 10 {
            assert(n % 10 == n);
        }
    }
}

/// The decimal text of `n` (`n.to_string()`).
pub fn decimal_text(n: u64) -> (r: String)
    ensures
        r@ == decimal_of(n as nat),
{
    let mut out = String::new();
    push_decimal(&mut out, n);
    out
}

} // verus!
