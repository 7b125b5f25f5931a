//! Small string utilities: trimming a line ending, and writing integers in decimal.

use vstd::prelude::*;

verus! {

/// `String::push`: appends `c` at the end of `s`, as std documents.
#[verifier::external_body]
pub(crate) fn push_char(s: &mut String, c: char)
    ensures
        final(s)@ == old(s)@.push(c),
{
    s.push(c);
}

/// `String::pop`: removes the last character of `s` and returns it, or `None` when `s` is
/// empty, as std documents.
#[verifier::external_body]
fn pop_char(s: &mut String) -> (c: Option<char>)
    ensures
        old(s)@.len() == 0 ==> c is None && final(s)@ == old(s)@,
        old(s)@.len() > 0 ==> c == Some(old(s)@.last()) && final(s)@ == old(s)@.drop_last(),
{
    s.pop()
}

/// `str::ends_with` with a character pattern: whether `s` ends with `c`, as std documents.
#[verifier::external_body]
fn ends_with_char(s: &str, c: char) -> (b: bool)
    ensures
        b == (s@.len() > 0 && s@.last() == c),
{
    s.ends_with(c)
}

/// `s` with one trailing `"\n"` or `"\r\n"` removed, if it has one.
pub open spec fn trimmed(s: Seq<char>) -> Seq<char> {
    if s.len() > 0 && s.last() == '\n' {
        let t = s.drop_last();
        if t.len() > 0 && t.last() == '\r' {
            t.drop_last()
        } else {
            t
        }
    } else {
        s
    }
}

/// Removes one trailing line ending (`"\n"` or `"\r\n"`) from `s`.
pub fn trim_newline(s: &mut String)
    ensures
        final(s)@ == trimmed(old(s)@),
{
    if ends_with_char(s.as_str(), '\n') {
        pop_char(s);
        if ends_with_char(s.as_str(), '\r') {
            pop_char(s);
        }
    }
}

/// The character of decimal digit `d`.
pub open spec fn digit_char(d: nat) -> char {
    (d + 48) as char
}

/// The decimal digits of `n`, without leading zeros (`"0"` for zero).
pub open spec fn decimal_digits(n: nat) -> Seq<char>
    decreases n,
{
    if n < 10 {
        seq![digit_char(n)]
    } else {
        decimal_digits(n / 10).push(digit_char(n % 10))
    }
}

/// `v` written in decimal, with a leading `-` when negative.
pub open spec fn decimal_text(v: int) -> Seq<char> {
    if v < 0 {
        seq!['-'] + decimal_digits((-v) as nat)
    } else {
        decimal_digits(v as nat)
    }
}

/// The character of a decimal digit.
fn digit(d: u32) -> (c: char)
    requires
        d < 10,
    ensures
        c == digit_char(d as nat),
{
    match d {
        0 => '0',
        1 => '1',
        2 => '2',
        3 => '3',
        4 => '4',
        5 => '5',
        6 => '6',
        7 => '7',
        8 => '8',
        _ => '9',
    }
}

/// Appends the decimal digits of `n` to `s`.
fn push_digits(s: &mut String, n: u32)
    ensures
        final(s)@ == old(s)@ + decimal_digits(n as nat),
    decreases n,
{
    if n >= 10 {
        push_digits(s, n / 10);
    }
    push_char(s, digit(n % 10));
    proof {
        if n >= 10 {
            assert(decimal_digits(n as nat) == decimal_digits((n / 10) as nat).push(digit_char((n % 10) as nat)));
        }
    }
    assert(final(s)@ =~= old(s)@ + decimal_digits(n as nat));
}

/// Appends `v` written in decimal to `s`.
pub fn push_decimal(s: &mut String, v: i32)
    ensures
        final(s)@ == old(s)@ + decimal_text(v as int),
{
    if v < 0 {
        push_char(s, '-');
        let magnitude: u32 = (0 - (v as i64)) as u32;
        push_digits(s, magnitude);
        assert(final(s)@ =~= old(s)@ + decimal_text(v as int));
    } else {
        push_digits(s, v as u32);
    }
}

/// The character is an ASCII decimal digit.
pub open spec fn is_digit(c: char) -> bool {
    '0' <= c <= '9'
}

/// The value of a string of decimal digits.
pub open spec fn digits_value(t: Seq<char>) -> int
    decreases t.len(),
{
    if t.len() == 0 {
        0
    } else {
        digits_value(t.drop_last()) * 10 + (t.last() as int - 48)
    }
}

/// The digits part of an unsigned number: the text without one leading `+`.
pub open spec fn unsigned_digits(s: Seq<char>) -> Seq<char> {
    if s.len() > 0 && s[0] == '+' {
        s.drop_first()
    } else {
        s
    }
}

/// `s` read as a `u64` the way `str::parse::<u64>` reads it: an optional `+`, then one
/// or more decimal digits whose value fits in a `u64`; `None` otherwise.
pub open spec fn parsed_u64(s: Seq<char>) -> Option<u64> {
    let t = unsigned_digits(s);
    if t.len() > 0 && (forall|j: int| 0 <= j < t.len() ==> is_digit(#[trigger] t[j])) && digits_value(t) <= u64::MAX {
        Some(digits_value(t) as u64)
    } else {
        None
    }
}

/// A string of digits is worth at least any of its prefixes.
proof fn lemma_digits_value_grows(t: Seq<char>, k: int)
    requires
        0 <= k <= t.len(),
        forall|j: int| 0 <= j < t.len() ==> is_digit(#[trigger] t[j]),
    ensures
        0 <= digits_value(t.take(k)) <= digits_value(t),
    decreases t.len(),
{
    if t.len() > 0 {
        if k == t.len() {
            assert(t.take(k) =~= t);
        } else {
            assert(t.drop_last().take(k) =~= t.take(k));
        }
        if k < t.len() {
            lemma_digits_value_grows(t.drop_last(), k);
        }
        lemma_digits_value_grows(t.drop_last(), t.len() - 1);
        assert(t.drop_last().take(t.len() - 1) =~= t.drop_last());
    } else {
        assert(t.take(k) =~= t);
    }
}

/// The characters of `s`.
fn chars_of(s: &str) -> (v: Vec<char>)
    ensures
        v@ == s@,
{
    let mut v: Vec<char> = Vec::new();
    for c in it: s.chars()
        invariant
            it.seq() == s@,
            v@ == it.seq().take(it.index() as int),
    {
        v.push(c);
        assert(v@ =~= it.seq().take(it.index() + 1));
    }
    assert(s@.take(s@.len() as int) =~= s@);
    v
}

/// Reads `s` as a `u64`, as `str::parse::<u64>` does: an optional `+`, then decimal digits
/// whose value fits; `None` for anything else.
pub fn parse_u64(s: &str) -> (r: Option<u64>)
    ensures
        r == parsed_u64(s@),
{
    let chars = chars_of(s);
    let start: usize = if chars.len() > 0 && chars[0] == '+' { 1 } else { 0 };
    let ghost t = unsigned_digits(s@);
    assert(t =~= chars@.subrange(start as int, chars@.len() as int));
    if start == chars.len() {
        return None;
    }
    let mut value: u64 = 0;
    let mut j: usize = start;
    while j < chars.len()
        invariant
            start <= j <= chars.len(),
            t == chars@.subrange(start as int, chars@.len() as int),
            t == unsigned_digits(s@),
            forall|k: int| 0 <= k < j - start ==> is_digit(#[trigger] t[k]),
            value == digits_value(t.take(j - start)),
        decreases chars.len() - j,
    {
        let c = chars[j];
        if !('0' <= c && c <= '9') {
            assert(!is_digit(t[j - start]));
            return None;
        }
        let d: u64 = (c as u32 - '0' as u32) as u64;
        assert(t.take(j + 1 - start).drop_last() =~= t.take(j - start));
        if value > (u64::MAX - d) / 10 {
            proof {
                assert(forall|k: int| 0 <= k < j + 1 - start ==> is_digit(#[trigger] t[k]));
                assert(digits_value(t.take(j + 1 - start)) > u64::MAX);
                if forall|k: int| 0 <= k < t.len() ==> is_digit(#[trigger] t[k]) {
                    lemma_digits_value_grows(t, j + 1 - start);
                }
            }
            return None;
        }
        value = value * 10 + d;
        j = j + 1;
    }
    assert(t.take(t.len() as int) =~= t);
    Some(value)
}

} // verus!
