//! Text primitives shared by the encoders: decimal digits, UTF-8 bytes of a
//! character, Unicode whitespace, and conversions between strings and their
//! characters.

use vstd::prelude::*;
use vstd::utf8::*;

verus! {

/// The ASCII decimal digits of `n`, most significant first, with no leading
/// zeros (`0` is the single digit `0`).
pub open spec fn decimal(n: nat) -> Seq<u8>
    decreases n,
{
    if n < 10 {
        seq![(48 + n) as u8]
    } else {
        decimal(n / 10).push((48 + n % 10) as u8)
    }
}

/// Append the decimal digits of `n`.
pub fn push_decimal(out: &mut Vec<u8>, n: u128)
    ensures
        final(out)@ == old(out)@ + decimal(n as nat),
    decreases n,
{
    if n >= 10 {
        push_decimal(out, n / 10);
    }
    let digit: u8 = (n % 10) as u8;
    assert(digit < 10);
    out.push(48u8 + digit);
    assert(final(out)@ =~= old(out)@ + decimal(n as nat));
}

/// The UTF-8 bytes of one character.
pub open spec fn char_utf8(c: char) -> Seq<u8> {
    encode_utf8(seq![c])
}

proof fn lemma_char_utf8(c: char)
    ensures
        char_utf8(c) == encode_scalar(c as u32),
{
    assert(seq![c].drop_first() =~= Seq::<char>::empty());
    assert(encode_utf8(Seq::<char>::empty()) =~= Seq::<u8>::empty());
    assert(encode_scalar(c as u32) + Seq::<u8>::empty() =~= encode_scalar(c as u32));
}

/// Append the UTF-8 encoding of `c`.
pub fn push_utf8(out: &mut Vec<u8>, c: char)
    ensures
        final(out)@ == old(out)@ + char_utf8(c),
{
    proof {
        lemma_char_utf8(c);
        char_is_scalar(c);
    }
    let v: u32 = c as u32;
    if v <= 0x7f {
        out.push((v & 0x7f) as u8);
    } else if v <= 0x7ff {
        out.push(0xc0u8 | ((v >> 6u32) & 0x1f) as u8);
        out.push(0x80u8 | (v & 0x3f) as u8);
    } else if v <= 0xffff {
        out.push(0xe0u8 | ((v >> 12u32) & 0x0f) as u8);
        out.push(0x80u8 | ((v >> 6u32) & 0x3f) as u8);
        out.push(0x80u8 | (v & 0x3f) as u8);
    } else {
        out.push(0xf0u8 | ((v >> 18u32) & 0x7) as u8);
        out.push(0x80u8 | ((v >> 12u32) & 0x3f) as u8);
        out.push(0x80u8 | ((v >> 6u32) & 0x3f) as u8);
        out.push(0x80u8 | (v & 0x3f) as u8);
    }
    assert(final(out)@ =~= old(out)@ + char_utf8(c));
}

/// Whether a character has the Unicode `White_Space` property, as
/// `char::is_whitespace` decides it.
pub open spec fn is_white_space(c: char) -> bool {
    let v = c as u32;
    ||| 0x09 <= v <= 0x0d
    ||| v == 0x20
    ||| v == 0x85
    ||| v == 0xa0
    ||| v == 0x1680
    ||| 0x2000 <= v <= 0x200a
    ||| v == 0x2028
    ||| v == 0x2029
    ||| v == 0x202f
    ||| v == 0x205f
    ||| v == 0x3000
}

pub fn white_space(c: char) -> (res: bool)
    ensures
        res == is_white_space(c),
{
    let v: u32 = c as u32;
    (0x09 <= v && v <= 0x0d) || v == 0x20 || v == 0x85 || v == 0xa0 || v == 0x1680 || (0x2000 <= v
        && v <= 0x200a) || v == 0x2028 || v == 0x2029 || v == 0x202f || v == 0x205f || v == 0x3000
}

/// `str::trim_end`: the characters without their trailing whitespace.
pub open spec fn trim_end(s: Seq<char>) -> Seq<char>
    decreases s.len(),
{
    if s.len() > 0 && is_white_space(s.last()) {
        trim_end(s.drop_last())
    } else {
        s
    }
}

/// `str::trim_start`: the characters without their leading whitespace.
pub open spec fn trim_start(s: Seq<char>) -> Seq<char>
    decreases s.len(),
{
    if s.len() > 0 && is_white_space(s[0]) {
        trim_start(s.drop_first())
    } else {
        s
    }
}

/// `str::trim`: the characters without leading or trailing whitespace.
pub open spec fn trim(s: Seq<char>) -> Seq<char> {
    trim_end(trim_start(s))
}

/// `str::trim_end_matches(c)`: the characters without every trailing `c`.
pub open spec fn trim_end_char(s: Seq<char>, c: char) -> Seq<char>
    decreases s.len(),
{
    if s.len() > 0 && s.last() == c {
        trim_end_char(s.drop_last(), c)
    } else {
        s
    }
}

/// The code point of `char::to_ascii_lowercase`.
pub open spec fn lower_code(c: char) -> u32 {
    if 'A' <= c <= 'Z' {
        ((c as u32) + 32) as u32
    } else {
        c as u32
    }
}

/// The characters with ASCII letters lowered, as code points.
pub open spec fn ascii_lower(s: Seq<char>) -> Seq<u32> {
    s.map_values(|c: char| lower_code(c))
}

/// Whether `t` is a suffix of `s`.
pub open spec fn ends_with<T>(s: Seq<T>, t: Seq<T>) -> bool {
    t.len() <= s.len() && s.subrange(s.len() - t.len(), s.len() as int) == t
}

/// Whether `t` is a prefix of `s`.
pub open spec fn starts_with<T>(s: Seq<T>, t: Seq<T>) -> bool {
    t.len() <= s.len() && s.subrange(0, t.len() as int) == t
}

/// The characters from `start` up to `end`, copied.
pub fn sub_chars(s: &[char], start: usize, end: usize) -> (res: Vec<char>)
    requires
        start <= end <= s.len(),
    ensures
        res@ == s@.subrange(start as int, end as int),
{
    let mut out: Vec<char> = Vec::new();
    let mut i = start;
    while i < end
        invariant
            start <= i <= end <= s.len(),
            out@ == s@.subrange(start as int, i as int),
        decreases end - i,
    {
        out.push(s[i]);
        i = i + 1;
        assert(out@ =~= s@.subrange(start as int, i as int));
    }
    out
}

/// The characters without leading or trailing whitespace.
pub fn trim_chars(s: &[char]) -> (res: Vec<char>)
    ensures
        res@ == trim(s@),
{
    let mut start: usize = 0;
    assert(s@.subrange(0, s@.len() as int) =~= s@);
    while start < s.len() && white_space(s[start])
        invariant
            start <= s.len(),
            trim_start(s@.subrange(start as int, s@.len() as int)) == trim_start(s@),
        decreases s.len() - start,
    {
        assert(s@.subrange(start as int, s@.len() as int).drop_first() =~= s@.subrange(
            start + 1,
            s@.len() as int,
        ));
        start = start + 1;
    }
    let mut end: usize = s.len();
    let ghost rest = s@.subrange(start as int, s@.len() as int);
    assert(rest.subrange(0, rest.len() as int) =~= rest);
    while end > start && white_space(s[end - 1])
        invariant
            start <= end <= s.len(),
            rest == s@.subrange(start as int, s@.len() as int),
            trim_end(s@.subrange(start as int, end as int)) == trim_end(rest),
        decreases end,
    {
        assert(s@.subrange(start as int, end as int).drop_last() =~= s@.subrange(
            start as int,
            end - 1,
        ));
        end = end - 1;
    }
    sub_chars(s, start, end)
}

/// The characters without every trailing `c`.
pub fn trim_end_char_chars(s: &[char], c: char) -> (res: Vec<char>)
    ensures
        res@ == trim_end_char(s@, c),
{
    let mut end: usize = s.len();
    assert(s@.subrange(0, s@.len() as int) =~= s@);
    while end > 0 && s[end - 1] == c
        invariant
            end <= s.len(),
            trim_end_char(s@.subrange(0, end as int), c) == trim_end_char(s@, c),
        decreases end,
    {
        assert(s@.subrange(0, end as int).drop_last() =~= s@.subrange(0, end - 1));
        end = end - 1;
    }
    sub_chars(s, 0, end)
}

/// The code point of a character with an ASCII letter lowered.
pub fn lower_char_code(c: char) -> (res: u32)
    ensures
        res == lower_code(c),
{
    if 'A' <= c && c <= 'Z' {
        (c as u32) + 32
    } else {
        c as u32
    }
}

/// `str::eq_ignore_ascii_case` on characters.
pub fn eq_ignore_ascii_case(a: &[char], b: &[char]) -> (res: bool)
    ensures
        res == (ascii_lower(a@) == ascii_lower(b@)),
{
    if a.len() != b.len() {
        proof {
            assert(ascii_lower(a@).len() != ascii_lower(b@).len());
        }
        return false;
    }
    let mut i: usize = 0;
    while i < a.len()
        invariant
            i <= a.len() == b.len(),
            forall|k: int| 0 <= k < i ==> lower_code(#[trigger] a@[k]) == lower_code(b@[k]),
        decreases a.len() - i,
    {
        if lower_char_code(a[i]) != lower_char_code(b[i]) {
            proof {
                assert(ascii_lower(a@)[i as int] != ascii_lower(b@)[i as int]);
            }
            return false;
        }
        i = i + 1;
    }
    assert(ascii_lower(a@) =~= ascii_lower(b@));
    true
}

/// Whether two strings hold the same characters.
pub fn str_eq(a: &str, b: &str) -> (res: bool)
    ensures
        res == (a@ == b@),
{
    let ca = chars_of(a);
    let cb = chars_of(b);
    if ca.len() != cb.len() {
        return false;
    }
    let mut i: usize = 0;
    while i < ca.len()
        invariant
            i <= ca.len() == cb.len(),
            ca@ == a@,
            cb@ == b@,
            forall|k: int| 0 <= k < i ==> ca@[k] == cb@[k],
        decreases ca.len() - i,
    {
        if ca[i] != cb[i] {
            assert(ca@[i as int] != cb@[i as int]);
            return false;
        }
        i = i + 1;
    }
    assert(ca@ =~= cb@);
    true
}

/// Whether a character is an ASCII decimal digit.
pub open spec fn is_digit(c: char) -> bool {
    '0' <= c <= '9'
}

pub fn digit(c: char) -> (res: bool)
    ensures
        res == is_digit(c),
{
    '0' <= c && c <= '9'
}

/// The value of an ASCII digit.
pub open spec fn digit_value(c: char) -> nat {
    ((c as u32) - 48) as nat
}

/// The longest prefix of `s` made of ASCII digits.
pub open spec fn digit_prefix(s: Seq<char>) -> Seq<char>
    decreases s.len(),
{
    if s.len() > 0 && is_digit(s[0]) {
        seq![s[0]] + digit_prefix(s.drop_first())
    } else {
        Seq::empty()
    }
}

/// The number that a string of ASCII digits spells, most significant first.
pub open spec fn decimal_value(s: Seq<char>) -> nat
    decreases s.len(),
{
    if s.len() == 0 {
        0
    } else {
        decimal_value(s.drop_last()) * 10 + digit_value(s.last())
    }
}

/// The decimal digits of `n` as characters.
pub open spec fn decimal_text(n: nat) -> Seq<char>
    decreases n,
{
    if n < 10 {
        seq![((48 + n) as u32) as char]
    } else {
        decimal_text(n / 10).push(((48 + n % 10) as u32) as char)
    }
}

/// Append the decimal digits of `n` to a string.
pub fn push_decimal_text(out: &mut String, n: u128)
    ensures
        final(out)@ == old(out)@ + decimal_text(n as nat),
    decreases n,
{
    if n >= 10 {
        push_decimal_text(out, n / 10);
    }
    let d: u8 = (n % 10) as u8;
    let c: char = (48u8 + d) as char;
    assert(c == ((48 + n % 10) as u32) as char);
    push_char(out, c);
    assert(final(out)@ =~= old(out)@ + decimal_text(n as nat));
}

/// Whether `pat` occurs in `s` starting at index `i`.
pub open spec fn occurs_at(s: Seq<char>, pat: Seq<char>, i: int) -> bool {
    0 <= i && i + pat.len() <= s.len() && s.subrange(i, i + pat.len()) == pat
}

/// The first index at or after `from` where `pat` occurs in `s`.
pub open spec fn first_occurrence_from(s: Seq<char>, pat: Seq<char>, from: int) -> Option<int>
    decreases s.len() + 1 - from,
{
    if from < 0 || from + pat.len() > s.len() {
        None
    } else if occurs_at(s, pat, from) {
        Some(from)
    } else {
        first_occurrence_from(s, pat, from + 1)
    }
}

/// Whether `pat` occurs in `s` at index `i`.
pub fn occurs_at_index(s: &[char], pat: &[char], i: usize) -> (res: bool)
    ensures
        res == occurs_at(s@, pat@, i as int),
{
    if pat.len() > s.len() || i > s.len() - pat.len() {
        return false;
    }
    let mut k: usize = 0;
    while k < pat.len()
        invariant
            k <= pat.len(),
            i + pat.len() <= s.len(),
            forall|j: int| 0 <= j < k ==> s@[i + j] == pat@[j],
        decreases pat.len() - k,
    {
        if s[i + k] != pat[k] {
            assert(s@.subrange(i as int, i + pat.len())[k as int] != pat@[k as int]);
            return false;
        }
        k = k + 1;
    }
    assert(s@.subrange(i as int, i + pat.len()) =~= pat@);
    true
}

/// The first index where `pat` occurs in `s`.
pub fn find_chars(s: &[char], pat: &[char]) -> (res: Option<usize>)
    ensures
        match res {
            Some(i) => first_occurrence_from(s@, pat@, 0) == Some(i as int),
            None => first_occurrence_from(s@, pat@, 0) is None,
        },
{
    if pat.len() > s.len() {
        return None;
    }
    let last = s.len() - pat.len();
    let mut i: usize = 0;
    loop
        invariant
            last + pat.len() == s.len(),
            i <= last,
            first_occurrence_from(s@, pat@, i as int) == first_occurrence_from(s@, pat@, 0),
        decreases last - i,
    {
        if occurs_at_index(s, pat, i) {
            return Some(i);
        }
        if i == last {
            assert(first_occurrence_from(s@, pat@, i + 1) is None);
            return None;
        }
        i = i + 1;
    }
}

/// The value of a string of ASCII digits, or `None` when it does not fit in
/// a `u16`: `str::parse::<u16>` on such a string.
pub open spec fn digits_u16(d: Seq<char>) -> Option<u16> {
    if d.len() == 0 || decimal_value(d) > 65535 {
        None
    } else {
        Some(decimal_value(d) as u16)
    }
}

/// The leading ASCII digits of `s[start..]` and their value, capped at `u16`.
pub fn parse_leading_u16(s: &[char], start: usize) -> (res: Option<u16>)
    requires
        start <= s.len(),
    ensures
        res == digits_u16(digit_prefix(s@.subrange(start as int, s@.len() as int))),
{
    let ghost rest = s@.subrange(start as int, s@.len() as int);
    let mut i = start;
    let mut value: u32 = 0;
    while i < s.len() && digit(s[i])
        invariant
            start <= i <= s.len(),
            rest == s@.subrange(start as int, s@.len() as int),
            forall|j: int| start <= j < i ==> is_digit(#[trigger] s@[j]),
            digit_prefix(rest) == s@.subrange(start as int, i as int) + digit_prefix(
                s@.subrange(i as int, s@.len() as int),
            ),
            value as nat == if decimal_value(s@.subrange(start as int, i as int)) < 65536 {
                decimal_value(s@.subrange(start as int, i as int))
            } else {
                65536
            },
        decreases s.len() - i,
    {
        let ghost before = s@.subrange(start as int, i as int);
        let d: u32 = (s[i] as u32) - 48;
        assert(d <= 9);
        assert(s@.subrange(i as int, s@.len() as int).drop_first() =~= s@.subrange(
            i + 1,
            s@.len() as int,
        ));
        assert(s@.subrange(start as int, i + 1) =~= before.push(s@[i as int]));
        assert(s@.subrange(start as int, i + 1).drop_last() =~= before);
        value = if value >= 65536 {
            65536
        } else {
            let next = value * 10 + d;
            if next >= 65536 {
                65536
            } else {
                next
            }
        };
        i = i + 1;
        assert(s@.subrange(start as int, i as int) =~= before + seq![s@[i - 1]]);
    }
    proof {
        let tail = s@.subrange(i as int, s@.len() as int);
        if tail.len() > 0 {
            assert(tail[0] == s@[i as int]);
        }
        assert(digit_prefix(tail) =~= Seq::<char>::empty());
        assert(s@.subrange(start as int, i as int) + Seq::<char>::empty() =~= s@.subrange(
            start as int,
            i as int,
        ));
    }
    if i == start || value >= 65536 {
        None
    } else {
        Some(value as u16)
    }
}

/// The characters of a string.
pub fn chars_of(s: &str) -> (res: Vec<char>)
    ensures
        res@ == s@,
{
    let mut out: Vec<char> = Vec::new();
    for c in it: s.chars()
        invariant
            it.seq() == s@,
            out@ == it.seq().take(it.index() as int),
    {
        out.push(c);
    }
    out
}


/// `String::push`: the string gains `c` at its end.
#[verifier::external_body]
pub(crate) fn push_char(s: &mut String, c: char)
    ensures
        final(s)@ == old(s)@.push(c),
{
    s.push(c)
}

/// A string holding exactly the given characters.
pub fn string_of(chars: &[char]) -> (res: String)
    ensures
        res@ == chars@,
{
    let mut out = String::new();
    let mut i: usize = 0;
    while i < chars.len()
        invariant
            i <= chars.len(),
            out@ == chars@.subrange(0, i as int),
        decreases chars.len() - i,
    {
        push_char(&mut out, chars[i]);
        i = i + 1;
        assert(out@ =~= chars@.subrange(0, i as int));
    }
    assert(chars@.subrange(0, chars.len() as int) =~= chars@);
    out
}

} // verus!
