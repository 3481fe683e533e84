//! Percent-encoding of text.
//!
//! Decoding reads `%` and the two characters behind it as one byte, written
//! as two hexadecimal digits or as `+` and one digit, and gives the character
//! with that number.  Where the two characters are no such number, the three
//! characters stay as they are.  A `%` with fewer than two characters behind
//! it stays, and what was behind it is dropped.

use crate::utils::text::{from_chars, to_chars};
use vstd::prelude::*;

verus! {

/// The number that the hexadecimal digit `c` stands for.
pub open spec fn hex_value(c: char) -> Option<nat> {
    if '0' <= c <= '9' {
        Some((c as u32 - '0' as u32) as nat)
    } else if 'a' <= c <= 'f' {
        Some((c as u32 - 'a' as u32 + 10) as nat)
    } else if 'A' <= c <= 'F' {
        Some((c as u32 - 'A' as u32 + 10) as nat)
    } else {
        None
    }
}

/// The byte that the two characters `a` and `b` spell in base sixteen: two
/// digits, or a `+` and one digit.
pub open spec fn hex_byte(a: char, b: char) -> Option<u8> {
    match hex_value(b) {
        None => None,
        Some(low) => match hex_value(a) {
            Some(high) => Some((16 * high + low) as u8),
            None => if a == '+' {
                Some(low as u8)
            } else {
                None
            },
        },
    }
}

/// What `s` stands for once its percent escapes have been read.
pub open spec fn decoded(s: Seq<char>) -> Seq<char>
    decreases s.len(),
{
    if s.len() == 0 {
        Seq::<char>::empty()
    } else if s[0] != '%' {
        seq![s[0]] + decoded(s.skip(1))
    } else if s.len() >= 3 {
        (match hex_byte(s[1], s[2]) {
            Some(byte) => seq![byte as char],
            None => seq!['%', s[1], s[2]],
        }) + decoded(s.skip(3))
    } else {
        seq!['%']
    }
}

/// The number that the hexadecimal digit `c` stands for.
fn hex_digit(c: char) -> (value: Option<u8>)
    ensures
        match value {
            Some(v) => hex_value(c) == Some(v as nat) && v < 16,
            None => hex_value(c).is_none(),
        },
{
    let n: u32 = c as u32;
    if '0' <= c && c <= '9' {
        Some((n - '0' as u32) as u8)
    } else if 'a' <= c && c <= 'f' {
        Some((n - 'a' as u32 + 10) as u8)
    } else if 'A' <= c && c <= 'F' {
        Some((n - 'A' as u32 + 10) as u8)
    } else {
        None
    }
}

/// The byte that `a` and `b` spell in base sixteen.
fn hex_pair(a: char, b: char) -> (byte: Option<u8>)
    ensures
        byte == hex_byte(a, b),
{
    match hex_digit(b) {
        None => None,
        Some(low) => match hex_digit(a) {
            Some(high) => Some(16 * high + low),
            None => if a == '+' {
                Some(low)
            } else {
                None
            },
        },
    }
}

/// `input` with its percent escapes read.
pub fn decode(input: &str) -> (output: String)
    ensures
        output@ == decoded(input@),
{
    let s = to_chars(input);
    let mut out: Vec<char> = Vec::new();
    let mut i: usize = 0;
    assert(s@.skip(0) == s@);
    while i < s.len()
        invariant
            i <= s.len(),
            out@ + decoded(s@.skip(i as int)) == decoded(s@),
        decreases s.len() - i,
    {
        let ghost rest = s@.skip(i as int);
        let ghost before = out@;
        let c: char = s[i];
        assert(rest[0] == c);
        if c != '%' {
            out.push(c);
            assert(rest.skip(1) == s@.skip(i + 1));
            assert(out@ + decoded(s@.skip(i + 1)) == before + (seq![c] + decoded(rest.skip(1))));
            i += 1;
        } else if s.len() - i >= 3 {
            let a: char = s[i + 1];
            let b: char = s[i + 2];
            assert(rest[1] == a && rest[2] == b);
            assert(rest.skip(3) == s@.skip(i + 3));
            match hex_pair(a, b) {
                Some(byte) => {
                    out.push(byte as char);
                    assert(out@ + decoded(s@.skip(i + 3)) == before + (seq![byte as char]
                        + decoded(rest.skip(3))));
                },
                None => {
                    out.push('%');
                    out.push(a);
                    out.push(b);
                    assert(out@ + decoded(s@.skip(i + 3)) == before + (seq!['%', a, b] + decoded(
                        rest.skip(3),
                    )));
                },
            }
            i += 3;
        } else {
            out.push('%');
            assert(decoded(rest) == seq!['%']);
            assert(decoded(s@.skip(s.len() as int)) == Seq::<char>::empty());
            assert(out@ + Seq::<char>::empty() == before + seq!['%']);
            i = s.len();
        }
    }
    assert(out@ + Seq::<char>::empty() == out@);
    from_chars(&out)
}

/// Whether Unicode counts `c` as a letter or a number, as
/// `char::is_alphanumeric` tells it.
pub uninterp spec fn unicode_alphanumeric(c: char) -> bool;

/// `char::is_alphanumeric` tells whether a character is alphabetic or
/// numeric by the Unicode character database.  Its answer depends on the
/// character alone.
pub assume_specification[ char::is_alphanumeric ](c: char) -> (alphanumeric: bool)
    ensures
        alphanumeric == unicode_alphanumeric(c),
;

/// The capital hexadecimal digit of `d`, which is below sixteen.
pub open spec fn hex_char(d: nat) -> char {
    if d < 10 {
        ('0' as u32 + d) as char
    } else {
        ('A' as u32 + (d - 10)) as char
    }
}

/// Whether a character goes into encoded text as it is: one that counts as
/// a letter or a number, or one of `-`, `_`, `.` and `~`.
pub open spec fn unreserved(c: char, alphanumeric: bool) -> bool {
    alphanumeric || c == '-' || c == '_' || c == '.' || c == '~'
}

/// What stands for `c` in encoded text: `c` itself where it is unreserved,
/// else `%` and the two capital hexadecimal digits of the lowest eight bits
/// of its number.
pub open spec fn encoded_char(c: char, alphanumeric: bool) -> Seq<char> {
    if unreserved(c, alphanumeric) {
        seq![c]
    } else {
        seq![
            '%',
            hex_char(((c as u32 % 256) / 16) as nat),
            hex_char(((c as u32 % 256) % 16) as nat),
        ]
    }
}

/// The encoded text of `s`.
pub open spec fn encoded(s: Seq<char>) -> Seq<char>
    decreases s.len(),
{
    if s.len() == 0 {
        Seq::<char>::empty()
    } else {
        encoded(s.drop_last()) + encoded_char(s.last(), unicode_alphanumeric(s.last()))
    }
}

/// The capital hexadecimal digit of `d`.
fn hex_digit_of(d: u32) -> (c: char)
    requires
        d < 16,
    ensures
        c == hex_char(d as nat),
{
    let digits: [char; 16] = [
        '0',
        '1',
        '2',
        '3',
        '4',
        '5',
        '6',
        '7',
        '8',
        '9',
        'A',
        'B',
        'C',
        'D',
        'E',
        'F',
    ];
    digits[d as usize]
}

/// Appends to `out` what stands for `c` in encoded text, given whether `c`
/// counts as a letter or a number.
pub fn push_encoded(out: &mut Vec<char>, c: char, alphanumeric: bool)
    ensures
        final(out)@ == old(out)@ + encoded_char(c, alphanumeric),
{
    if alphanumeric || c == '-' || c == '_' || c == '.' || c == '~' {
        out.push(c);
        assert(out@ == old(out)@ + seq![c]);
    } else {
        let low: u32 = (c as u32) % 256;
        let high_digit: char = hex_digit_of(low / 16);
        let low_digit: char = hex_digit_of(low % 16);
        out.push('%');
        out.push(high_digit);
        out.push(low_digit);
        assert(out@ == old(out)@ + seq!['%', high_digit, low_digit]);
    }
}

/// The encoded text of `input`.
pub fn encode(input: &str) -> (output: String)
    ensures
        output@ == encoded(input@),
{
    let s = to_chars(input);
    let mut out: Vec<char> = Vec::new();
    let mut i: usize = 0;
    assert(s@.take(0) == Seq::<char>::empty());
    while i < s.len()
        invariant
            i <= s.len(),
            out@ == encoded(s@.take(i as int)),
        decreases s.len() - i,
    {
        let c: char = s[i];
        assert(s@.take(i + 1).drop_last() == s@.take(i as int));
        assert(s@.take(i + 1).last() == c);
        push_encoded(&mut out, c, c.is_alphanumeric());
        i += 1;
    }
    assert(s@.take(s.len() as int) == s@);
    from_chars(&out)
}

} // verus!
