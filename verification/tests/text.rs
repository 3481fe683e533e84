use lynxspark::utils::clock::{seconds_or_zero, unix_now};
use lynxspark::utils::text::{
    chars_are, find_chars, first_word_chars, from_chars, parse_decimal, push_all, push_decimal,
    push_str_chars, same_chars, split_chars, to_chars, trim_chars, trim_end_chars,
    white_space,
};

fn chars(s: &str) -> Vec<char> {
    s.chars().collect()
}

fn text(v: &Vec<char>) -> String {
    v.iter().collect()
}

fn pieces(s: &str, sep: char) -> Vec<String> {
    split_chars(&chars(s), sep).iter().map(text).collect()
}

#[test]
fn to_chars_and_back() {
    assert_eq!(to_chars("héllo €"), chars("héllo €"));
    assert_eq!(to_chars(""), Vec::<char>::new());
    assert_eq!(from_chars(&chars("héllo €")), "héllo €");
    assert_eq!(from_chars(&Vec::new()), "");
}

#[test]
fn push_all_appends() {
    let mut out = chars("ab");
    push_all(&mut out, &chars("cd"));
    push_str_chars(&mut out, "é");
    push_all(&mut out, &Vec::new());
    assert_eq!(text(&out), "abcdé");
}

#[test]
fn same_chars_compares_character_by_character() {
    assert!(same_chars(&chars("abc"), &chars("abc")));
    assert!(same_chars(&chars(""), &chars("")));
    assert!(!same_chars(&chars("abc"), &chars("abd")));
    assert!(!same_chars(&chars("abc"), &chars("ab")));
    assert!(chars_are(&chars("true"), "true"));
    assert!(!chars_are(&chars("true"), "True"));
}

#[test]
fn split_gives_one_piece_more_than_separators() {
    assert_eq!(pieces("a,b,c", ','), vec!["a", "b", "c"]);
    assert_eq!(pieces("abc", ','), vec!["abc"]);
    assert_eq!(pieces("", ','), vec![""]);
    assert_eq!(pieces(",", ','), vec!["", ""]);
    assert_eq!(pieces(",a,,b,", ','), vec!["", "a", "", "b", ""]);
    assert_eq!(pieces("k\0v\00\05", '\0'), vec!["k", "v", "0", "5"]);
}

#[test]
fn white_space_is_what_unicode_lists() {
    for c in ['\t', '\n', '\u{b}', '\u{c}', '\r', ' ', '\u{85}', '\u{a0}', '\u{1680}', '\u{2000}', '\u{200a}', '\u{2028}', '\u{2029}', '\u{202f}', '\u{205f}', '\u{3000}'] {
        assert!(white_space(c));
    }
    for c in ['a', '\0', '\u{8}', '\u{e}', '\u{200b}', '\u{feff}', '\u{180e}', '_'] {
        assert!(!white_space(c));
    }
    for n in 0..0x3100u32 {
        if let Some(c) = char::from_u32(n) {
            assert_eq!(white_space(c), c.is_whitespace());
        }
    }
}

#[test]
fn trim_drops_white_space_at_both_ends() {
    assert_eq!(text(&trim_chars(&chars("  a b \t\r\n"))), "a b");
    assert_eq!(text(&trim_chars(&chars("a"))), "a");
    assert_eq!(text(&trim_chars(&chars(" \u{3000} "))), "");
    assert_eq!(text(&trim_chars(&chars(""))), "");
    assert_eq!(text(&trim_chars(&chars("\0 a \0"))), "\0 a \0");
}

#[test]
fn trim_end_drops_a_run_of_one_character() {
    assert_eq!(text(&trim_end_chars(&chars("ab\0\0"), '\0')), "ab");
    assert_eq!(text(&trim_end_chars(&chars("\0a\0b"), '\0')), "\0a\0b");
    assert_eq!(text(&trim_end_chars(&chars("xxx"), 'x')), "");
    assert_eq!(text(&trim_end_chars(&chars(""), 'x')), "");
}

#[test]
fn first_word_ends_at_white_space() {
    assert_eq!(text(&first_word_chars(&chars("GET /x"))), "GET");
    assert_eq!(text(&first_word_chars(&chars("  GET\t/x"))), "GET");
    assert_eq!(text(&first_word_chars(&chars("GET"))), "GET");
    assert_eq!(text(&first_word_chars(&chars("  "))), "");
    assert_eq!(text(&first_word_chars(&chars(""))), "");
}

#[test]
fn find_gives_the_first_place() {
    assert_eq!(find_chars(&chars("abcabc"), &chars("bc")), Some(1));
    assert_eq!(find_chars(&chars("abcabc"), &chars("abcabc")), Some(0));
    assert_eq!(find_chars(&chars("abcabc"), &chars("")), Some(0));
    assert_eq!(find_chars(&chars(""), &chars("")), Some(0));
    assert_eq!(find_chars(&chars("abcabc"), &chars("cb")), None);
    assert_eq!(find_chars(&chars("abc"), &chars("abcd")), None);
    assert_eq!(find_chars(&chars("aab"), &chars("ab")), Some(1));
    assert_eq!(find_chars(&chars("xy\r\n\r\nz"), &chars("\r\n\r\n")), Some(2));
    assert_eq!(find_chars(&chars("abc"), &chars("c")), Some(2));
}

#[test]
fn parse_decimal_reads_unsigned_numbers() {
    assert_eq!(parse_decimal(&chars("0")), Some(0));
    assert_eq!(parse_decimal(&chars("42")), Some(42));
    assert_eq!(parse_decimal(&chars("+42")), Some(42));
    assert_eq!(parse_decimal(&chars("007")), Some(7));
    assert_eq!(parse_decimal(&chars("18446744073709551615")), Some(u64::MAX));
    assert_eq!(parse_decimal(&chars("00000000000000000000000000018446744073709551615")), Some(u64::MAX));
}

#[test]
fn parse_decimal_rejects_everything_else() {
    for s in ["", "+", "-1", "1-", "+-1", "++1", " 1", "1 ", "1_000", "0x10", "1e3", "١٢٣", "１", "18446744073709551616", "18446744073709551620", "99999999999999999999", "184467440737095516150"] {
        assert_eq!(parse_decimal(&chars(s)), None, "{:?}", s);
    }
}

#[test]
fn parse_decimal_agrees_with_the_standard_parser() {
    for s in ["0", "000", "+0", "5", "+5", "65535", "65536", "18446744073709551615", "18446744073709551616", "", "+", "a", "1a", "-0"] {
        assert_eq!(parse_decimal(&chars(s)), s.parse::<u64>().ok(), "{:?}", s);
    }
}

#[test]
fn push_decimal_writes_the_digits() {
    for n in [0u64, 1, 9, 10, 11, 99, 100, 101, 1234567890, u64::MAX - 1, u64::MAX] {
        let mut out = chars("n=");
        push_decimal(&mut out, n);
        assert_eq!(text(&out), format!("n={}", n));
        assert_eq!(parse_decimal(&out[2..].to_vec()), Some(n));
    }
}

#[test]
fn clock_shows_the_present() {
    let first = unix_now();
    let second = unix_now();
    assert!(first > 1_600_000_000);
    assert!(second >= first);
    assert!(second - first < 5);
}

#[test]
fn reading_before_the_epoch_counts_as_zero() {
    assert_eq!(seconds_or_zero(None), 0);
    assert_eq!(seconds_or_zero(Some(0)), 0);
    assert_eq!(seconds_or_zero(Some(1_700_000_000)), 1_700_000_000);
    assert_eq!(seconds_or_zero(Some(u64::MAX)), u64::MAX);
}
