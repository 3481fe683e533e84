use lynxspark::utils::url::{decode, encode, push_encoded};

#[test]
fn decode_leaves_plain_text() {
    assert_eq!(decode(""), "");
    assert_eq!(decode("user:*"), "user:*");
    assert_eq!(decode("a+b"), "a+b");
}

#[test]
fn decode_reads_two_hexadecimal_digits() {
    assert_eq!(decode("%41"), "A");
    assert_eq!(decode("a%2Ab"), "a*b");
    assert_eq!(decode("a%2ab"), "a*b");
    assert_eq!(decode("%5B%5d"), "[]");
    assert_eq!(decode("%00"), "\0");
    assert_eq!(decode("%7e%7E"), "~~");
}

#[test]
fn decode_gives_the_character_with_the_number_of_the_byte() {
    assert_eq!(decode("%E9"), "é");
    assert_eq!(decode("%ff"), "ÿ");
    assert_eq!(decode("%C3%A9"), "Ã©");
}

#[test]
fn decode_reads_a_plus_and_one_digit() {
    assert_eq!(decode("%+A"), "\n");
    assert_eq!(decode("%+0"), "\0");
    assert_eq!(decode("%+f"), "\u{f}");
}

#[test]
fn decode_keeps_what_is_no_number() {
    assert_eq!(decode("%zz"), "%zz");
    assert_eq!(decode("%4g!"), "%4g!");
    assert_eq!(decode("%-1"), "%-1");
    assert_eq!(decode("%++"), "%++");
    assert_eq!(decode("%A+"), "%A+");
    assert_eq!(decode("% 41"), "% 41");
    assert_eq!(decode("%é1x"), "%é1x");
}

#[test]
fn decode_does_not_read_the_kept_characters_again() {
    assert_eq!(decode("%%41"), "%%41");
    assert_eq!(decode("%x%41"), "%x%41");
    assert_eq!(decode("%%%41"), "%%%41");
    assert_eq!(decode("%%%%41"), "%%%A");
}

#[test]
fn decode_of_a_percent_sign_near_the_end() {
    assert_eq!(decode("%"), "%");
    assert_eq!(decode("%4"), "%");
    assert_eq!(decode("ab%"), "ab%");
    assert_eq!(decode("ab%4"), "ab%");
    assert_eq!(decode("ab%41"), "abA");
}

#[test]
fn encode_keeps_unreserved_characters() {
    assert_eq!(encode(""), "");
    assert_eq!(encode("abcXYZ019-_.~"), "abcXYZ019-_.~");
    assert_eq!(encode("é"), "é");
    assert_eq!(encode("键"), "键");
}

#[test]
fn encode_escapes_the_rest() {
    assert_eq!(encode(" "), "%20");
    assert_eq!(encode("a*b"), "a%2Ab");
    assert_eq!(encode("a b&c=d"), "a%20b%26c%3Dd");
    assert_eq!(encode("\n"), "%0A");
    assert_eq!(encode("\0"), "%00");
    assert_eq!(encode("%"), "%25");
    assert_eq!(encode("/?#[]"), "%2F%3F%23%5B%5D");
}

#[test]
fn encode_takes_the_lowest_eight_bits() {
    assert_eq!(encode("€"), "%AC");
    assert_eq!(encode("÷"), "%F7");
    assert_eq!(encode("\u{2028}"), "%28");
}

#[test]
fn push_encoded_goes_by_the_given_answer() {
    let mut out: Vec<char> = vec!['x'];
    push_encoded(&mut out, 'a', true);
    push_encoded(&mut out, 'a', false);
    push_encoded(&mut out, '-', false);
    push_encoded(&mut out, ' ', true);
    push_encoded(&mut out, '\u{1ff}', false);
    let text: String = out.into_iter().collect();
    assert_eq!(text, "xa%61- %FF");
}

#[test]
fn decode_reads_what_encode_wrote_of_ascii() {
    let text = "key with spaces & signs: 100%? [yes]";
    assert_eq!(decode(&encode(text)), text);
}
