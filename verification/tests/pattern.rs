use lynxspark::storage::manager::glob_match;
use lynxspark::utils::regex::{is_match, is_match_chars};

#[test]
fn star_matches_one_character() {
    assert!(is_match("a*c", "abc"));
}

#[test]
fn star_matches_nothing() {
    assert!(is_match("a*c", "ac"));
}

#[test]
fn question_mark_matches_one_character() {
    assert!(is_match("a?c", "abc"));
}

#[test]
fn question_mark_does_not_match_two_characters() {
    assert!(!is_match("a?c", "abbc"));
}

#[test]
fn set_matches_a_member() {
    assert!(is_match("[abc]x", "bx"));
}

#[test]
fn negated_set_rejects_a_member() {
    assert!(!is_match("[^abc]x", "bx"));
}

#[test]
fn negated_set_matches_another_character() {
    assert!(is_match("[^abc]x", "dx"));
    assert!(!is_match("[^abc]x", "x"));
}

#[test]
fn empty_pattern_matches_only_the_empty_text() {
    assert!(is_match("", ""));
    assert!(!is_match("", "a"));
}

#[test]
fn empty_text_is_matched_by_stars_only() {
    assert!(is_match("*", ""));
    assert!(is_match("**", ""));
    assert!(!is_match("?", ""));
    assert!(!is_match("a", ""));
    assert!(!is_match("[a]", ""));
}

#[test]
fn pattern_covers_the_whole_text() {
    assert!(!is_match("b", "abc"));
    assert!(!is_match("ab", "abc"));
    assert!(!is_match("bc", "abc"));
    assert!(is_match("*b*", "abc"));
}

#[test]
fn literal_characters_are_case_sensitive() {
    assert!(is_match("key", "key"));
    assert!(!is_match("key", "Key"));
}

#[test]
fn star_backtracks_to_a_later_split() {
    assert!(is_match("*ab", "aab"));
    assert!(is_match("a*b*c", "axxbyybzzc"));
    assert!(is_match("*a*a*a", "aaa"));
    assert!(!is_match("*a*a*a*a", "aaa"));
    assert!(is_match("user:*:name", "user:42:name"));
    assert!(!is_match("user:*:name", "user:42:age"));
}

#[test]
fn escape_makes_the_next_character_literal() {
    assert!(is_match("a\\*c", "a*c"));
    assert!(!is_match("a\\*c", "abc"));
    assert!(is_match("a\\?", "a?"));
    assert!(!is_match("a\\?", "ab"));
    assert!(is_match("\\[x]", "[x]"));
    assert!(is_match("\\\\", "\\"));
    assert!(is_match("\\a", "a"));
}

#[test]
fn lone_backslash_at_the_end_is_literal() {
    assert!(is_match("a\\", "a\\"));
    assert!(!is_match("a\\", "ab"));
    assert!(!is_match("a\\", "a"));
}

#[test]
fn unclosed_set_makes_the_rest_literal() {
    assert!(is_match("a[bc", "a[bc"));
    assert!(!is_match("a[bc", "ab"));
    assert!(is_match("[*", "[*"));
    assert!(!is_match("[*", "[xyz"));
    assert!(is_match("[^", "[^"));
    assert!(is_match("[", "["));
}

#[test]
fn set_ends_at_the_first_closing_bracket() {
    assert!(!is_match("[]", "a"));
    assert!(!is_match("[]", ""));
    assert!(is_match("[^]", "a"));
    assert!(is_match("[a]]", "a]"));
    assert!(is_match("[*?]", "*"));
    assert!(is_match("[*?]", "?"));
    assert!(!is_match("[*?]", "a"));
    assert!(is_match("[a^]", "^"));
}

#[test]
fn set_followed_by_star() {
    assert!(is_match("[ab]*", "a"));
    assert!(is_match("[ab]*z", "bxyz"));
    assert!(!is_match("[ab]*z", "cxyz"));
}

#[test]
fn characters_beyond_ascii_count_as_one() {
    assert!(is_match("?", "é"));
    assert!(is_match("k?y", "k€y"));
    assert!(is_match("[é€]", "€"));
    assert!(is_match("*键", "一个键"));
}

#[test]
fn matching_on_characters_agrees_with_matching_on_text() {
    let pattern: Vec<char> = "h?llo*".chars().collect();
    let text: Vec<char> = "hello world".chars().collect();
    assert!(is_match_chars(&pattern, &text));
    let other: Vec<char> = "hallo".chars().collect();
    assert!(is_match_chars(&pattern, &other));
    let short: Vec<char> = "hllo".chars().collect();
    assert!(!is_match_chars(&pattern, &short));
}

#[test]
fn glob_match_is_the_pattern_matcher() {
    assert!(glob_match("a*c", "abc"));
    assert!(glob_match("a?c", "abc"));
    assert!(!glob_match("a?c", "abbc"));
    assert!(glob_match("[abc]x", "bx"));
    assert!(!glob_match("[^abc]x", "bx"));
}

#[test]
fn many_stars_on_a_long_text_end_quickly() {
    let text = "a".repeat(2000);
    let pattern = format!("{}b", "*a".repeat(40));
    assert!(!is_match(&pattern, &text));
    let matching = format!("{}b", text);
    assert!(is_match(&pattern, &matching));
    assert!(is_match(&format!("{}*", "*a".repeat(40)), &text));
    assert!(!is_match(&format!("{}*", "*a".repeat(40)), &"a".repeat(39)));
}

#[test]
fn failure_behind_a_later_star_is_final() {
    assert!(!is_match("*a*b", "aaaa"));
    assert!(!is_match("*a?c*d", "abcabcabc"));
    assert!(is_match("*a?c*d", "abcabcabcd"));
    assert!(!is_match("x*a*b", "yab"));
    assert!(is_match("*[ab]*\\**", "zzb--*"));
    assert!(!is_match("*[ab]*\\**", "zz--*"));
    assert!(is_match("*ab*[cd", "xxabyy[cd"));
    assert!(!is_match("*ab*[cd", "xxabyy[cdz"));
}
