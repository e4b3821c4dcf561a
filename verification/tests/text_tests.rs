use typebook::text::{
    byte_count, char_is_ascii_whitespace, char_is_whitespace, chars_are_equal_including_unicode_alternatives,
    chars_of, replace_unicode_multichars, string_of, trim_end_in_place, utf8_len,
};

#[test]
fn utf8_len_agrees_with_std_on_every_char() {
    for v in 0..=0x10FFFFu32 {
        if let Some(c) = char::from_u32(v) {
            assert_eq!(utf8_len(c), c.len_utf8(), "U+{:04X}", v);
        }
    }
}

#[test]
fn whitespace_agrees_with_std_on_every_char() {
    for v in 0..=0x10FFFFu32 {
        if let Some(c) = char::from_u32(v) {
            assert_eq!(char_is_whitespace(c), c.is_whitespace(), "U+{:04X}", v);
            assert_eq!(char_is_ascii_whitespace(c), c.is_ascii_whitespace(), "U+{:04X}", v);
        }
    }
}

#[test]
fn byte_count_counts_encoded_bytes() {
    assert_eq!(byte_count(""), 0);
    assert_eq!(byte_count("abc"), 3);
    assert_eq!(byte_count("It\u{2019}s"), 6);
    assert_eq!(byte_count("\u{1F600}"), 4);
}

#[test]
fn chars_and_back() {
    let chars = chars_of("a\u{e9}\u{2014}z");
    assert_eq!(chars, vec!['a', '\u{e9}', '\u{2014}', 'z']);
    assert_eq!(string_of(&chars, 0, 4), "a\u{e9}\u{2014}z");
    assert_eq!(string_of(&chars, 1, 3), "\u{e9}\u{2014}");
    assert_eq!(string_of(&chars, 2, 2), "");
}

#[test]
fn trim_end_removes_trailing_whitespace_and_counts_it() {
    let mut s = String::from("hello \t\n\u{a0}");
    assert_eq!(trim_end_in_place(&mut s), 4);
    assert_eq!(s, "hello");
}

#[test]
fn trim_end_leaves_inner_and_leading_whitespace() {
    let mut s = String::from("  a b");
    assert_eq!(trim_end_in_place(&mut s), 0);
    assert_eq!(s, "  a b");
}

#[test]
fn trim_end_empties_a_blank_string() {
    let mut s = String::from(" \n ");
    assert_eq!(trim_end_in_place(&mut s), 3);
    assert_eq!(s, "");
    assert_eq!(trim_end_in_place(&mut s), 0);
    assert_eq!(s, "");
}

#[test]
fn em_dash_becomes_two_hyphens() {
    assert_eq!(replace_unicode_multichars("Wait\u{2014}what?"), "Wait--what?");
}

#[test]
fn ellipsis_becomes_three_full_stops() {
    assert_eq!(replace_unicode_multichars("So\u{2026}"), "So...");
    assert_eq!(replace_unicode_multichars("\u{2026}\u{2014}\u{2026}"), "...--...");
}

#[test]
fn text_without_multichars_is_unchanged() {
    assert_eq!(replace_unicode_multichars("plain - text."), "plain - text.");
    assert_eq!(replace_unicode_multichars(""), "");
}

#[test]
fn plain_apostrophe_stands_for_curly_ones() {
    assert!(chars_are_equal_including_unicode_alternatives('\u{2018}', '\''));
    assert!(chars_are_equal_including_unicode_alternatives('\u{2019}', '\''));
    assert!(!chars_are_equal_including_unicode_alternatives('\'', '\u{2019}'));
}

#[test]
fn plain_quote_stands_for_curly_ones() {
    assert!(chars_are_equal_including_unicode_alternatives('\u{201C}', '"'));
    assert!(chars_are_equal_including_unicode_alternatives('\u{201D}', '"'));
    assert!(!chars_are_equal_including_unicode_alternatives('\u{2019}', '"'));
}

#[test]
fn plain_space_stands_for_no_break_space() {
    assert!(chars_are_equal_including_unicode_alternatives('\u{a0}', ' '));
    assert!(!chars_are_equal_including_unicode_alternatives(' ', '\u{a0}'));
}

#[test]
fn equal_chars_match_and_others_do_not() {
    assert!(chars_are_equal_including_unicode_alternatives('a', 'a'));
    assert!(chars_are_equal_including_unicode_alternatives('\'', '\''));
    assert!(!chars_are_equal_including_unicode_alternatives('a', 'b'));
    assert!(!chars_are_equal_including_unicode_alternatives('\u{2014}', '-'));
}
