use kaiser_core::audio::name_matches_pattern;
use kaiser_core::text::{
    decimal_chars, display_key_string, parse_display_key, parse_u32, parse_u64, text_contains,
    wide_array_to_string,
};

#[test]
fn display_key_round_trip() {
    let s = display_key_string(123, 4);
    assert_eq!(s, "123:4");
    assert_eq!(parse_display_key(&s), Some((123, 4)));
    let s = display_key_string(u64::MAX, u32::MAX);
    assert_eq!(s, "18446744073709551615:4294967295");
    assert_eq!(parse_display_key(&s), Some((u64::MAX, u32::MAX)));
}

#[test]
fn display_key_rejects_malformed_text() {
    assert_eq!(parse_display_key("abc"), None);
    assert_eq!(parse_display_key("12"), None);
    assert_eq!(parse_display_key(":5"), None);
    assert_eq!(parse_display_key("5:"), None);
    assert_eq!(parse_display_key("1:2:3"), None);
    assert_eq!(parse_display_key("-1:2"), None);
    assert_eq!(parse_display_key("18446744073709551616:1"), None);
    assert_eq!(parse_display_key("1:4294967296"), None);
}

#[test]
fn display_key_parses_like_str_parse() {
    // `str::parse` accepts a leading '+'.
    assert_eq!(parse_display_key("+7:+8"), Some((7, 8)));
    assert_eq!("+7".parse::<u64>().ok(), Some(7));
}

#[test]
fn unsigned_parsing() {
    let c: Vec<char> = "00042".chars().collect();
    assert_eq!(parse_u64(&c), Some(42));
    let c: Vec<char> = "4294967296".chars().collect();
    assert_eq!(parse_u32(&c), None);
    assert_eq!(parse_u64(&c), Some(4294967296));
    let c: Vec<char> = "".chars().collect();
    assert_eq!(parse_u64(&c), None);
    let c: Vec<char> = "+".chars().collect();
    assert_eq!(parse_u64(&c), None);
}

#[test]
fn decimal_digits() {
    assert_eq!(decimal_chars(0), vec!['0']);
    assert_eq!(decimal_chars(907), vec!['9', '0', '7']);
}

#[test]
fn non_ascii_text_is_handled_by_character() {
    // Characters, not bytes: 'ñ' is one character of two bytes.
    assert!(text_contains("añb", "ñb"));
    assert!(!text_contains("añb", "nb"));
    assert_eq!(parse_display_key("١:2"), None);
}

#[test]
fn wide_text_stops_at_nul() {
    assert_eq!(wide_array_to_string(&[72, 105, 0, 88]), "Hi");
    assert_eq!(wide_array_to_string(&[72, 105]), "Hi");
    assert_eq!(wide_array_to_string(&[0, 72]), "");
    assert_eq!(wide_array_to_string(&[0xD800, 65, 0]), "\u{FFFD}A");
    assert_eq!(wide_array_to_string(&[0x48, 0x69, 0, 0x41]), "Hi");
    assert_eq!(wide_array_to_string(&[0x41, 0x42]), "AB");
    assert_eq!(wide_array_to_string(&[]), "");
}

#[test]
fn wide_text_surrogates() {
    // A surrogate pair is one character.
    assert_eq!(wide_array_to_string(&[0xD83D, 0xDE00, 0]), "\u{1F600}");
    // A lone low surrogate, and a high one not followed by a low one, become U+FFFD.
    assert_eq!(wide_array_to_string(&[0xDE00, 0x41]), "\u{FFFD}A");
    assert_eq!(wide_array_to_string(&[0xD83D, 0xD83D, 0xDE00]), "\u{FFFD}\u{1F600}");
    assert!(!wide_array_to_string(&[0x41, 0xD800, 0x42]).contains('\0'));
}

#[test]
fn lowercase_and_contains() {
    assert!(name_matches_pattern("ÄB Speakers", "äb speak"));
    assert!(name_matches_pattern("äb speakers", "ÄB SPEAK"));
    assert!(text_contains("realtek speakers", "speak"));
    assert!(text_contains("abc", ""));
    assert!(!text_contains("ab", "abc"));
    assert!(!text_contains("Speakers", "speak"));
}
