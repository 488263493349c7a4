use media_tagger::text::{
    is_whitespace_char, range_ends_with, range_starts_with, skip_leading, skip_trailing,
    strip_range, strip_text, to_chars, CharClass,
};

#[test]
fn whitespace_is_what_the_standard_library_calls_whitespace() {
    let mut code: u32 = 0;
    while code <= 0x10FFFF {
        if let Some(c) = char::from_u32(code) {
            assert_eq!(is_whitespace_char(c), c.is_whitespace(), "U+{:04X}", code);
        }
        code += 1;
    }
}

#[test]
fn classes_hold_their_characters() {
    assert!(CharClass::Whitespace.contains(' '));
    assert!(CharClass::Whitespace.contains('\u{3000}'));
    assert!(!CharClass::Whitespace.contains('"'));
    assert!(CharClass::Quote.contains('"'));
    assert!(!CharClass::Quote.contains('\''));
    assert!(!CharClass::Quote.contains(' '));
}

#[test]
fn chars_are_listed_in_order() {
    assert_eq!(to_chars("aß→"), vec!['a', 'ß', '→']);
    assert_eq!(to_chars(""), Vec::<char>::new());
}

#[test]
fn stripping_whitespace_is_trimming() {
    let samples = ["", " ", "  a b \t\n", "a", "\u{a0}x\u{2003}", " \u{feff} "];
    for sample in samples {
        assert_eq!(strip_text(sample, CharClass::Whitespace), sample.trim());
    }
}

#[test]
fn stripping_quotes_takes_all_of_them() {
    assert_eq!(strip_text("\"\"http://x\"", CharClass::Quote), "http://x");
    assert_eq!(strip_text("a\"b", CharClass::Quote), "a\"b");
    assert_eq!(strip_text("\"\"", CharClass::Quote), "");
    assert_eq!(strip_text(" \"x\"", CharClass::Quote), " \"x");
}

#[test]
fn ranges_are_skipped_from_both_ends() {
    let chars = to_chars("ab  cd  ef");
    assert_eq!(skip_leading(&chars, 2, 8, CharClass::Whitespace), 4);
    assert_eq!(skip_trailing(&chars, 2, 8, CharClass::Whitespace), 6);
    assert_eq!(strip_range(&chars, 2, 8, CharClass::Whitespace), (4, 6));
    assert_eq!(strip_range(&chars, 2, 4, CharClass::Whitespace), (4, 4));
    assert_eq!(strip_range(&chars, 0, 10, CharClass::Whitespace), (0, 10));
}

#[test]
fn prefixes_and_suffixes_of_ranges() {
    let chars = to_chars("song.mp3_t.mp3");
    let mp3 = to_chars(".mp3");
    assert!(range_ends_with(&chars, 0, 14, &mp3));
    assert!(range_ends_with(&chars, 0, 8, &mp3));
    assert!(!range_ends_with(&chars, 0, 10, &mp3));
    assert!(range_starts_with(&chars, 4, 14, &mp3));
    assert!(!range_starts_with(&chars, 5, 14, &mp3));
    assert!(!range_starts_with(&chars, 12, 14, &mp3));
    assert!(range_starts_with(&chars, 3, 3, &to_chars("")));
}
