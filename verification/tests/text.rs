use rayfish::digits::{decimal_text, hex_text, parse_u32};
use rayfish::text::{
    char_is_space, join_texts, lines_of, split_of, text_contains, text_ends_with, text_eq,
    text_starts_with, text_strip_prefix, text_trim, words_of,
};

#[test]
fn texts_come_apart_as_the_standard_library_has_it() {
    for text in [
        "", "\n", "a", "a\n", "a\nb", "a\r\nb\r", "\r\n", "a\n\nb\n", " a \t b\u{a0}c ", "  ",
        "\u{2003}x\u{3000}",
    ] {
        assert_eq!(lines_of(text), text.lines().collect::<Vec<_>>(), "{text:?}");
        assert_eq!(words_of(text), text.split_whitespace().collect::<Vec<_>>(), "{text:?}");
        assert_eq!(text_trim(text), text.trim(), "{text:?}");
        assert_eq!(split_of(text, 'a'), text.split('a').collect::<Vec<_>>(), "{text:?}");
    }
}

#[test]
fn white_space_is_what_unicode_says() {
    for n in 0..0x11_0000u32 {
        if let Some(c) = char::from_u32(n) {
            assert_eq!(char_is_space(c), c.is_whitespace(), "{n:x}");
        }
    }
}

#[test]
fn parts_of_texts_are_found() {
    assert!(text_starts_with("nightly (abc)", "nightly"));
    assert!(!text_starts_with("night", "nightly"));
    assert!(text_ends_with("homelab.ray", ".ray"));
    assert!(!text_ends_with("ray", ".ray"));
    assert!(text_contains("for rayfish only", "rayfish"));
    assert!(!text_contains("ray fish", "rayfish"));
    assert!(text_contains("", ""));
    assert!(text_eq("ä", "ä") && !text_eq("a", "b") && !text_eq("a", "ab"));
    assert_eq!(text_strip_prefix("v1.0", "v").as_deref(), Some("1.0"));
    assert_eq!(text_strip_prefix("1.0", "v"), None);
    assert_eq!(
        join_texts(&vec!["a".to_string(), "b".to_string(), String::new()], ", "),
        "a, b, "
    );
}

#[test]
fn numbers_are_written_and_read() {
    assert_eq!(decimal_text(0), "0");
    assert_eq!(decimal_text(u64::MAX), "18446744073709551615");
    assert_eq!(hex_text(0), "0");
    assert_eq!(hex_text(0xbeef), "beef");
    for text in ["0", "17", "+17", "4294967295", "007"] {
        assert_eq!(parse_u32(text), text.parse().ok(), "{text}");
    }
    for text in ["", "+", "-1", "4294967296", "1a", " 1", "1 "] {
        assert_eq!(parse_u32(text), None, "{text:?}");
        assert!(text.parse::<u32>().is_err());
    }
}
