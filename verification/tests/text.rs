//! Tests of the text functions, against what the standard library says.
use nanoss::text::{
    ascii_alnum, cut_at_char, decimal_text, has_part, rfind_text, space, split_words, text_begins,
    to_ascii_lower, to_chars, token_char, trimmed, trimmed_end_char, trimmed_end_text,
    trimmed_start_char,
};
use nanoss::text::{has_char, replaced_char, replaced_text};

const SAMPLES: [&str; 10] = [
    "",
    " ",
    "plain",
    "  both ends \t\n",
    "/a//b/",
    "///",
    "a\u{a0}b\u{3000}",
    "Grüße, ÄÖÜ",
    "aaaa",
    "x-y_z 9",
];

#[test]
fn white_space_is_that_of_unicode() {
    for n in 0u32..=0x10FFFF {
        if let Some(c) = char::from_u32(n) {
            assert_eq!(space(c), c.is_whitespace(), "{n:x}");
            assert_eq!(ascii_alnum(c), c.is_ascii_alphanumeric(), "{n:x}");
        }
    }
}

#[test]
fn token_characters_are_names() {
    assert!(token_char('a') && token_char('9') && token_char('-') && token_char('_'));
    assert!(!token_char('.') && !token_char('/') && !token_char('é'));
}

#[test]
fn trims_agree_with_the_standard_library() {
    for s in SAMPLES {
        assert_eq!(trimmed(s), s.trim());
        assert_eq!(trimmed_start_char(s, '/'), s.trim_start_matches('/'));
        assert_eq!(trimmed_end_char(s, '/'), s.trim_end_matches('/'));
        assert_eq!(trimmed_end_text(s, "aa"), s.trim_end_matches("aa"));
    }
}

#[test]
fn searches_agree_with_the_standard_library() {
    for s in SAMPLES {
        for p in ["a", "aa", "//", "", "b/", "ü"] {
            assert_eq!(has_part(s, p), s.contains(p));
            assert_eq!(text_begins(s, p), s.starts_with(p));
            assert_eq!(replaced_text(s, "/", "::"), s.replace("/", "::"));
        }
        assert_eq!(has_char(s, '/'), s.contains('/'));
        assert_eq!(replaced_char(s, 'a', "<a>"), s.replace('a', "<a>"));
        assert_eq!(to_ascii_lower(s), s.to_ascii_lowercase());
        assert_eq!(cut_at_char(s, ' '), s.split(' ').next().unwrap());
        let words: Vec<String> = s.split_whitespace().map(|w| w.to_string()).collect();
        assert_eq!(split_words(s), words);
        let chars: Vec<char> = s.chars().collect();
        assert_eq!(to_chars(s), chars);
    }
    assert_eq!(rfind_text(&to_chars("</a></a>"), "</a>"), Some(4));
    assert_eq!(rfind_text(&to_chars("none"), "</a>"), None);
    assert_eq!(replaced_text("aaaa", "aa", "b"), "bb");
}

#[test]
fn numbers_are_written_in_decimal() {
    for n in [0u128, 7, 10, 1999, 100_000, u128::MAX] {
        assert_eq!(decimal_text(n), n.to_string());
    }
}
