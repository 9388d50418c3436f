use ratcalc::chars::{is_ascii_digit, is_ascii_punctuation, is_whitespace, len_utf8};

#[test]
fn whitespace_is_the_unicode_property() {
    for code in 0u32..=0x10FFFF {
        if let Some(c) = char::from_u32(code) {
            assert_eq!(is_whitespace(c), c.is_whitespace(), "U+{:04X}", code);
        }
    }
}

#[test]
fn digits_are_the_ascii_digits() {
    for code in 0u32..=0x10FFFF {
        if let Some(c) = char::from_u32(code) {
            assert_eq!(is_ascii_digit(c), c.is_ascii_digit(), "U+{:04X}", code);
        }
    }
}

#[test]
fn punctuation_is_the_ascii_punctuation() {
    for code in 0u32..=0x10FFFF {
        if let Some(c) = char::from_u32(code) {
            assert_eq!(is_ascii_punctuation(c), c.is_ascii_punctuation(), "U+{:04X}", code);
        }
    }
}

#[test]
fn width_is_the_length_of_the_encoding() {
    for code in 0u32..=0x10FFFF {
        if let Some(c) = char::from_u32(code) {
            assert_eq!(len_utf8(c), c.len_utf8(), "U+{:04X}", code);
        }
    }
}

#[test]
fn width_at_the_borders() {
    assert_eq!(len_utf8('\u{7F}'), 1);
    assert_eq!(len_utf8('\u{80}'), 2);
    assert_eq!(len_utf8('\u{7FF}'), 2);
    assert_eq!(len_utf8('\u{800}'), 3);
    assert_eq!(len_utf8('\u{FFFF}'), 3);
    assert_eq!(len_utf8('\u{10000}'), 4);
}
