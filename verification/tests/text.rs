//! Text, held against what the standard library does.

use herdr_reviewr::markdown::hostile_char;
use herdr_reviewr::text::{
    chars_of, contains, ends_with, is_before, is_white_space, lower, push_decimal, push_padded,
    read_number, same_ignoring_case, same_text, stands, trim,
};

#[test]
fn white_space_is_what_unicode_says() {
    for code in 0u32..0x11_0000 {
        if let Some(c) = char::from_u32(code) {
            assert_eq!(is_white_space(c), c.is_whitespace(), "{code:x}");
        }
    }
}

#[test]
fn a_lower_case_letter_is_that_of_ascii() {
    for code in 0u32..0x11_0000 {
        if let Some(c) = char::from_u32(code) {
            assert_eq!(lower(c), c.to_ascii_lowercase(), "{code:x}");
        }
    }
}

#[test]
fn hostile_characters_control_the_terminal_or_the_direction() {
    for code in 0u32..0x11_0000 {
        if let Some(c) = char::from_u32(code) {
            let turns = matches!(c, '\u{202a}'..='\u{202e}' | '\u{2066}'..='\u{2069}');
            assert_eq!(hostile_char(c), c.is_control() || turns, "{code:x}");
        }
    }
}

const SAMPLES: [&str; 14] = [
    "", "a", "A", "ab", "aB", "abc", "bab", " a ", "\u{a0}\u{3000}", "\u{e9}a", "\u{c9}A",
    "\n a b \t\r", "\u{1f600}", "\u{10ffff}",
];

#[test]
fn text_compares_as_in_the_standard_library() {
    for a in SAMPLES {
        assert_eq!(trim(a), a.trim(), "{a:?}");
        assert_eq!(chars_of(a), a.chars().collect::<Vec<char>>());
        for b in SAMPLES {
            assert_eq!(same_text(a, b), a == b, "{a:?} {b:?}");
            assert_eq!(contains(a, b), a.contains(b), "{a:?} {b:?}");
            assert_eq!(ends_with(a, b), a.ends_with(b), "{a:?} {b:?}");
            assert_eq!(is_before(a, b), a < b, "{a:?} {b:?}");
            assert_eq!(
                same_ignoring_case(&chars_of(a), &chars_of(b)),
                a.eq_ignore_ascii_case(b),
                "{a:?} {b:?}"
            );
        }
    }
}

#[test]
fn a_part_stands_where_it_begins() {
    let text = chars_of("abab");
    let part = chars_of("ab");
    assert!(stands(&text, &part, 0));
    assert!(!stands(&text, &part, 1));
    assert!(stands(&text, &part, 2));
    assert!(!stands(&text, &part, 3));
    assert!(!stands(&text, &part, usize::MAX));
    assert!(stands(&text, &chars_of(""), 4));
    assert!(!stands(&text, &chars_of(""), 5));
}

#[test]
fn numbers_are_written_as_in_the_standard_library() {
    for n in [0u64, 9, 10, 99, 100, 12_345_678_901, u64::MAX] {
        let mut out = "n=".to_string();
        push_decimal(&mut out, n);
        assert_eq!(out, format!("n={n}"));
    }
    for n in [0i64, 5, 42, 123, 12_345, -1, -42, -123, -1234, i64::MIN, i64::MAX] {
        let mut out = String::new();
        push_padded(&mut out, n, 4);
        assert_eq!(out, format!("{n:04}"));
        let mut out = String::new();
        push_padded(&mut out, n, 2);
        assert_eq!(out, format!("{n:02}"));
        let mut out = String::new();
        push_padded(&mut out, n, 0);
        assert_eq!(out, format!("{n}"));
    }
}

#[test]
fn a_number_reads_below_its_limit() {
    let text = chars_of("a0129b");
    assert_eq!(read_number(&text, 1, 5, 1000), Some(129));
    assert_eq!(read_number(&text, 1, 5, 129), None);
    assert_eq!(read_number(&text, 1, 5, 130), Some(129));
    assert_eq!(read_number(&text, 0, 5, 1000), None);
    assert_eq!(read_number(&text, 1, 6, 1000), None);
    assert_eq!(read_number(&text, 2, 2, 10), Some(0));
    let long = chars_of("99999999999999999999999999");
    assert_eq!(read_number(&long, 0, long.len(), 1_000_000_000_000_000), None);
}
