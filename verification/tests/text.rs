use braacket_h2h::error::{status_error, PageError};
use braacket_h2h::text::{
    char_is_digit, char_is_whitespace, chars_of, find_char, find_last_pair, parse_u16_range,
    push_decimal, range_contains_digit, trim_range, whitespace_end, word_end,
};

fn parse(text: &str) -> Option<u16> {
    let chars = chars_of(text);
    parse_u16_range(&chars, 0, chars.len())
}

#[test]
fn whitespace_is_the_unicode_property() {
    for code in 0..=0x10ffffu32 {
        if let Some(c) = char::from_u32(code) {
            assert_eq!(char_is_whitespace(c), c.is_whitespace(), "U+{:04X}", code);
        }
    }
}

#[test]
fn digits_are_the_ten_ascii_digits() {
    for code in 0..=0x10ffffu32 {
        if let Some(c) = char::from_u32(code) {
            assert_eq!(char_is_digit(c), c.is_ascii_digit(), "U+{:04X}", code);
        }
    }
}

#[test]
fn chars_come_in_order() {
    assert_eq!(chars_of(""), Vec::<char>::new());
    assert_eq!(chars_of("a-b"), vec!['a', '-', 'b']);
    assert_eq!(chars_of("é\u{3000}字"), vec!['é', '\u{3000}', '字']);
}

#[test]
fn decimal_reads_what_u16_reads() {
    let texts = [
        "", "0", "7", "42", "65535", "65536", "65540", "70000", "99999", "100000", "000", "00012",
        "0000000000065535", "0000000000065536", "+", "+0", "+5", "++5", "+-5", "-5", "-0", "5+",
        " 5", "5 ", "5_0", "1e3", "0x10", "12a", "a12", "1 2", "\u{0661}", "１２", "6553", "6554",
        "65529", "65530", "65534", "655350", "18446744073709551616",
    ];
    for text in texts {
        assert_eq!(parse(text), text.parse::<u16>().ok(), "{:?}", text);
    }
    for n in 0..=u16::MAX {
        assert_eq!(parse(&n.to_string()), Some(n));
    }
    assert_eq!(parse("65535"), Some(65535));
    assert_eq!(parse("65536"), None);
    assert_eq!(parse("+17"), Some(17));
}

#[test]
fn decimal_reads_a_range_in_place() {
    let chars = chars_of("ab 123 cd");
    assert_eq!(parse_u16_range(&chars, 3, 6), Some(123));
    assert_eq!(parse_u16_range(&chars, 4, 5), Some(2));
    assert_eq!(parse_u16_range(&chars, 3, 7), None);
    assert_eq!(parse_u16_range(&chars, 2, 6), None);
    assert_eq!(parse_u16_range(&chars, 4, 4), None);
}

#[test]
fn decimal_is_written_without_leading_zeros() {
    for n in 0..=u16::MAX {
        let mut out = String::from("n=");
        push_decimal(&mut out, n);
        assert_eq!(out, format!("n={}", n));
    }
    let mut out = String::new();
    push_decimal(&mut out, 0);
    push_decimal(&mut out, 10);
    push_decimal(&mut out, 65535);
    assert_eq!(out, "01065535");
}

#[test]
fn trim_bounds_frame_the_trimmed_text() {
    let chars = chars_of("  ab c \n");
    assert_eq!(trim_range(&chars, 0, chars.len()), (2, 6));
    assert_eq!(trim_range(&chars, 3, 5), (3, 4));
    assert_eq!(whitespace_end(&chars, 0, chars.len()), 2);
    assert_eq!(whitespace_end(&chars, 4, chars.len()), 5);
    assert_eq!(whitespace_end(&chars, 6, chars.len()), 8);
    let blank = chars_of(" \t ");
    let (a, b) = trim_range(&blank, 0, 3);
    assert_eq!(a, b);
    assert_eq!(trim_range(&blank, 1, 1), (1, 1));
}

#[test]
fn word_ends_at_whitespace_or_at_the_end() {
    let chars = chars_of("134 rows");
    assert_eq!(word_end(&chars, 0, chars.len()), 3);
    assert_eq!(word_end(&chars, 3, chars.len()), 3);
    assert_eq!(word_end(&chars, 4, chars.len()), 8);
    assert_eq!(word_end(&chars, 4, 6), 6);
}

#[test]
fn digit_is_looked_for_within_the_range() {
    let chars = chars_of("ab1cd");
    assert!(range_contains_digit(&chars, 0, 5));
    assert!(range_contains_digit(&chars, 2, 3));
    assert!(!range_contains_digit(&chars, 0, 2));
    assert!(!range_contains_digit(&chars, 3, 5));
    assert!(!range_contains_digit(&chars, 2, 2));
}

#[test]
fn first_occurrence_of_a_character_is_found() {
    let chars = chars_of("a-b-c");
    assert_eq!(find_char(&chars, 0, 5, '-'), 1);
    assert_eq!(find_char(&chars, 2, 5, '-'), 3);
    assert_eq!(find_char(&chars, 4, 5, '-'), 5);
    assert_eq!(find_char(&chars, 0, 1, '-'), 1);
    assert_eq!(find_char(&chars, 0, 5, 'z'), 5);
    assert_eq!(find_char(&chars, 3, 3, '-'), 3);
}

#[test]
fn last_occurrence_of_a_pair_is_found() {
    assert_eq!(find_last_pair(&chars_of("1 of 2 of 3"), 'o', 'f'), Some(7));
    assert_eq!(find_last_pair(&chars_of("of"), 'o', 'f'), Some(0));
    assert_eq!(find_last_pair(&chars_of("oof"), 'o', 'f'), Some(1));
    assert_eq!(find_last_pair(&chars_of("off"), 'o', 'f'), Some(0));
    assert_eq!(find_last_pair(&chars_of("fo"), 'o', 'f'), None);
    assert_eq!(find_last_pair(&chars_of("o"), 'o', 'f'), None);
    assert_eq!(find_last_pair(&chars_of(""), 'o', 'f'), None);
    assert_eq!(find_last_pair(&chars_of("aaa"), 'a', 'a'), Some(1));
}

#[test]
fn status_outside_2xx_is_an_error() {
    assert_eq!(status_error(200), None);
    assert_eq!(status_error(204), None);
    assert_eq!(status_error(299), None);
    assert_eq!(status_error(199), Some(PageError::HttpStatus { status: 199 }));
    assert_eq!(status_error(300), Some(PageError::HttpStatus { status: 300 }));
    assert_eq!(status_error(404), Some(PageError::HttpStatus { status: 404 }));
    assert_eq!(status_error(503), Some(PageError::HttpStatus { status: 503 }));
    assert_eq!(status_error(0), Some(PageError::HttpStatus { status: 0 }));
    assert_eq!(status_error(65535), Some(PageError::HttpStatus { status: 65535 }));
}
