use a2a2::number::{pad_with_zeros, parse_u32, to_decimal, write_number, NumberError};
use a2a2::split::{join, lines, split, words, Separator};
use a2a2::text::{
    contains, find, is_whitespace, same_text, starts_with, strip_prefix, to_ascii_lowercase,
    to_ascii_uppercase, trim, trim_start,
};

const SAMPLES: [&str; 16] = [
    "",
    " ",
    "\n",
    "\r\n",
    "a",
    "a\n",
    "a\r\n\r\nb\n\nc\r",
    "  two  words\t\u{a0}three ",
    "\u{2003}wide\u{3000}",
    "AbC:dé:Ÿz",
    "::a::",
    "00:11:22:33:44:55",
    "x\ry\n\rz\r\r\n",
    "\u{1680}\u{2028}\u{2029}\u{202f}\u{205f}\u{85}",
    "naïve 🎵 tune\n",
    "abababab",
];

#[test]
fn white_space_is_that_of_the_standard_library() {
    for code in 0..=0x10ffffu32 {
        if let Some(c) = char::from_u32(code) {
            assert_eq!(is_whitespace(c), c.is_whitespace(), "{code:x}");
        }
    }
}

#[test]
fn splitting_agrees_with_the_standard_library() {
    for text in SAMPLES {
        assert_eq!(lines(text), text.lines().collect::<Vec<_>>());
        assert_eq!(words(text), text.split_whitespace().collect::<Vec<_>>());
        assert_eq!(
            split(text, Separator::One(':')),
            text.split(':').collect::<Vec<_>>()
        );
        assert_eq!(
            split(text, Separator::OutsideAddress),
            text.split(|c: char| !(c.is_ascii_hexdigit() || c == ':'))
                .collect::<Vec<_>>()
        );
        assert_eq!(
            split(text, Separator::Whitespace),
            text.split(char::is_whitespace).collect::<Vec<_>>()
        );
    }
}

#[test]
fn trimming_and_case_agree_with_the_standard_library() {
    for text in SAMPLES {
        assert_eq!(trim(text), text.trim());
        assert_eq!(trim_start(text), text.trim_start());
        assert_eq!(to_ascii_lowercase(text), text.to_ascii_lowercase());
        assert_eq!(to_ascii_uppercase(text), text.to_ascii_uppercase());
    }
}

#[test]
fn searching_agrees_with_the_standard_library() {
    for text in SAMPLES {
        for part in ["", "a", "ab", "ba", "b", "é", ":", "words", "🎵", "\n"] {
            assert_eq!(contains(text, part), text.contains(part));
            assert_eq!(starts_with(text, part), text.starts_with(part));
            assert_eq!(strip_prefix(text, part), text.strip_prefix(part));
            let chars = text.find(part).map(|at| text[..at].chars().count());
            assert_eq!(find(text, part), chars);
            assert_eq!(same_text(text, part), text == part);
        }
    }
}

#[test]
fn pieces_join_to_the_text() {
    for text in SAMPLES {
        assert_eq!(join(&split(text, Separator::One(':')), ":"), text);
    }
    assert_eq!(join(&[], ", "), "");
}

#[test]
fn words_are_solid() {
    let list = words("  two  words\t\u{a0}three ");
    assert_eq!(list, ["two", "words", "three"]);
}

fn expected(text: &str, radix: u32) -> Result<u32, String> {
    u32::from_str_radix(text, radix).map_err(|error| error.to_string())
}

#[test]
fn numbers_are_read_as_by_the_standard_library() {
    let texts = [
        "",
        "+",
        "-",
        "-1",
        "+1",
        "++1",
        "0",
        "007",
        "4294967295",
        "4294967296",
        "42949672950",
        "99999999999x",
        "429496729x",
        "12 ",
        " 12",
        "1_000",
        "ff",
        "FFffFFff",
        "100000000",
        "fffffffg",
        "１",
        "1é",
    ];
    for text in texts {
        for radix in [2, 10, 16] {
            let read = parse_u32(text, radix).map_err(|error| error.message());
            assert_eq!(read, expected(text, radix), "{text} in base {radix}");
        }
    }
}

#[test]
fn each_number_error_has_an_input() {
    assert_eq!(parse_u32("", 10), Err(NumberError::Empty));
    assert_eq!(parse_u32("a", 10), Err(NumberError::InvalidDigit));
    assert_eq!(parse_u32("4294967296", 10), Err(NumberError::TooLarge));
}

#[test]
fn written_numbers_are_read_back() {
    for value in [0u32, 1, 9, 10, 255, 0x240414, 4_000_000_000, u32::MAX] {
        assert_eq!(to_decimal(value as u64), value.to_string());
        assert_eq!(write_number(value as u64, 16), format!("{value:x}"));
        let padded = pad_with_zeros(&write_number(value as u64, 16), 6);
        assert_eq!(padded, format!("{value:06x}"));
        assert_eq!(parse_u32(&padded, 16), Ok(value));
        assert_eq!(parse_u32(&to_decimal(value as u64), 10), Ok(value));
    }
    assert_eq!(to_decimal(u64::MAX), u64::MAX.to_string());
}
