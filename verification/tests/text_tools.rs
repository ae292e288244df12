use netmon::decimal::{append_decimal, decimal_text, parse_number};
use netmon::scan::{fields_of, find_char, find_space, is_space_char, lines_of, slice_of, trim, words_of};
use netmon::text::{
    chars_of, contains_part, last_place, replace_char, same_text, stands_at, string_of, text_contains,
};

fn spelled(rows: Vec<Vec<char>>) -> Vec<String> {
    rows.into_iter().map(|row| row.into_iter().collect()).collect()
}

const SAMPLES: [&str; 14] = [
    "",
    "\n",
    "one",
    "one\n",
    "one\ntwo",
    "one\r\ntwo\r\n",
    "\r\n\r\n",
    "a\n\nb\n",
    "last\r",
    "  lead and trail \t",
    "\u{a0}wide\u{3000}gap\u{2003}",
    "socket:[12]",
    "x:y::z:",
    "größe → 5\u{85}ende",
];

#[test]
fn characters_come_and_go() {
    for sample in SAMPLES {
        let chars = chars_of(sample);
        assert_eq!(chars, sample.chars().collect::<Vec<char>>());
        assert_eq!(string_of(&chars, 0, chars.len()), sample);
    }
    assert_eq!(string_of(&chars_of("abcdef"), 2, 4), "cd");
}

#[test]
fn parts_are_found() {
    let text = chars_of("handle 1 handle 22");
    let part = chars_of("handle ");
    assert!(stands_at(&text, &part, 0));
    assert!(!stands_at(&text, &part, 1));
    assert!(!stands_at(&text, &part, 100));
    assert_eq!(last_place(&text, &part), Some(9));
    assert_eq!(last_place(&part, &text), None);
    assert!(contains_part(&text, &chars_of("")));
    for (text, part) in [("File exists", "exists"), ("exist", "exists"), ("", ""), ("a", "")] {
        assert_eq!(text_contains(text, part), text.contains(part));
        assert_eq!(text.rfind(part).is_some(), last_place(&chars_of(text), &chars_of(part)).is_some());
    }
    assert!(same_text("abc", "abc"));
    assert!(!same_text("abc", "abd"));
    assert!(!same_text("abc", "abcd"));
}

#[test]
fn replacing_agrees_with_the_standard_library() {
    for sample in ["", "\"", "a\"b\"\"c", "plain", "ö\"ö"] {
        assert_eq!(replace_char(sample, '"', "_"), sample.replace('"', "_"));
        assert_eq!(replace_char(sample, '"', "\"\""), sample.replace('"', "\"\""));
        assert_eq!(replace_char(sample, '"', ""), sample.replace('"', ""));
    }
}

#[test]
fn white_space_is_that_of_unicode() {
    for code in 0..=0x10ffffu32 {
        if let Some(c) = char::from_u32(code) {
            assert_eq!(is_space_char(c), c.is_whitespace(), "{code:x}");
        }
    }
}

#[test]
fn cutting_agrees_with_the_standard_library() {
    for sample in SAMPLES {
        let chars = chars_of(sample);
        assert_eq!(spelled(lines_of(&chars)), sample.lines().collect::<Vec<_>>(), "{sample:?}");
        assert_eq!(
            spelled(words_of(&chars)),
            sample.split_whitespace().collect::<Vec<_>>(),
            "{sample:?}"
        );
        assert_eq!(spelled(fields_of(&chars, ':')), sample.split(':').collect::<Vec<_>>(), "{sample:?}");
        assert_eq!(trim(&chars).into_iter().collect::<String>(), sample.trim(), "{sample:?}");
    }
}

#[test]
fn searches_stop_where_they_should() {
    let text = chars_of("ab  cd");
    assert_eq!(find_char(&text, 0, 'c'), 4);
    assert_eq!(find_char(&text, 5, 'c'), 6);
    assert_eq!(find_space(&text, 0, true), 2);
    assert_eq!(find_space(&text, 2, false), 4);
    assert_eq!(find_space(&text, 4, true), 6);
    assert_eq!(slice_of(&text, 1, 4), chars_of("b  "));
}

#[test]
fn numbers_are_written_and_read_back() {
    for n in [0u64, 7, 9, 10, 99, 100, 65535, 4294967295, u64::MAX - 1, u64::MAX] {
        assert_eq!(decimal_text(n), n.to_string());
        assert_eq!(parse_number(&chars_of(&decimal_text(n)), 10, u64::MAX), Some(n));
    }
    let mut line = String::from("n=");
    append_decimal(&mut line, 120);
    assert_eq!(line, "n=120");
}

#[test]
fn parsing_agrees_with_the_standard_library() {
    let samples = [
        "", "+", "-", "0", "007", "+5", "-5", "12a", " 1", "1 ", "65535", "65536", "4294967295",
        "4294967296", "18446744073709551615", "18446744073709551616", "99999999999999999999999",
        "++1", "0x10", "ff", "FF", "1F90", "g", "é",
    ];
    for sample in samples {
        let chars = chars_of(sample);
        assert_eq!(parse_number(&chars, 10, u64::MAX), sample.parse::<u64>().ok(), "{sample:?}");
        assert_eq!(
            parse_number(&chars, 10, u32::MAX as u64),
            sample.parse::<u32>().ok().map(u64::from),
            "{sample:?}"
        );
        assert_eq!(
            parse_number(&chars, 16, 0xffff),
            u16::from_str_radix(sample, 16).ok().map(u64::from),
            "{sample:?}"
        );
        assert_eq!(
            parse_number(&chars, 16, u64::MAX),
            u64::from_str_radix(sample, 16).ok(),
            "{sample:?}"
        );
    }
}
