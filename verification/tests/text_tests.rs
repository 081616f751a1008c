//! Text and numbers.

use ia_get::numbers::{decimal_of, decimal_string, pad_left, parse_signed, parse_unsigned};
use ia_get::order::is_before;
use ia_get::text::{
    between, chars_of, contains, ends_with, find_piece, join_with, lines_of, replace,
    split_at_char, starts_with, string_of, to_lower, trim,
};

const SAMPLES: [&str; 16] = [
    "", " ", "a", "abc", "a\nb", "a\r\nb\r\n", "\n\n", "x\r", "x\ry\n", " \t a b \u{3000}", "/a//b/",
    "ÀÉ Mixed Case", "aaaa", "abababa", "日本語/テキスト", "\u{1F600}",
];

fn strings(pieces: &[Vec<char>]) -> Vec<String> {
    pieces.iter().map(string_of).collect()
}

#[test]
fn texts_are_taken_apart_as_usual() {
    for sample in SAMPLES {
        let chars = chars_of(sample);
        assert_eq!(string_of(&chars), sample);
        assert_eq!(string_of(&trim(&chars)), sample.trim());
        assert_eq!(strings(&lines_of(&chars)), sample.lines().collect::<Vec<_>>());
        assert_eq!(string_of(&to_lower(&chars)), sample.to_ascii_lowercase());
        for separator in ['/', 'a', '\n'] {
            let pieces = split_at_char(&chars, separator);
            assert_eq!(strings(&pieces), sample.split(separator).collect::<Vec<_>>());
            assert_eq!(join_with(&pieces, &vec![separator]), chars);
        }
        for piece in ["a", "aa", "aba", "/", "語"] {
            let part = chars_of(piece);
            assert_eq!(starts_with(&chars, &part), sample.starts_with(piece));
            assert_eq!(ends_with(&chars, &part), sample.ends_with(piece));
            assert_eq!(contains(&chars, &part), sample.contains(piece));
            assert_eq!(string_of(&replace(&chars, &part, &chars_of("<>"))), sample.replace(piece, "<>"));
            let place = sample.find(piece).map(|at| sample[..at].chars().count());
            assert_eq!(find_piece(&chars, &part), place.unwrap_or(chars.len()));
        }
    }
    assert_eq!(between("(", "x", ")"), "(x)");
}

#[test]
fn texts_are_ordered_as_usual() {
    for a in SAMPLES {
        for b in SAMPLES {
            assert_eq!(is_before(&chars_of(a), &chars_of(b)), a < b);
        }
    }
}

#[test]
fn numbers_are_written_and_read_as_usual() {
    for n in [0, 1, 9, 10, 99, 100, 12_345, u64::MAX] {
        assert_eq!(decimal_string(n), n.to_string());
        assert_eq!(parse_unsigned(&decimal_of(n), u64::MAX), Some(n));
    }
    for word in [
        "", "+", "-", "0", "-0", "+7", "-7", "007", "7 ", "٣", "1_000", "18446744073709551615",
        "18446744073709551616", "9223372036854775807", "9223372036854775808",
        "-9223372036854775808", "-9223372036854775809", "+-1", "--1",
    ] {
        let chars = chars_of(word);
        assert_eq!(parse_unsigned(&chars, u64::MAX), word.parse::<u64>().ok());
        assert_eq!(parse_signed(&chars), word.parse::<i64>().ok());
        let narrow = parse_unsigned(&chars, u32::MAX as u64).map(|n| n as u32);
        assert_eq!(narrow, word.parse::<u32>().ok());
    }
}

#[test]
fn short_texts_are_padded() {
    assert_eq!(string_of(&pad_left(&chars_of("ab"), 4, ' ')), "  ab");
    assert_eq!(string_of(&pad_left(&chars_of("ab"), 2, ' ')), "ab");
    assert_eq!(string_of(&pad_left(&chars_of("abc"), 2, ' ')), "abc");
}
