use vyse::number::{parse_unsigned, push_decimal, push_hex_bytes, push_numeral};
use vyse::search::{bytes_start_with, chars_end_with, chars_start_with, find_bytes, find_chars};
use vyse::text::{
    before_char, bytes_of, char_is_alphanumeric, char_is_space, chars_of, final_word,
    rsplit_once_char, same_str_ignoring_case, split_lines, split_once_char, split_pieces,
    str_is_empty, string_of, to_lower, trimmed, trimmed_end_char, trimmed_start_char,
};

fn texts(parts: Vec<Vec<char>>) -> Vec<String> {
    parts.iter().map(|p| string_of(p)).collect()
}

#[test]
fn white_space_is_that_of_char() {
    for code in 0..=0x10ffffu32 {
        if let Some(c) = char::from_u32(code) {
            assert_eq!(char_is_space(c), c.is_whitespace(), "{code:x}");
            if code < 0x300 {
                assert_eq!(char_is_alphanumeric(c), c.is_ascii_alphanumeric());
            }
        }
    }
}

#[test]
fn trimming_and_letter_case() {
    for text in ["", " ", "\u{2003}a b\u{85}\n", "x", "\ta"] {
        assert_eq!(string_of(trimmed(&chars_of(text))), text.trim());
    }
    assert_eq!(string_of(trimmed_start_char(&chars_of("..a."), '.')), "a.");
    assert_eq!(string_of(trimmed_end_char(&chars_of("/a//"), '/')), "/a");
    assert_eq!(string_of(&to_lower(&chars_of("A\u{c9}z"))), "A\u{c9}z".to_ascii_lowercase());
    assert!(same_str_ignoring_case("HoSt", "host"));
    assert!(!same_str_ignoring_case("\u{c9}", "\u{e9}"));
    assert!(str_is_empty(""));
    assert!(!str_is_empty("\u{0}"));
}

#[test]
fn splitting() {
    for text in ["", "a", "a\n", "a\r\nb", "\r\n\r\n", "a\r", "\n\na"] {
        let ours = texts(split_lines(&chars_of(text)));
        let lines: Vec<String> = text.lines().map(str::to_string).collect();
        assert_eq!(ours, lines, "{text:?}");
        let pieces: Vec<String> = text.split("\r\n").map(str::to_string).collect();
        assert_eq!(texts(split_pieces(&chars_of(text), &['\r', '\n'])), pieces, "{text:?}");
    }
    assert_eq!(string_of(before_char(&chars_of("a:b:c"), ':')), "a");
    let chars = chars_of("a:b:c");
    let (left, right) = split_once_char(&chars, ':').unwrap();
    assert_eq!((string_of(left), string_of(right)), ("a".to_string(), "b:c".to_string()));
    let (left, right) = rsplit_once_char(&chars, ':').unwrap();
    assert_eq!((string_of(left), string_of(right)), ("a:b".to_string(), "c".to_string()));
    assert!(split_once_char(&chars, '=').is_none());
    assert_eq!(string_of(final_word(&chars_of(" a bc \t"))), "bc");
    assert_eq!(string_of(final_word(&chars_of("  "))), "");
    assert_eq!(bytes_of("\u{e9}"), vec![0xc3, 0xa9]);
}

#[test]
fn searching() {
    assert_eq!(find_bytes(b"abcabc", b"ca"), Some(2));
    assert_eq!(find_bytes(b"abc", b"x"), None);
    assert_eq!(find_bytes(b"ab", b"abc"), None);
    assert!(bytes_start_with(b"abc", b"ab"));
    assert!(!bytes_start_with(b"a", b"ab"));
    assert_eq!(find_chars(&chars_of("hello"), &chars_of("ll")), Some(2));
    assert!(chars_start_with(&chars_of("hello"), &chars_of("he")));
    assert!(chars_end_with(&chars_of("hello"), &chars_of("lo")));
    assert!(!chars_end_with(&chars_of("lo"), &chars_of("hello")));
}

#[test]
fn numerals() {
    for n in [0u64, 9, 10, 255, 65535, u64::MAX] {
        let mut decimal = String::new();
        push_decimal(&mut decimal, n);
        assert_eq!(decimal, n.to_string());
        let mut hex = String::new();
        push_numeral(&mut hex, n, 16);
        assert_eq!(hex, format!("{n:x}"));
        assert_eq!(parse_unsigned(&chars_of(&decimal), 10, u64::MAX), Some(n));
        assert_eq!(parse_unsigned(&chars_of(&hex), 16, u64::MAX), Some(n));
    }
    let mut bytes = String::new();
    push_hex_bytes(&mut bytes, &[0, 15, 255]);
    assert_eq!(bytes, "000fff");
}

#[test]
fn numbers_are_read_as_std_reads_them() {
    for text in ["", "+", "-", "-0", "+5", "++5", "05", " 5", "5 ", "65535", "65536", "1_0", "\u{663}"] {
        let ours = parse_unsigned(&chars_of(text), 10, 65535).map(|n| n as u16);
        assert_eq!(ours, text.parse::<u16>().ok(), "{text:?}");
    }
    for text in ["", "+", "fF", "+ff", "g", "0x1", "ffffffffffffffff", "10000000000000000"] {
        let ours = parse_unsigned(&chars_of(text), 16, u64::MAX);
        assert_eq!(ours, u64::from_str_radix(text, 16).ok(), "{text:?}");
    }
}
