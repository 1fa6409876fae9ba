use txtgrep::lines::split_lines;
use txtgrep::text::{
    char_is_whitespace, chars_contain, chars_match_at, contains, decode, to_chars, trim,
};

#[test]
fn whitespace_is_the_unicode_property() {
    let mut count = 0;
    for code in 0u32..=0x10FFFF {
        if let Some(c) = char::from_u32(code) {
            assert_eq!(char_is_whitespace(c), c.is_whitespace(), "U+{:04X}", code);
            if char_is_whitespace(c) {
                count += 1;
            }
        }
    }
    assert_eq!(count, 25);
}

#[test]
fn whitespace_examples() {
    for c in [' ', '\t', '\n', '\r', '\u{b}', '\u{c}', '\u{85}', '\u{a0}', '\u{2003}', '\u{3000}'] {
        assert!(char_is_whitespace(c));
    }
    for c in ['a', '0', '_', '\u{200b}', '\u{180e}', '\u{feff}', '\u{0}', '\u{1f}'] {
        assert!(!char_is_whitespace(c));
    }
}

#[test]
fn trim_removes_outer_whitespace_only() {
    assert_eq!(trim("  hello world \t"), "hello world");
    assert_eq!(trim("hello"), "hello");
    assert_eq!(trim(""), "");
    assert_eq!(trim(" \t\r\n"), "");
    assert_eq!(trim("\u{a0}a b\u{2028}"), "a b");
    assert_eq!(trim(" é "), "é");
    assert_eq!(trim("x "), "x");
    assert_eq!(trim(" x"), "x");
}

#[test]
fn trim_agrees_with_std() {
    let samples = [
        "", " ", "a", " a", "a ", "  a  b  ", "\t\ta\n", "\u{3000}日本語\u{3000}", "a\u{200b} ",
        "\r\n", " \u{85}x\u{85} ", "x\u{1680}y", "\u{feff} z",
    ];
    for s in samples {
        assert_eq!(trim(s), s.trim(), "{:?}", s);
    }
}

#[test]
fn contains_finds_literal_pieces() {
    assert!(contains("This is a test", "test"));
    assert!(contains("This is a test", "This"));
    assert!(contains("This is a test", "s is a"));
    assert!(contains("This is a test", "This is a test"));
    assert!(!contains("This is a test", "This is a test!"));
    assert!(!contains("Hello", "test"));
    assert!(!contains("This is a test", "Test"));
    assert!(!contains("", "a"));
    assert!(contains("", ""));
    assert!(contains("abc", ""));
    assert!(contains("aaab", "aab"));
    assert!(!contains("abab", "abb"));
}

#[test]
fn contains_agrees_with_std() {
    let hays = ["", "a", "ab", "aab", "abcabc", "mississippi", "日本語のテキスト", "a.b*c"];
    let needles = ["", "a", "b", "ab", "ba", "ssi", "ssip", "pi", "本語", "語の", ".b*", "x"];
    for hay in hays {
        for needle in needles {
            assert_eq!(contains(hay, needle), hay.contains(needle), "{:?} {:?}", hay, needle);
        }
    }
}

#[test]
fn search_on_characters() {
    let hay = to_chars("héllo");
    assert_eq!(hay, vec!['h', 'é', 'l', 'l', 'o']);
    let needle = to_chars("llo");
    assert!(chars_match_at(&hay, &needle, 2));
    assert!(!chars_match_at(&hay, &needle, 1));
    assert!(!chars_match_at(&hay, &needle, 3));
    assert!(!chars_match_at(&hay, &needle, 6));
    assert!(!chars_match_at(&hay, &needle, usize::MAX));
    assert!(chars_match_at(&hay, &Vec::new(), 5));
    assert!(chars_contain(&hay, &needle));
    assert!(!chars_contain(&needle, &hay));
}

#[test]
fn decode_accepts_valid_text_only() {
    assert_eq!(decode("héllo €".as_bytes()), Some("héllo €"));
    assert_eq!(decode(&[]), Some(""));
    assert_eq!(decode(&[0xff]), None);
    assert_eq!(decode(&[0xc0, 0x80]), None);
    assert_eq!(decode(&[0xed, 0xa0, 0x80]), None);
    assert_eq!(decode(&[b'a', 0xf0, 0x9f, 0x98]), None);
}

#[test]
fn lines_end_at_line_feeds() {
    let none: Vec<String> = Vec::new();
    assert_eq!(split_lines(""), none);
    assert_eq!(split_lines("a"), vec!["a"]);
    assert_eq!(split_lines("a\n"), vec!["a"]);
    assert_eq!(split_lines("a\nb"), vec!["a", "b"]);
    assert_eq!(split_lines("a\nb\n"), vec!["a", "b"]);
    assert_eq!(split_lines("\n"), vec![""]);
    assert_eq!(split_lines("\n\n"), vec!["", ""]);
    assert_eq!(split_lines("a\n\nb"), vec!["a", "", "b"]);
    assert_eq!(split_lines("Hello\nThis is a test\nAnother test line"),
        vec!["Hello", "This is a test", "Another test line"]);
}

#[test]
fn carriage_return_before_line_feed_is_dropped() {
    assert_eq!(split_lines("a\r\nb\r\n"), vec!["a", "b"]);
    assert_eq!(split_lines("a\r"), vec!["a\r"]);
    assert_eq!(split_lines("a\rb\n"), vec!["a\rb"]);
    assert_eq!(split_lines("a\r\r\n"), vec!["a\r"]);
    assert_eq!(split_lines("\r\n"), vec![""]);
    assert_eq!(split_lines("\r\n\r"), vec!["", "\r"]);
}

#[test]
fn lines_agree_with_std() {
    let samples = [
        "", "\n", "a", "a\n", "a\r\n", "a\r", "\r", "\r\n\r\n", "x\ny\r\nz", "é\n€\r\n", "\n\na\n\n",
    ];
    for s in samples {
        let expected: Vec<String> = s.lines().map(|l| l.to_string()).collect();
        assert_eq!(split_lines(s), expected, "{:?}", s);
    }
}
