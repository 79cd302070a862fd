use codex_plus_core::number::{parse_u16, push_decimal, push_hex, push_hex_byte};
use codex_plus_core::text::{
    concatenate, contains, is_white_space, join, lines, split_once, split_word, string_of, to_ascii_lowercase,
    trim, trim_end_matches,
};

fn chars(s: &str) -> Vec<char> {
    s.chars().collect()
}

#[test]
fn white_space_is_that_of_the_standard_library() {
    for code in 0..=0x10ffffu32 {
        if let Some(c) = char::from_u32(code) {
            assert_eq!(is_white_space(c), c.is_whitespace(), "{code:x}");
        }
    }
}

#[test]
fn trimming_is_that_of_the_standard_library() {
    for s in ["", " ", "a", " a ", "\u{3000}a b\u{85}\n", "\t\r\n", "ab.."] {
        assert_eq!(string_of(trim(&chars(s))), s.trim());
        assert_eq!(string_of(trim_end_matches(&chars(s), '.')), s.trim_end_matches('.'));
    }
}

#[test]
fn lines_keep_their_endings() {
    for s in ["", "\n", "a", "a\n", "a\r\nb", "a\r\r\n", "\r\n\r\n", "a\r", "a\n\nb\n\n", "\ra\n"] {
        let mut expected: Vec<Vec<char>> = s.split_inclusive('\n').map(chars).collect();
        if let Some(last) = expected.last_mut() {
            if last.last() != Some(&'\n') {
                last.push('\n');
            }
        }
        assert_eq!(lines(&chars(s)), expected, "{s:?}");
    }
    assert_eq!(string_of(&concatenate(&lines(&chars("a\r\nb")))), "a\r\nb\n");
}

#[test]
fn splitting_is_that_of_the_standard_library() {
    for s in ["", ":", "a:b:c", "abc", "a:"] {
        let cs = chars(s);
        let found = split_once(&cs, ':').map(|(a, b)| (string_of(a), string_of(b)));
        let expected = s.split_once(':').map(|(a, b)| (a.to_string(), b.to_string()));
        assert_eq!(found, expected);
    }
    for s in ["", "  ", "a", " a  b ", "a\u{2003}b"] {
        let cs = chars(s);
        let mut rest = cs.as_slice();
        let mut words = Vec::new();
        while let Some((word, tail)) = split_word(rest) {
            words.push(string_of(word));
            rest = tail;
        }
        let expected: Vec<String> = s.split_whitespace().map(str::to_string).collect();
        assert_eq!(words, expected);
    }
}

#[test]
fn searching_lowering_and_joining_are_those_of_the_standard_library() {
    for (s, needle) in [("", ""), ("abc", ""), ("", "a"), ("aab", "ab"), ("abc", "bd"), ("a", "aa")] {
        assert_eq!(contains(&chars(s), &chars(needle)), s.contains(needle));
    }
    let s = "AZaz@[`{ÄK";
    assert_eq!(string_of(&to_ascii_lowercase(&chars(s))), s.to_ascii_lowercase());
    let parts = vec![chars("a"), chars(""), chars("b")];
    assert_eq!(string_of(&join(&parts, ", ")), "a, , b");
    assert_eq!(string_of(&join(&Vec::new(), ", ")), "");
}

#[test]
fn numbers_read_as_in_the_standard_library() {
    for s in ["", "+", "0", "+7", "007", "65535", "65536", "99999999999999999999", "-1", " 1", "1a", "٣"] {
        assert_eq!(parse_u16(&chars(s)), s.parse::<u16>().ok(), "{s}");
    }
}

#[test]
fn numbers_are_written_as_in_the_standard_library() {
    for n in [0u128, 9, 10, 17891, u64::MAX as u128, u128::MAX] {
        let mut out = Vec::new();
        push_decimal(&mut out, n);
        assert_eq!(string_of(&out), format!("{n}"));
    }
    for n in [0u32, 15, 16, 0x8007_0490, u32::MAX] {
        let mut out = Vec::new();
        push_hex(&mut out, n);
        assert_eq!(string_of(&out), format!("{n:x}"));
    }
    for b in [0u8, 9, 10, 0xa0, 0xff] {
        let mut out = Vec::new();
        push_hex_byte(&mut out, b);
        assert_eq!(string_of(&out), format!("{b:02x}"));
    }
}
