use matrix_channel::text::{
    chars_of, contains_text, decimal_of, find_char, replace_text, same_text, space,
    split_at_first, split_lines, split_words, string_of, trim, trim_end_of, trim_start_of,
};

fn chars(s: &str) -> Vec<char> {
    chars_of(s)
}

fn strings(rows: Vec<Vec<char>>) -> Vec<String> {
    rows.iter().map(|row| string_of(row)).collect()
}

#[test]
fn white_space_is_that_of_char() {
    for n in 0..=0x10ffff_u32 {
        if let Some(c) = char::from_u32(n) {
            assert_eq!(space(c), c.is_whitespace(), "U+{:04X}", n);
        }
    }
}

#[test]
fn characters_come_back_as_a_string() {
    for s in ["", "abc", "输出 🌐", "a\nb"] {
        assert_eq!(string_of(&chars(s)), s);
    }
}

#[test]
fn lines_are_those_of_str() {
    for s in [
        "", "\n", "a", "a\n", "a\nb", "a\r\nb\r\n", "\r", "a\r", "a\r\r\nb", "\n\n", "x\n\ny", "\r\n",
    ] {
        let expected: Vec<String> = s.lines().map(String::from).collect();
        assert_eq!(strings(split_lines(&chars(s))), expected, "{:?}", s);
    }
}

#[test]
fn words_are_those_of_str() {
    for s in ["", "  ", "a", " a b ", "a\tb\u{3000}c", "one  two   three "] {
        let expected: Vec<String> = s.split_whitespace().map(String::from).collect();
        assert_eq!(strings(split_words(&chars(s))), expected, "{:?}", s);
    }
}

#[test]
fn replacing_is_that_of_str() {
    for (s, from, to) in [
        ("aaa", "aa", "b"),
        ("&amp;amp;", "&amp;", "&"),
        ("", "x", "y"),
        ("xx", "x", ""),
        ("abc", "abcd", "z"),
        ("ababab", "ab", "abab"),
    ] {
        let got = replace_text(&chars(s), &chars(from), &chars(to));
        assert_eq!(string_of(&got), s.replace(from, to));
    }
}

#[test]
fn searching_is_that_of_str() {
    for (s, pat) in [("abc", "bc"), ("abc", ""), ("", ""), ("", "a"), ("abc", "cb"), ("aab", "ab")] {
        assert_eq!(contains_text(&chars(s), &chars(pat)), s.contains(pat));
    }
    assert_eq!(find_char(&chars("a/b/c"), '/'), Some(1));
    assert_eq!(find_char(&chars("abc"), '/'), None);
}

#[test]
fn trimming_is_that_of_str() {
    for s in ["", " ", " a ", "\u{3000}x\u{a0}", "a b", "\n\ta\r\n"] {
        assert_eq!(string_of(&trim(&chars(s))), s.trim());
    }
    assert_eq!(string_of(&trim_start_of(&chars("//a/"), '/')), "a/");
    assert_eq!(string_of(&trim_end_of(&chars("/a//"), '/')), "/a");
    assert_eq!(string_of(&trim_end_of(&chars("//"), '/')), "");
}

#[test]
fn splitting_stops_at_the_first() {
    let (head, rest) = split_at_first(&chars("a b c"), ' ');
    assert_eq!(string_of(&head), "a");
    assert_eq!(string_of(&rest.unwrap()), "b c");
    let (head, rest) = split_at_first(&chars("abc"), ' ');
    assert_eq!(string_of(&head), "abc");
    assert!(rest.is_none());
}

#[test]
fn numbers_are_written_in_decimal() {
    for n in [0u64, 9, 10, 42, 100, 30000, u64::MAX] {
        assert_eq!(decimal_of(n), n.to_string());
    }
}

#[test]
fn texts_are_compared_by_characters() {
    assert!(same_text("输出", "输出"));
    assert!(!same_text("a", "ab"));
    assert!(!same_text("ab", "ac"));
}
