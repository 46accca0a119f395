//! Text and numerals.
use web_static::number::{decimal_text, parse_number, parse_text};
use web_static::text::{
    comes_before, concat_texts, find_char, find_text, has_char, has_prefix, has_suffix, has_text,
    is_space_char, join_texts, line_list, replaced, rfind_text, same, same_text, split_text,
    to_chars, to_text, trimmed, without_prefixes,
};

fn chars(s: &str) -> Vec<char> {
    to_chars(s)
}

fn replace(s: &str, p: &str, r: &str) -> String {
    to_text(&replaced(&chars(s), &chars(p), &chars(r)))
}

fn parts(list: Vec<Vec<char>>) -> Vec<String> {
    list.iter().map(|part| to_text(part)).collect()
}

#[test]
fn characters_make_the_string_again() {
    for s in ["", "abc", "中文 \u{1f600}\n"] {
        assert_eq!(to_text(&chars(s)), s);
        assert_eq!(chars(s), s.chars().collect::<Vec<char>>());
    }
}

#[test]
fn white_space_is_that_of_unicode() {
    for n in 0..=0x10ffffu32 {
        if let Some(c) = char::from_u32(n) {
            assert_eq!(is_space_char(c), c.is_whitespace());
        }
    }
}

#[test]
fn trimming_takes_both_ends() {
    for s in ["", "  ", " a b ", "\u{3000}中\t", "x"] {
        assert_eq!(to_text(trimmed(&chars(s))), s.trim());
    }
}

#[test]
fn finding_gives_the_first_and_the_last_place() {
    let s = chars("ab中ab");
    assert_eq!(find_text(&s, &chars("ab")), Some(0));
    assert_eq!(rfind_text(&s, &chars("ab")), Some(3));
    assert_eq!(find_text(&s, &chars("")), Some(0));
    assert_eq!(rfind_text(&s, &chars("")), Some(5));
    assert_eq!(find_text(&s, &chars("ba")), None);
    assert_eq!(rfind_text(&s, &chars("abc")), None);
    assert_eq!(find_char(&s, 'b'), 1);
    assert_eq!(find_char(&s, 'x'), 5);
    assert!(has_text(&s, &chars("中")));
    assert!(!has_text(&s, &chars("x")));
    assert!(has_char(&s, '中'));
    assert!(!has_char(&s, 'x'));
}

#[test]
fn prefixes_and_suffixes() {
    let s = chars("abab");
    assert!(has_prefix(&s, &chars("aba")));
    assert!(!has_prefix(&s, &chars("b")));
    assert!(has_suffix(&s, &chars("bab")));
    assert!(!has_suffix(&s, &chars("ba")));
    assert!(!has_suffix(&s, &chars("xabab")));
    assert_eq!(to_text(without_prefixes(&chars("ababac"), &chars("ab"))), "ac");
    assert_eq!(to_text(without_prefixes(&chars("abc"), &chars(""))), "abc");
    assert!(same(&s, &chars("abab")));
    assert!(!same(&s, &chars("aba")));
    assert!(same_text("中", "中"));
    assert!(!same_text("中", "文"));
}

#[test]
fn splitting_keeps_empty_parts() {
    for s in ["", "/", "a/b", "/a//b/"] {
        let expected: Vec<String> = s.split('/').map(|part| part.to_owned()).collect();
        assert_eq!(parts(split_text(&chars(s), '/')), expected);
    }
}

#[test]
fn lines_end_with_line_feeds() {
    for s in ["", "a", "a\n", "a\r\nb", "a\r", "\n\n", "a\r\r\nb\n"] {
        let expected: Vec<String> = s.lines().map(|line| line.to_owned()).collect();
        assert_eq!(parts(line_list(&chars(s))), expected);
    }
}

#[test]
fn replacing_goes_from_the_left() {
    assert_eq!(replace("aaa", "aa", "b"), "ba");
    assert_eq!(replace("abcabc", "bc", ""), "aa");
    assert_eq!(replace("abc", "x", "y"), "abc");
    assert_eq!(replace("__A__B", "__A__", "__A__"), "__A__B");
}

#[test]
fn texts_are_put_together() {
    let list = vec!["a".to_owned(), "".to_owned(), "中".to_owned()];
    assert_eq!(concat_texts(&list), "a中");
    assert_eq!(join_texts(&list, ", "), "a, , 中");
    assert_eq!(join_texts(&[], ", "), "");
}

#[test]
fn order_is_that_of_strings() {
    let list = ["", "a", "ab", "b", "2026-09-12", "2026-09-13", "中", "\u{1f600}"];
    for a in list {
        for b in list {
            assert_eq!(comes_before(&chars(a), &chars(b)), a < b);
        }
    }
}

#[test]
fn numerals_are_read_and_written() {
    for n in [0u64, 7, 10, 99, 100, 18446744073709551615] {
        assert_eq!(decimal_text(n), n.to_string());
        assert_eq!(parse_text(&n.to_string(), u64::MAX), Some(n));
    }
    assert_eq!(parse_text("+007", 10), Some(7));
    assert_eq!(parse_text("11", 10), None);
    assert_eq!(parse_text("18446744073709551616", u64::MAX), None);
    assert_eq!(parse_text("99999999999999999999999", u64::MAX), None);
    assert_eq!(parse_text("", 10), None);
    assert_eq!(parse_text("+", 10), None);
    assert_eq!(parse_text("-1", 10), None);
    assert_eq!(parse_text("1 ", 10), None);
    assert_eq!(parse_number(&['4', '2'], 42), Some(42));
}
