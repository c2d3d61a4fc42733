//! Text and collections keyed by text.

use limen::names::{NameCounts, NameSet};
use limen::text::{
    chars_of, contains, decimal_of, eq_ignore_case, find_first, find_last, has_prefix, head, join,
    split_lines, split_once, split_pieces, split_words, text_of, trim, trim_end_char,
};

fn back(v: &[char]) -> String {
    text_of(v)
}

#[test]
fn characters_and_text_are_the_same() {
    let s = "aé你𝄞";
    assert_eq!(chars_of(s), s.chars().collect::<Vec<char>>());
    assert_eq!(back(&chars_of(s)), s);
}

#[test]
fn case_is_ignored_for_ascii_only() {
    assert!(eq_ignore_case(&chars_of("AbC"), &chars_of("aBc")));
    assert!(!eq_ignore_case(&chars_of("É"), &chars_of("é")));
    assert!(!eq_ignore_case(&chars_of("a"), &chars_of("ab")));
}

#[test]
fn searching_finds_first_and_last() {
    let s = chars_of("a{b}c}");
    assert_eq!(find_first(&s, '{'), 1);
    assert_eq!(find_first(&s, 'z'), 6);
    assert_eq!(find_last(&s, '}'), Some(5));
    assert_eq!(find_last(&s, 'z'), None);
    assert!(contains(&s, &chars_of("b}")));
    assert!(contains(&s, &[]));
    assert!(!contains(&s, &chars_of("bc")));
    assert!(has_prefix(&s, &chars_of("a{")));
    assert!(!has_prefix(&s, &chars_of("{")));
}

#[test]
fn trimming_and_splitting_agree_with_std() {
    for s in ["", " ", " a b\t c ", "\u{a0}x\u{2003}y\u{a0}", "one", "\n\n", "a\r\nb\rc\n\nd\r", "a\n"] {
        let v = chars_of(s);
        assert_eq!(back(trim(&v)), s.trim(), "{s:?}");
        let words: Vec<String> = split_words(&v).iter().map(|w| back(w)).collect();
        assert_eq!(words, s.split_whitespace().map(|w| w.to_string()).collect::<Vec<_>>(), "{s:?}");
        let lines: Vec<String> = split_lines(&v).iter().map(|w| back(w)).collect();
        assert_eq!(lines, s.lines().map(|w| w.to_string()).collect::<Vec<_>>(), "{s:?}");
        let pieces: Vec<String> = split_pieces(&v, '\n').iter().map(|w| back(w)).collect();
        assert_eq!(pieces, s.split('\n').map(|w| w.to_string()).collect::<Vec<_>>(), "{s:?}");
    }
}

#[test]
fn splitting_once_takes_the_first() {
    let v = chars_of("a:b:c");
    let (x, y) = split_once(&v, ':').expect("colon");
    assert_eq!((back(x), back(y)), ("a".to_string(), "b:c".to_string()));
    assert!(split_once(&chars_of("abc"), ':').is_none());
}

#[test]
fn joining_and_cutting() {
    assert_eq!(join(&vec!["a".to_string(), "b".to_string()], "; "), "a; b");
    assert_eq!(join(&Vec::new(), "; "), "");
    assert_eq!(join(&vec!["x".to_string()], "; "), "x");
    assert_eq!(head("你好吗", 2), "你好");
    assert_eq!(head("ab", 5), "ab");
    assert_eq!(trim_end_char("a//", '/'), "a");
    assert_eq!(trim_end_char("//", '/'), "");
}

#[test]
fn numbers_are_written_in_decimal() {
    for n in [0u64, 7, 10, 99, 100, 12345, u64::MAX] {
        assert_eq!(decimal_of(n), n.to_string());
    }
}

#[test]
fn names_are_a_set() {
    let mut s = NameSet::new();
    assert_eq!(s.len(), 0);
    s.insert("a");
    s.insert("b");
    s.insert("a");
    assert_eq!(s.len(), 2);
    assert!(s.contains("a"));
    s.remove("a");
    s.remove("x");
    assert!(!s.contains("a"));
    assert_eq!(s.len(), 1);
    s.clear();
    assert!(!s.contains("b"));
}

#[test]
fn names_have_numbers() {
    let mut c = NameCounts::new();
    assert_eq!(c.get("a"), None);
    c.set("a", 1);
    c.set("b", 2);
    c.set("a", 3);
    assert_eq!(c.get("a"), Some(3));
    assert_eq!(c.get("b"), Some(2));
    c.clear();
    assert_eq!(c.get("b"), None);
}
