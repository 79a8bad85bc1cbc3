use tsh::text::{
    chars_of, is_whitespace, split_once_string, string_of_range, trim_string, words_of,
};

#[test]
fn trim_removes_unicode_whitespace_at_both_ends() {
    assert_eq!(trim_string(" \t a b \u{3000}\n"), "a b");
    assert_eq!(trim_string("   "), "");
    assert_eq!(trim_string(""), "");
}

#[test]
fn trim_is_idempotent() {
    for s in ["  x  ", "\u{a0}y z\u{2009}", "", " \n "] {
        let once = trim_string(s);
        assert_eq!(trim_string(&once), once);
        assert_eq!(once, s.trim());
    }
}

#[test]
fn whitespace_matches_std() {
    for c in ['\t', '\n', ' ', '\u{85}', '\u{a0}', '\u{1680}', '\u{2000}', '\u{200a}', '\u{2028}', '\u{202f}', '\u{205f}', '\u{3000}', 'a', '\u{200b}', '\u{feff}', '_'] {
        assert_eq!(is_whitespace(c), c.is_whitespace(), "{:?}", c);
    }
}

#[test]
fn words_split_on_whitespace_runs() {
    assert_eq!(words_of("  a  b\tc "), vec!["a", "b", "c"]);
    assert_eq!(words_of(""), Vec::<String>::new());
    assert_eq!(words_of(" \t "), Vec::<String>::new());
}

#[test]
fn words_are_never_empty_nor_hold_whitespace() {
    for s in ["x  y", " -l   a\u{3000}b ", "one"] {
        let ws = words_of(s);
        let expected: Vec<&str> = s.split_whitespace().collect();
        assert_eq!(ws, expected);
        for w in ws {
            assert!(!w.is_empty());
            assert!(!w.chars().any(|c| c.is_whitespace()));
        }
    }
}

#[test]
fn split_once_at_first_occurrence() {
    assert_eq!(
        split_once_string("a b c", ' '),
        Some((String::from("a"), String::from("b c")))
    );
    assert_eq!(split_once_string("abc", ' '), None);
    assert_eq!(
        split_once_string(">x", '>'),
        Some((String::from(""), String::from("x")))
    );
}

#[test]
fn chars_and_ranges() {
    let v = chars_of("héllo");
    assert_eq!(v, vec!['h', 'é', 'l', 'l', 'o']);
    assert_eq!(string_of_range(&v, 1, 3), "él");
}

#[test]
fn split_once_agrees_with_std() {
    for s in ["", " ", "a b", "  a", "a  ", "ab", "é x y"] {
        let expected = s.split_once(' ').map(|(a, b)| (a.to_string(), b.to_string()));
        assert_eq!(split_once_string(s, ' '), expected, "{s:?}");
    }
}
