use khawrizm::text::{concat_text, contains_chars, find_chars, join, starts_with_chars, string_from, chars_of, trim};

#[test]
fn text_helpers() {
    assert_eq!(join(&vec!["a".to_string(), "b".to_string(), "c".to_string()], ", "), "a, b, c");
    assert_eq!(join(&vec![], ", "), "");
    assert_eq!(concat_text("ab", "cd"), "abcd");
    let s = chars_of("hello world");
    assert_eq!(find_chars(&s, &chars_of("o")), Some(4));
    assert_eq!(find_chars(&s, &chars_of("xyz")), None);
    assert!(contains_chars(&s, &chars_of("lo w")));
    assert!(starts_with_chars(&s, &chars_of("he")));
    assert!(!starts_with_chars(&s, &chars_of("lo")));
    assert_eq!(string_from(&['h', 'é']), "hé");
}

#[test]
fn trim_matches_std() {
    for t in ["", "  ", " a b ", "\u{3000}x\u{2029}", "\u{85}y\u{A0}", "\u{180E}z", "x\t\n\r"] {
        assert_eq!(trim(t), t.trim());
    }
}
