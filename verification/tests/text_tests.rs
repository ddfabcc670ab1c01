use perlink::text::{contains_text, flip_browser_name, same_text, split_words, starts_with_text, truncate_chars};

#[test]
fn flipping_names() {
    assert_eq!(flip_browser_name("The firefox beta"), "beta firefox The");
    assert_eq!(flip_browser_name("Firefox"), "Firefox");
    assert_eq!(flip_browser_name("  Vivaldi \t Stable\n"), "Stable Vivaldi");
    assert_eq!(flip_browser_name(""), "");
    assert_eq!(flip_browser_name(" \t "), " \t ");
    assert_eq!(flip_browser_name("a\u{3000}b"), "b a");
}

#[test]
fn flipping_twice_normalises() {
    for name in ["The firefox beta", "  Vivaldi \t Stable\n", "one", "a b c d"] {
        let twice = flip_browser_name(&flip_browser_name(name));
        assert_eq!(twice, name.split_whitespace().collect::<Vec<_>>().join(" "));
    }
    assert_eq!(flip_browser_name(&flip_browser_name("Firefox Private")), "Firefox Private");
}

#[test]
fn splitting_words_like_std() {
    for s in ["", " ", "a", " a  b\tc\r\n", "x\u{a0}y\u{2009}z", "Internet Explorer"] {
        let expected: Vec<String> = s.split_whitespace().map(|w| w.to_string()).collect();
        assert_eq!(split_words(s), expected);
    }
}

#[test]
fn truncating() {
    assert_eq!(truncate_chars("abcdef", 3), "abc");
    assert_eq!(truncate_chars("ab", 3), "ab");
    assert_eq!(truncate_chars("ééééé", 2), "éé");
    assert_eq!(truncate_chars("", 0), "");
}

#[test]
fn searching_text() {
    assert!(contains_text("http://x", "//"));
    assert!(!contains_text("firefox", "//"));
    assert!(contains_text("abc", ""));
    assert!(!contains_text("ab", "abc"));
    assert!(starts_with_text("https://a", "https://"));
    assert!(!starts_with_text("http:/", "http://"));
    assert!(same_text("svw", "svw"));
    assert!(!same_text("svw", "svc"));
}
