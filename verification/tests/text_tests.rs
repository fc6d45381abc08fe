use async_chat_server::text::{ends_with_newline, is_whitespace, same_text, starts_with, suffix_from, trim};

#[test]
fn trim_removes_ascii_whitespace_at_both_ends() {
    assert_eq!(trim("  hello world \r\n"), "hello world");
    assert_eq!(trim("\t\x0b\x0cx\x0c"), "x");
}

#[test]
fn trim_keeps_inner_whitespace() {
    assert_eq!(trim(" a  b "), "a  b");
}

#[test]
fn trim_of_blank_text_is_empty() {
    assert_eq!(trim(""), "");
    assert_eq!(trim(" \n\t "), "");
}

#[test]
fn trim_removes_unicode_whitespace() {
    assert_eq!(trim("\u{3000}\u{a0}héllo\u{2009}\u{85}"), "héllo");
    assert_eq!(trim("\u{2028}ü\u{202f}"), "ü");
}

#[test]
fn trim_agrees_with_std() {
    let samples = [
        "", " ", "abc", "  abc", "abc  ", "\u{200b}x\u{200b}", "\u{feff}x", "\u{180e}y",
        "\u{1680}z\u{205f}", "日本 語 ", "\n\n\nline\n", "\u{2000}\u{200a}",
    ];
    for s in samples.iter() {
        assert_eq!(trim(s), s.trim(), "on {:?}", s);
    }
}

#[test]
fn whitespace_agrees_with_std_on_all_chars() {
    for u in 0u32..0x11000 {
        if let Some(c) = char::from_u32(u) {
            assert_eq!(is_whitespace(c), c.is_whitespace(), "on U+{:04X}", u);
        }
    }
}

#[test]
fn trim_twice_is_trim_once() {
    let s = " \u{3000} spaced out \t";
    assert_eq!(trim(trim(s)), trim(s));
}

#[test]
fn starts_with_examples() {
    assert!(starts_with("Username bob\n", "Username "));
    assert!(!starts_with("username bob\n", "Username "));
    assert!(!starts_with("User", "Username "));
    assert!(starts_with("anything", ""));
    assert!(starts_with("éa", "é"));
}

#[test]
fn ends_with_newline_examples() {
    assert!(ends_with_newline("hi\n"));
    assert!(!ends_with_newline("hi"));
    assert!(!ends_with_newline(""));
    assert!(!ends_with_newline("hi\n "));
}

#[test]
fn suffix_counts_characters() {
    assert_eq!(suffix_from("ab日本", 2), "日本");
    assert_eq!(suffix_from("abc", 3), "");
}

#[test]
fn same_text_examples() {
    assert!(same_text("abc", "abc"));
    assert!(!same_text("abc", "abd"));
    assert!(!same_text("abc", "abc "));
}
