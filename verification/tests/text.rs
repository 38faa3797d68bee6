//! Strings.
use chat_bridge::text::{decimal, holds_token, join, same_text, space};

#[test]
fn white_space_is_what_unicode_says() {
    for c in '\0'..=char::MAX {
        assert_eq!(space(c), c.is_whitespace(), "{:x}", c as u32);
    }
}

#[test]
fn numerals_are_decimal() {
    for n in 0..2000 {
        assert_eq!(decimal(n), n.to_string());
    }
    assert_eq!(decimal(u64::MAX), "18446744073709551615");
    assert_eq!(decimal(10_000_000_000), "10000000000");
}

#[test]
fn tokens_are_found_as_trimming_finds_them() {
    for text in [
        "[DONE]", " [DONE]", "[DONE]\n", "\u{2003}\t[DONE]\u{85}", "", " ", "[DONE", "DONE]",
        "[done]", "[DONE][DONE]", "[ DONE]", "\u{200b}[DONE]", "x[DONE]", "[DONE] x",
    ] {
        assert_eq!(holds_token(text, "[DONE]"), text.trim() == "[DONE]", "{text:?}");
    }
}

#[test]
fn parts_are_joined() {
    let owned = |parts: &[&str]| parts.iter().map(|part| part.to_string()).collect::<Vec<_>>();
    for parts in [&[][..], &[""], &["a"], &["a", "b"], &["", "", "c"], &["\u{e9}", "\n", "x"]] {
        assert_eq!(join(&owned(parts), ", "), parts.join(", "));
        assert_eq!(join(&owned(parts), ""), parts.concat());
    }
}

#[test]
fn texts_are_compared_whole() {
    assert!(same_text(&"stop".to_string(), "stop"));
    assert!(!same_text(&"stop".to_string(), "stops"));
    assert!(!same_text(&"stop".to_string(), "Stop"));
    assert!(same_text(&String::new(), ""));
}
