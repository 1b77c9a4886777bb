use clipboard_replacer::text::{strip_trailing_punctuation, truncate_str};
use clipboard_replacer::ubo::domain_matches;

#[test]
fn strip_punctuation_splits_off_the_run_at_the_end() {
    assert_eq!(strip_trailing_punctuation("abc.),"), ("abc", ".),"));
    assert_eq!(strip_trailing_punctuation("?s=20."), ("?s=20", "."));
    assert_eq!(strip_trailing_punctuation("plain"), ("plain", ""));
    assert_eq!(strip_trailing_punctuation(""), ("", ""));
    assert_eq!(strip_trailing_punctuation("...!?"), ("", "...!?"));
    assert_eq!(strip_trailing_punctuation("x\"'];:"), ("x", "\"'];:"));
}

#[test]
fn strip_punctuation_keeps_non_ascii_text() {
    assert_eq!(strip_trailing_punctuation("héllo wörld!"), ("héllo wörld", "!"));
    assert_eq!(strip_trailing_punctuation("日本."), ("日本", "."));
    assert_eq!(strip_trailing_punctuation("a.b"), ("a.b", ""));
}

#[test]
fn strip_punctuation_parts_rejoin() {
    let s = "see https://a.com/x?y=1).";
    let (head, tail) = strip_trailing_punctuation(s);
    assert_eq!(format!("{}{}", head, tail), s);
    assert_eq!(tail, ").");
}

#[test]
fn truncate_keeps_short_text_on_one_line() {
    assert_eq!(truncate_str("line one\nline two\r\n", 60), "line one line two ");
    assert_eq!(truncate_str("short", 60), "short");
    assert_eq!(truncate_str("", 3), "");
}

#[test]
fn truncate_cuts_long_text_with_ellipsis() {
    assert_eq!(truncate_str("abcdefghij", 8), "abcde...");
    assert_eq!(truncate_str("abcdefgh", 8), "abcdefgh");
    let long: String = std::iter::repeat('x').take(100).collect();
    let t = truncate_str(&long, 60);
    assert_eq!(t.chars().count(), 60);
    assert!(t.ends_with("..."));
}

#[test]
fn truncate_counts_characters_not_bytes() {
    assert_eq!(truncate_str("ééééé", 5), "ééééé");
    assert_eq!(truncate_str("éééééé", 5), "éé...");
}

#[test]
fn domain_matches_same_domain_and_subdomains() {
    assert!(domain_matches("x.com", "x.com"));
    assert!(domain_matches("mobile.x.com", "x.com"));
    assert!(domain_matches("MUSIC.YouTube.com", "youtube.com"));
    assert!(domain_matches("twitter.com", "TWITTER.COM"));
}

#[test]
fn domain_matches_rejects_other_domains() {
    assert!(!domain_matches("index.com", "x.com"));
    assert!(!domain_matches("x.com", "mobile.x.com"));
    assert!(!domain_matches("myx.com", "x.com"));
    assert!(!domain_matches("x.com.evil", "x.com"));
}

#[test]
fn whitespace_agrees_with_std_on_every_char() {
    for u in 0u32..=0x10FFFF {
        if let Some(c) = char::from_u32(u) {
            assert_eq!(clipboard_replacer::text::is_whitespace(c), c.is_whitespace(), "{:#x}", u);
        }
    }
}
