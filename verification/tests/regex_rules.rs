use clipboard_replacer::config::CompiledRule;
use clipboard_replacer::ubo::{filter_query_parameters, parse_rules_from_str};

#[test]
fn test_pixiv_regex() {
    let re = CompiledRule::compile(
        r"(?:\bhttps?://)?(?:\bwww\.)?\bpixiv\.net/([^/]+/)?artworks/(\d+)",
        "https://phixiv.net/${1}artworks/$2",
    )
    .unwrap();
    let text_with_proto = "https://www.pixiv.net/en/artworks/139578917";
    let text_no_proto = "pixiv.net/en/artworks/139578917";
    let text_no_lang = "pixiv.net/artworks/139578917";

    assert!(re.matches(text_with_proto));
    assert_eq!(re.apply(text_with_proto), "https://phixiv.net/en/artworks/139578917");

    assert!(re.matches(text_no_proto));
    assert_eq!(re.apply(text_no_proto), "https://phixiv.net/en/artworks/139578917");

    assert!(re.matches(text_no_lang));
    assert_eq!(re.apply(text_no_lang), "https://phixiv.net/artworks/139578917");

    // Should not match other subdomains or texts ending in pixiv.net
    assert_eq!(re.apply("mypixiv.net/artworks/123"), "mypixiv.net/artworks/123");
}

#[test]
fn test_x_and_twitter_regex() {
    let re_x = CompiledRule::compile(
        r"(?:\bhttps?://)?(?:\bwww\.)?\bx\.com/([a-zA-Z0-9_]{1,15}/status/\d+)",
        "https://fixupx.com/$1",
    )
    .unwrap();
    let re_tw = CompiledRule::compile(
        r"(?:\bhttps?://)?(?:\bwww\.)?\btwitter\.com/([a-zA-Z0-9_]{1,15}/status/\d+)",
        "https://fxtwitter.com/$1",
    )
    .unwrap();

    // Check x.com statuses with and without protocol
    assert_eq!(re_x.apply("x.com/mrsnanapple/status/123"), "https://fixupx.com/mrsnanapple/status/123");
    assert_eq!(re_x.apply("https://x.com/mrsnanapple/status/123"), "https://fixupx.com/mrsnanapple/status/123");
    assert_eq!(re_x.apply("http://www.x.com/mrsnanapple/status/123"), "https://fixupx.com/mrsnanapple/status/123");

    // Check twitter.com statuses with and without protocol
    assert_eq!(re_tw.apply("twitter.com/user/status/123"), "https://fxtwitter.com/user/status/123");
    assert_eq!(re_tw.apply("https://twitter.com/user/status/123"), "https://fxtwitter.com/user/status/123");

    // Check that profiles are NOT replaced
    assert_eq!(re_x.apply("https://x.com/arocro07"), "https://x.com/arocro07");
    assert_eq!(re_tw.apply("https://twitter.com/user"), "https://twitter.com/user");

    // Check that other domains ending in x.com are NOT replaced
    assert_eq!(re_x.apply("index.com/user/status/123"), "index.com/user/status/123");
}

#[test]
fn test_filter_query_parameters() {
    let test_rules_str = r#"
            $removeparam=utm_source
            $removeparam=utm_medium
            $removeparam=utm_campaign
            $removeparam=utm_term
            $removeparam=utm_content
            $removeparam=fbclid
            $removeparam=gclid
            $removeparam=si
            $removeparam=s,domain=twitter.com|x.com
            $removeparam=cxt,domain=twitter.com|x.com
            .com/*/status/$removeparam=t,domain=twitter.com|x.com
        "#;
    let query_filters = parse_rules_from_str(test_rules_str);

    // Twitter/X: strip all queries
    assert_eq!(
        filter_query_parameters("https://x.com/user/status/123?s=20&t=456", &query_filters),
        "https://x.com/user/status/123"
    );
    assert_eq!(
        filter_query_parameters("http://www.twitter.com/user/status/123?s=20#ref", &query_filters),
        "http://www.twitter.com/user/status/123#ref"
    );
    assert_eq!(
        filter_query_parameters("x.com/user/status/123?s=20&t=abc.", &query_filters),
        "x.com/user/status/123."
    );

    // YouTube: remove si
    assert_eq!(
        filter_query_parameters("https://youtube.com/watch?v=abc&si=def&t=10", &query_filters),
        "https://youtube.com/watch?v=abc&t=10"
    );
    assert_eq!(
        filter_query_parameters(
            "https://music.youtube.com/watch?v=abc&si=def&list=xyz&extra=123",
            &query_filters
        ),
        "https://music.youtube.com/watch?v=abc&list=xyz&extra=123"
    );
    assert_eq!(
        filter_query_parameters("youtu.be/abc?si=def&t=5", &query_filters),
        "youtu.be/abc?t=5"
    );
    assert_eq!(
        filter_query_parameters("youtu.be/abc?si=def", &query_filters),
        "youtu.be/abc"
    );

    // Complex text containing links
    let input_text = "Check this: https://youtube.com/watch?v=abc&si=def and also x.com/user/status/123?s=20.";
    let expected_text = "Check this: https://youtube.com/watch?v=abc and also x.com/user/status/123.";
    assert_eq!(filter_query_parameters(input_text, &query_filters), expected_text);
}

#[test]
fn documented_example_rule_rewrites_x_links() {
    let re = CompiledRule::compile(r"(?:\bhttps?://)?(?:\bwww\.)?\bx\.com\b", "https://fixupx.com").unwrap();
    assert_eq!(re.apply("https://x.com/abc/status/1"), "https://fixupx.com/abc/status/1");
    assert_eq!(re.apply("look: www.x.com/abc"), "look: https://fixupx.com/abc");
    assert_eq!(re.apply("https://xx.com/abc"), "https://xx.com/abc");
}

#[test]
fn filter_keeps_fragment_and_trailing_punctuation() {
    let rules = parse_rules_from_str("$removeparam=si\n$removeparam=s,domain=x.com");
    assert_eq!(
        filter_query_parameters("https://a.com/x?si=1&b=2#frag).", &rules),
        "https://a.com/x?b=2#frag)."
    );
    assert_eq!(filter_query_parameters("a.com/?.", &rules), "a.com/?.");
    assert_eq!(
        filter_query_parameters("HTTPS://X.COM/u/status/1?s=2", &rules),
        "HTTPS://X.COM/u/status/1"
    );
    assert_eq!(
        filter_query_parameters("no links, just words.", &rules),
        "no links, just words."
    );
    assert_eq!(
        filter_query_parameters("a.com/p and b.org/q#f", &rules),
        "a.com/p and b.org/q#f"
    );
}

#[test]
fn filter_without_rules_normalizes_only_empty_pairs() {
    assert_eq!(filter_query_parameters("a.com/x?a=1&b=2", &[]), "a.com/x?a=1&b=2");
    assert_eq!(filter_query_parameters("a.com/x?a=&&b", &[]), "a.com/x?a&b");
}
