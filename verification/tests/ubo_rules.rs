use clipboard_replacer::ubo::{
    parse_rules_from_str, parse_ubo_line, process_query_string_ubo, should_filter_param,
    wildcard_to_regex, UboRule,
};

fn rule(line: &str) -> UboRule {
    parse_ubo_line(line).expect("line gives a rule")
}

#[test]
fn parse_skips_comments_blanks_and_exceptions() {
    assert!(parse_ubo_line("").is_none());
    assert!(parse_ubo_line("   ").is_none());
    assert!(parse_ubo_line("! comment $removeparam=x").is_none());
    assert!(parse_ubo_line("# comment $removeparam=x").is_none());
    assert!(parse_ubo_line("@@||example.com^$removeparam=x").is_none());
    assert!(parse_ubo_line("||example.com^$important").is_none());
}

#[test]
fn parse_plain_parameter() {
    let r = rule("  $removeparam=utm_source  ");
    assert_eq!(r.parameter, "utm_source");
    assert!(!r.is_regex);
    assert!(r.regex.is_none());
    assert!(r.is_global);
    assert!(r.domains.is_empty());
    assert!(r.excluded_domains.is_empty());
    assert!(r.url_pattern.is_none());
}

#[test]
fn parse_bare_removeparam_removes_everything() {
    let r = rule("||example.com^$removeparam");
    assert_eq!(r.parameter, "*");
    assert!(!r.is_global);
    assert_eq!(r.domains, vec!["example.com".to_string()]);
}

#[test]
fn parse_empty_parameter_gives_no_rule() {
    assert!(parse_ubo_line("$removeparam=").is_none());
    assert!(parse_ubo_line("$removeparam= ,domain=a.com").is_none());
}

#[test]
fn parse_regex_parameter() {
    let r = rule("$removeparam=/^utm_/");
    assert!(r.is_regex);
    assert_eq!(r.parameter, "/^utm_/");
    assert_eq!(r.regex.as_ref().unwrap().as_str(), "^utm_");
    // A regular expression the regex crate rejects makes the line give no rule.
    assert!(parse_ubo_line("$removeparam=/(/").is_none());
    // Too short to be a regular expression.
    assert!(!rule("$removeparam=//").is_regex);
}

#[test]
fn parse_domain_options() {
    let r = rule("$removeparam=s,domain=Twitter.com|x.com|~sub.x.com");
    assert_eq!(r.parameter, "s");
    assert!(!r.is_global);
    assert_eq!(r.domains, vec!["twitter.com".to_string(), "x.com".to_string()]);
    assert_eq!(r.excluded_domains, vec!["sub.x.com".to_string()]);
}

#[test]
fn parse_to_option_only_excluded_stays_global() {
    let r = rule("$removeparam=ref,to=~example.org");
    assert!(r.is_global);
    assert_eq!(r.excluded_domains, vec!["example.org".to_string()]);
    let r = rule("$removeparam=ref,to=example.org");
    assert!(!r.is_global);
    assert_eq!(r.domains, vec!["example.org".to_string()]);
}

#[test]
fn parse_anchor_domain() {
    let r = rule("||Shop.Example.com/^$removeparam=ref");
    assert!(!r.is_global);
    assert_eq!(r.domains, vec!["shop.example.com".to_string()]);
    assert!(r.url_pattern.is_none());
}

#[test]
fn parse_url_pattern() {
    let r = rule(".com/*/status/$removeparam=t,domain=twitter.com|x.com");
    assert_eq!(r.url_pattern.as_ref().unwrap().as_str(), r"\.com/.*/status/");
    let r = rule("*$removeparam=t");
    assert!(r.url_pattern.is_none());
}

#[test]
fn wildcard_patterns_become_regexes() {
    assert!(wildcard_to_regex("").is_none());
    assert!(wildcard_to_regex("*").is_none());
    assert_eq!(wildcard_to_regex("a.b*c^").unwrap().as_str(), r"a\.b.*c[/?:&=#]");
    assert_eq!(wildcard_to_regex("(x)|$?+").unwrap().as_str(), r"\(x\)\|\$\?\+");
    assert_eq!(wildcard_to_regex("[a]{1}\\").unwrap().as_str(), r"\[a\]\{1\}\\");
}

#[test]
fn parse_rules_skips_lines_without_rules() {
    let rules = parse_rules_from_str("! list\r\n$removeparam=a\r\n\r\nnothing here\n$removeparam=b");
    assert_eq!(rules.len(), 2);
    assert_eq!(rules[0].parameter, "a");
    assert_eq!(rules[1].parameter, "b");
    assert!(parse_rules_from_str("").is_empty());
}

#[test]
fn filter_decision_follows_domains_and_exclusions() {
    let rules = vec![
        rule("$removeparam=s,domain=x.com|~api.x.com"),
        rule("$removeparam=/^utm_/"),
        rule("||youtube.com^$removeparam=si"),
    ];
    assert!(should_filter_param("x.com", "https://x.com/a?s=1", "s", &rules));
    assert!(should_filter_param("m.x.com", "https://m.x.com/a?s=1", "s", &rules));
    assert!(!should_filter_param("api.x.com", "https://api.x.com/a?s=1", "s", &rules));
    assert!(!should_filter_param("y.com", "https://y.com/a?s=1", "s", &rules));
    assert!(should_filter_param("any.org", "any.org/?utm_x=1", "utm_medium", &rules));
    assert!(!should_filter_param("any.org", "any.org/?xutm=1", "xutm", &rules));
    assert!(should_filter_param("music.youtube.com", "u", "si", &rules));
    assert!(!should_filter_param("youtu.be", "u", "si", &rules));
}

#[test]
fn filter_decision_respects_url_pattern() {
    let rules = vec![rule(".com/*/status/$removeparam=t")];
    assert!(should_filter_param("x.com", "x.com/u/status/1?t=2", "t", &rules));
    assert!(!should_filter_param("x.com", "x.com/u?t=2", "t", &rules));
}

#[test]
fn query_rebuilt_from_kept_pairs() {
    let rules = vec![rule("$removeparam=si")];
    assert_eq!(process_query_string_ubo("a.com", "u", "v=1&si=2&t=3", &rules), "?v=1&t=3");
    assert_eq!(process_query_string_ubo("a.com", "u", "si=2", &rules), "");
    assert_eq!(process_query_string_ubo("a.com", "u", "a=&&b", &rules), "?a&b");
    assert_eq!(process_query_string_ubo("a.com", "u", "x=1=2", &rules), "?x=1=2");
    assert_eq!(process_query_string_ubo("a.com", "u", "", &rules), "");
}

fn same_rule(a: &UboRule, b: &UboRule) -> bool {
    a.parameter == b.parameter
        && a.is_regex == b.is_regex
        && a.regex.as_ref().map(|r| r.as_str().to_string())
            == b.regex.as_ref().map(|r| r.as_str().to_string())
        && a.domains == b.domains
        && a.excluded_domains == b.excluded_domains
        && a.is_global == b.is_global
        && a.url_pattern.as_ref().map(|r| r.as_str().to_string())
            == b.url_pattern.as_ref().map(|r| r.as_str().to_string())
}

#[test]
fn joined_lists_give_the_rules_of_each_in_order() {
    let first = "$removeparam=a\r\n||example.com^$removeparam=/^utm_/,domain=Shop.COM\r";
    let second = "! note\n$removeparam=b,to=~skip.org\n";
    let joined = format!("{}\n{}", first, second);
    let whole = parse_rules_from_str(&joined);
    let mut parts = parse_rules_from_str(first);
    parts.extend(parse_rules_from_str(second));
    assert_eq!(whole.len(), 3);
    assert_eq!(whole.len(), parts.len());
    for (x, y) in whole.iter().zip(parts.iter()) {
        assert!(same_rule(x, y));
    }
}

#[test]
fn parsed_rules_have_the_stated_shape() {
    let lines = [
        "$removeparam=a",
        "$removeparam=/^utm_[a-z]+$/",
        "||example.com^$removeparam=ref,domain=A.com|~b.com",
        "$removeparam=x,to=~skip.org",
        "$removeparam",
    ];
    for line in lines.iter() {
        let r = rule(line);
        assert!(!r.parameter.is_empty());
        assert_eq!(r.is_regex, r.regex.is_some());
        if let Some(re) = &r.regex {
            assert!(r.parameter.len() > 2);
            assert_eq!(re.as_str(), &r.parameter[1..r.parameter.len() - 1]);
        }
        if !r.domains.is_empty() {
            assert!(!r.is_global);
        }
    }
}
