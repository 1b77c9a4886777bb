use clipboard_replacer::config::{
    choose_config_location, compile_rules, default_config_file, CompiledRule, Config, ConfigLocation,
    ConfigManager, Rule, SimpleReplacement,
};
use clipboard_replacer::pipeline::transform_text;
use clipboard_replacer::ubo::parse_rules_from_str;

fn rule(pattern: &str, to: &str) -> Rule {
    Rule { pattern: pattern.to_string(), to: to.to_string() }
}

#[test]
fn default_config_has_three_link_rules() {
    let c = Config::default();
    assert!(c.replacement.is_empty());
    assert_eq!(c.rule.len(), 3);
    assert_eq!(c.rule[0].to, "https://fixupx.com/$1");
    assert_eq!(c.rule[1].to, "https://fxtwitter.com/$1");
    assert_eq!(c.rule[2].to, "https://phixiv.net/${1}artworks/$2");
    let (compiled, errors) = compile_rules(&c.rule);
    assert_eq!(compiled.len(), 3);
    assert!(errors.is_empty());
}

#[test]
fn default_config_file_starts_with_commented_example() {
    let text = default_config_file("[[rule]]\n");
    assert_eq!(
        text,
        "# [[replacement]]\n# pattern = 'http://x.com'\n# to = 'https://fixupx.com'\n\n[[rule]]\n"
    );
}

#[test]
fn invalid_rules_are_reported_by_position() {
    let rules = vec![rule("a(", "x"), rule("b+", "y"), rule("[", "z")];
    let (compiled, errors) = compile_rules(&rules);
    assert_eq!(compiled.len(), 1);
    assert_eq!(compiled[0].pattern, "b+");
    assert_eq!(errors.len(), 2);
    assert_eq!(errors[0].index, 0);
    assert_eq!(errors[0].pattern, "a(");
    assert_eq!(errors[1].index, 2);
    assert!(CompiledRule::compile("(", "x").is_err());
}

#[test]
fn reload_only_when_modified_later() {
    let mut m = ConfigManager::new();
    assert!(m.needs_reload(Some(10)));
    assert!(m.needs_reload(None));
    let cfg = Config {
        replacement: vec![SimpleReplacement { pattern: "a".to_string(), to: "b".to_string() }],
        rule: vec![rule("x+", "y"), rule("(", "z")],
    };
    let errors = m.install(cfg, Some(10));
    assert_eq!(errors.len(), 1);
    assert_eq!(errors[0].index, 1);
    assert_eq!(m.replacements.len(), 1);
    assert_eq!(m.rules.len(), 1);
    assert!(!m.needs_reload(Some(10)));
    assert!(!m.needs_reload(Some(9)));
    assert!(m.needs_reload(Some(11)));
    assert!(m.needs_reload(None));
}

#[test]
fn config_location_prefers_working_directory() {
    assert_eq!(choose_config_location(true, Some(true)), ConfigLocation::WorkingDir);
    assert_eq!(choose_config_location(false, Some(true)), ConfigLocation::ExeDir);
    assert_eq!(choose_config_location(false, Some(false)), ConfigLocation::WorkingDir);
    assert_eq!(choose_config_location(false, None), ConfigLocation::WorkingDir);
}

#[test]
fn transform_applies_all_stages_in_order() {
    let ubo = parse_rules_from_str("$removeparam=si");
    let reps = vec![SimpleReplacement { pattern: "http://x.com".to_string(), to: "https://x.com".to_string() }];
    let (rules, _) = compile_rules(&Config::default().rule);
    let (text, changed) = transform_text("see http://x.com/user/status/5?si=1 now", &ubo, &reps, &rules);
    assert!(changed);
    assert_eq!(text, "see https://fixupx.com/user/status/5 now");
}

#[test]
fn transform_reports_no_change_for_plain_text() {
    let ubo = parse_rules_from_str("$removeparam=si");
    let (rules, _) = compile_rules(&Config::default().rule);
    let (text, changed) = transform_text("nothing to see here", &ubo, &[], &rules);
    assert!(!changed);
    assert_eq!(text, "nothing to see here");
}

#[test]
fn transform_literal_replacement_like_str_replace() {
    let reps = vec![
        SimpleReplacement { pattern: "aa".to_string(), to: "b".to_string() },
        SimpleReplacement { pattern: "".to_string(), to: "-".to_string() },
    ];
    let (text, changed) = transform_text("aaa", &[], &reps, &[]);
    assert!(changed);
    assert_eq!(text, "aaa".replace("aa", "b").replace("", "-"));
    assert_eq!(text, "-b-a-");
}

#[test]
fn transform_found_pattern_counts_as_change_even_if_same_text() {
    let reps = vec![SimpleReplacement { pattern: "abc".to_string(), to: "abc".to_string() }];
    let (text, changed) = transform_text("xabcx", &[], &reps, &[]);
    assert!(changed);
    assert_eq!(text, "xabcx");
}

#[test]
fn transform_rule_without_effect_is_no_change() {
    let rules = vec![CompiledRule::compile("b", "b").unwrap()];
    let (text, changed) = transform_text("abc", &[], &[], &rules);
    assert!(!changed);
    assert_eq!(text, "abc");
}
