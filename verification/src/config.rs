//! The replacement configuration: literal replacements and regular-expression rules,
//! the default configuration, compiling the rules, and when to reload.
use vstd::prelude::*;
use crate::matcher::{CompiledRegex, regex_accepts, regex_finds, regex_replaces};
use crate::text::push_str;

verus! {

/// A literal replacement: every occurrence of `pattern` becomes `to`.
pub struct SimpleReplacement {
    pub pattern: String,
    pub to: String,
}

/// A regular-expression rule: every match of `pattern` becomes `to`, where `$1`,
/// `${1}`, ... stand for capture groups.
pub struct Rule {
    pub pattern: String,
    pub to: String,
}

/// The configuration file's contents.
pub struct Config {
    pub replacement: Vec<SimpleReplacement>,
    pub rule: Vec<Rule>,
}

/// A rule whose pattern has been compiled.
pub struct CompiledRule {
    pub pattern: String,
    pub regex: CompiledRegex,
    pub to: String,
}

/// A rule whose pattern the regex crate rejected: its 0-based position in the
/// configuration, its pattern, and the crate's error.
pub struct RuleError {
    pub index: usize,
    pub pattern: String,
    pub cause: regex::Error,
}

/// A pattern and what it is replaced with.
pub open spec fn pair_view(pattern: Seq<char>, to: Seq<char>) -> (Seq<char>, Seq<char>) {
    (pattern, to)
}

/// The literal replacements as (pattern, replacement) pairs.
pub open spec fn replacement_views(v: Seq<SimpleReplacement>) -> Seq<(Seq<char>, Seq<char>)> {
    v.map_values(|r: SimpleReplacement| (r.pattern@, r.to@))
}

/// The rules as (pattern, replacement) pairs.
pub open spec fn rule_pair_views(v: Seq<Rule>) -> Seq<(Seq<char>, Seq<char>)> {
    v.map_values(|r: Rule| (r.pattern@, r.to@))
}

/// The compiled rules as (pattern, replacement) pairs, the pattern being the one the
/// expression was compiled from.
pub open spec fn compiled_views(v: Seq<CompiledRule>) -> Seq<(Seq<char>, Seq<char>)> {
    v.map_values(|r: CompiledRule| (r.regex.source(), r.to@))
}

/// The compiled rules hold their own patterns.
pub open spec fn compiled_well_formed(v: Seq<CompiledRule>) -> bool {
    forall|i: int| 0 <= i < v.len() ==> (#[trigger] v[i]).pattern@ == v[i].regex.source()
}

/// The rules whose patterns the regex crate accepts, in order.
pub open spec fn accepted_rules(rules: Seq<(Seq<char>, Seq<char>)>) -> Seq<(Seq<char>, Seq<char>)>
    decreases rules.len(),
{
    if rules.len() == 0 {
        Seq::<(Seq<char>, Seq<char>)>::empty()
    } else {
        let prev = accepted_rules(rules.drop_last());
        if regex_accepts(rules.last().0) {
            prev.push(rules.last())
        } else {
            prev
        }
    }
}

/// The positions of the rules whose patterns the regex crate rejects, in order.
pub open spec fn rejected_positions(rules: Seq<(Seq<char>, Seq<char>)>) -> Seq<int>
    decreases rules.len(),
{
    if rules.len() == 0 {
        Seq::<int>::empty()
    } else {
        let prev = rejected_positions(rules.drop_last());
        if regex_accepts(rules.last().0) {
            prev
        } else {
            prev.push(rules.len() - 1)
        }
    }
}

/// Every rule is either compiled or reported: the accepted and the rejected rules
/// together are as many as the rules.
pub proof fn lemma_every_rule_accounted(rules: Seq<(Seq<char>, Seq<char>)>)
    ensures
        accepted_rules(rules).len() + rejected_positions(rules).len() == rules.len(),
    decreases rules.len(),
{
    if rules.len() > 0 {
        lemma_every_rule_accounted(rules.drop_last());
    }
}

/// The positions of a list of rule errors.
pub open spec fn error_positions(v: Seq<RuleError>) -> Seq<int> {
    v.map_values(|e: RuleError| e.index as int)
}

/// The rules of the built-in configuration: x.com and twitter.com status links to
/// fixupx.com and fxtwitter.com, pixiv artworks to phixiv.net.
pub open spec fn default_rule_pairs() -> Seq<(Seq<char>, Seq<char>)> {
    seq![
        (r"(?:\bhttps?://)?(?:\bwww\.)?\bx\.com/([a-zA-Z0-9_]{1,15}/status/\d+)"@, "https://fixupx.com/$1"@),
        (r"(?:\bhttps?://)?(?:\bwww\.)?\btwitter\.com/([a-zA-Z0-9_]{1,15}/status/\d+)"@, "https://fxtwitter.com/$1"@),
        (r"(?:\bhttps?://)?(?:\bwww\.)?\bpixiv\.net/([^/]+/)?artworks/(\d+)"@, "https://phixiv.net/${1}artworks/$2"@),
    ]
}

impl Default for Config {
    /// The built-in configuration: no literal replacements, and the rules of
    /// `default_rule_pairs`.
    fn default() -> (c: Self)
        ensures
            c.replacement@.len() == 0,
            rule_pair_views(c.rule@) == default_rule_pairs(),
    {
        let mut rule: Vec<Rule> = Vec::new();
        rule.push(
            Rule {
                pattern: r"(?:\bhttps?://)?(?:\bwww\.)?\bx\.com/([a-zA-Z0-9_]{1,15}/status/\d+)".to_owned(),
                to: "https://fixupx.com/$1".to_owned(),
            },
        );
        rule.push(
            Rule {
                pattern: r"(?:\bhttps?://)?(?:\bwww\.)?\btwitter\.com/([a-zA-Z0-9_]{1,15}/status/\d+)".to_owned(),
                to: "https://fxtwitter.com/$1".to_owned(),
            },
        );
        rule.push(
            Rule {
                pattern: r"(?:\bhttps?://)?(?:\bwww\.)?\bpixiv\.net/([^/]+/)?artworks/(\d+)".to_owned(),
                to: "https://phixiv.net/${1}artworks/$2".to_owned(),
            },
        );
        let c = Config { replacement: Vec::new(), rule };
        assert(rule_pair_views(c.rule@) =~= default_rule_pairs());
        c
    }
}

/// The text of a newly created configuration file: a commented-out example of a
/// literal replacement, a blank line, then the serialized default configuration.
pub open spec fn default_config_file_text(serialized: Seq<char>) -> Seq<char> {
    "# [[replacement]]\n# pattern = 'http://x.com'\n# to = 'https://fixupx.com'\n\n"@ + serialized
}

/// The text of a newly created configuration file, given the serialized defaults.
pub fn default_config_file(serialized: &str) -> (r: String)
    ensures
        r@ == default_config_file_text(serialized@),
{
    let mut out = "# [[replacement]]\n# pattern = 'http://x.com'\n# to = 'https://fixupx.com'\n\n".to_owned();
    push_str(&mut out, serialized);
    out
}

impl CompiledRule {
    /// Compiles one rule; an error exactly when the regex crate rejects the pattern.
    pub fn compile(pattern: &str, to: &str) -> (r: Result<CompiledRule, regex::Error>)
        ensures
            r is Ok <==> regex_accepts(pattern@),
            r matches Ok(c) ==> c.pattern@ == pattern@ && c.regex.source() == pattern@ && c.to@
                == to@,
    {
        match CompiledRegex::new(pattern) {
            Ok(re) => Ok(CompiledRule { pattern: pattern.to_owned(), regex: re, to: to.to_owned() }),
            Err(e) => Err(e),
        }
    }

    /// Whether the rule's expression matches anywhere in the text.
    pub fn matches(&self, text: &str) -> (b: bool)
        ensures
            b == regex_finds(self.regex.source(), text@),
    {
        self.regex.is_match(text)
    }

    /// The text with every match of the rule's expression replaced; a text without a
    /// match comes back unchanged.
    pub fn apply(&self, text: &str) -> (r: String)
        ensures
            r@ == regex_replaces(self.regex.source(), text@, self.to@),
            !regex_finds(self.regex.source(), text@) ==> r@ == text@,
    {
        self.regex.replace_all(text, self.to.as_str())
    }
}

/// Compiles the rules: those the regex crate accepts become compiled rules, in order;
/// each rejected one becomes an error with its position.
pub fn compile_rules(rules: &Vec<Rule>) -> (r: (Vec<CompiledRule>, Vec<RuleError>))
    ensures
        compiled_views(r.0@) == accepted_rules(rule_pair_views(rules@)),
        compiled_well_formed(r.0@),
        error_positions(r.1@) == rejected_positions(rule_pair_views(rules@)),
        forall|k: int|
            0 <= k < r.1@.len() ==> (#[trigger] r.1@[k]).index < rules@.len() && r.1@[k].pattern@
                == rules@[r.1@[k].index as int].pattern@,
{
    let mut compiled: Vec<CompiledRule> = Vec::new();
    let mut errors: Vec<RuleError> = Vec::new();
    let ghost all = rule_pair_views(rules@);
    let n = rules.len();
    for i in 0..n
        invariant
            n == rules@.len(),
            all == rule_pair_views(rules@),
            compiled_views(compiled@) == accepted_rules(all.take(i as int)),
            compiled_well_formed(compiled@),
            error_positions(errors@) == rejected_positions(all.take(i as int)),
            forall|k: int|
                0 <= k < errors@.len() ==> (#[trigger] errors@[k]).index < i && errors@[k].pattern@
                    == rules@[errors@[k].index as int].pattern@,
    {
        let r = &rules[i];
        assert(all.take(i + 1).drop_last() =~= all.take(i as int));
        assert(all.take(i + 1).last() == all[i as int]);
        assert(all[i as int] == (r.pattern@, r.to@));
        match CompiledRule::compile(r.pattern.as_str(), r.to.as_str()) {
            Ok(rule) => {
                let ghost prev = compiled@;
                compiled.push(rule);
                assert(compiled_views(compiled@) =~= compiled_views(prev).push(all[i as int]));
            },
            Err(e) => {
                let ghost prev = errors@;
                errors.push(RuleError { index: i, pattern: r.pattern.clone(), cause: e });
                assert(error_positions(errors@) =~= error_positions(prev).push(i as int));
            },
        }
    }
    assert(all.take(n as int) =~= all);
    (compiled, errors)
}

/// Whether the configuration file must be read again: when either modification time is
/// unknown, or the file changed after the last successful load.
pub open spec fn needs_reload_spec(last: Option<u128>, current: Option<u128>) -> bool {
    match (last, current) {
        (Some(l), Some(c)) => c > l,
        _ => true,
    }
}

/// Where the configuration file is looked for.
#[derive(PartialEq, Eq, Structural, Clone, Copy, Debug)]
pub enum ConfigLocation {
    /// `config.toml` in the working directory.
    WorkingDir,
    /// `config.toml` next to the executable.
    ExeDir,
}

/// The configuration file is the one in the working directory, unless that does not
/// exist and there is one next to the executable.
pub fn choose_config_location(cwd_config_exists: bool, exe_config_exists: Option<bool>) -> (r: ConfigLocation)
    ensures
        r == (if !cwd_config_exists && exe_config_exists == Some(true) {
            ConfigLocation::ExeDir
        } else {
            ConfigLocation::WorkingDir
        }),
{
    if !cwd_config_exists {
        match exe_config_exists {
            Some(true) => {
                return ConfigLocation::ExeDir;
            },
            _ => {},
        }
    }
    ConfigLocation::WorkingDir
}

/// The loaded replacements and compiled rules, with the modification time of the
/// configuration file they came from (nanoseconds since the Unix epoch).
pub struct ConfigManager {
    pub last_modified: Option<u128>,
    pub replacements: Vec<SimpleReplacement>,
    pub rules: Vec<CompiledRule>,
}

impl ConfigManager {
    /// Nothing loaded yet.
    pub fn new() -> (m: Self)
        ensures
            m.last_modified is None,
            m.replacements@.len() == 0,
            m.rules@.len() == 0,
    {
        ConfigManager { last_modified: None, replacements: Vec::new(), rules: Vec::new() }
    }

    /// Whether the configuration file must be read again, given its modification time now.
    pub fn needs_reload(&self, current_modified: Option<u128>) -> (r: bool)
        ensures
            r == needs_reload_spec(self.last_modified, current_modified),
    {
        match (self.last_modified, current_modified) {
            (Some(last), Some(current)) => current > last,
            _ => true,
        }
    }

    /// Takes a freshly parsed configuration: its literal replacements, its rules that
    /// compile, and the modification time it was read at. Returns the rules that did not
    /// compile.
    pub fn install(&mut self, raw: Config, current_modified: Option<u128>) -> (errors: Vec<RuleError>)
        ensures
            final(self).last_modified == current_modified,
            replacement_views(final(self).replacements@) == replacement_views(raw.replacement@),
            compiled_views(final(self).rules@) == accepted_rules(rule_pair_views(raw.rule@)),
            compiled_well_formed(final(self).rules@),
            error_positions(errors@) == rejected_positions(rule_pair_views(raw.rule@)),
            forall|k: int|
                0 <= k < errors@.len() ==> (#[trigger] errors@[k]).index < raw.rule@.len()
                    && errors@[k].pattern@ == raw.rule@[errors@[k].index as int].pattern@,
    {
        let (compiled, errors) = compile_rules(&raw.rule);
        self.replacements = raw.replacement;
        self.rules = compiled;
        self.last_modified = current_modified;
        errors
    }
}

/// Once a configuration has been installed, the same file is not reloaded until its
/// modification time moves past the one it was read at.
pub proof fn lemma_no_reload_until_modified(installed_at: u128, current: u128)
    ensures
        needs_reload_spec(Some(installed_at), Some(current)) <==> current > installed_at,
        needs_reload_spec(None, Some(current)),
        needs_reload_spec(Some(installed_at), None),
{
}

} // verus!
