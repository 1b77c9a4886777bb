//! uBlock Origin `removeparam` rules: parsing filter-list lines into rules, deciding
//! which query parameters a rule removes, and stripping them from the links in a text.
use vstd::prelude::*;
use crate::matcher::{
    Capture, CaptureView, CompiledRegex, captures_view, covered_text, group_or_empty, regex_accepts,
    regex_captures, regex_finds,
};
use crate::text::{
    chars_eq, chars_of, concat, ends_with, ends_with_char, find, find_from, find_seq, occurs_at, contains_seq, has_prefix,
    has_suffix, char_is_whitespace, is_alphanumeric, char_is_alphanumeric, lemma_prefix_char, lemma_split_on_nonempty, lines, lines_of, strip_cr, trim_start, trim_end, lowercase, punct_tail_start, push_char, push_chars, push_str,
    slice_of, split, split_on, starts_with, starts_with_char, string_of, strip_trailing_punctuation, to_lowercase, trim,
    trim_chars, trim_end_char, trim_end_char_exec, views,
};

verus! {

// ----------------------------------------------------------------------------
// Rules and their views
// ----------------------------------------------------------------------------

/// One `removeparam` rule of a filter list.
pub struct UboRule {
    /// The parameter name, `*` for every parameter, or `/re/` for a regular expression.
    pub parameter: String,
    /// Whether `parameter` is a regular expression between slashes.
    pub is_regex: bool,
    /// The compiled regular expression of a `/re/` parameter.
    pub regex: Option<CompiledRegex>,
    /// Lowercased domains the rule is limited to.
    pub domains: Vec<String>,
    /// Lowercased domains the rule never applies to.
    pub excluded_domains: Vec<String>,
    /// Whether the rule applies on every domain.
    pub is_global: bool,
    /// The compiled URL pattern the rule is limited to.
    pub url_pattern: Option<CompiledRegex>,
}

/// A rule as plain values; compiled expressions are given by their patterns.
pub struct UboRuleView {
    pub parameter: Seq<char>,
    pub is_regex: bool,
    pub regex: Option<Seq<char>>,
    pub domains: Seq<Seq<char>>,
    pub excluded_domains: Seq<Seq<char>>,
    pub is_global: bool,
    pub url_pattern: Option<Seq<char>>,
}

/// The pattern of an optional compiled expression.
pub open spec fn regex_source(r: Option<CompiledRegex>) -> Option<Seq<char>> {
    match r {
        Some(c) => Some(c.source()),
        None => None,
    }
}

/// The views of a sequence of strings.
pub open spec fn string_views(v: Seq<String>) -> Seq<Seq<char>> {
    v.map_values(|s: String| s@)
}

impl View for UboRule {
    type V = UboRuleView;

    open spec fn view(&self) -> UboRuleView {
        UboRuleView {
            parameter: self.parameter@,
            is_regex: self.is_regex,
            regex: regex_source(self.regex),
            domains: string_views(self.domains@),
            excluded_domains: string_views(self.excluded_domains@),
            is_global: self.is_global,
            url_pattern: regex_source(self.url_pattern),
        }
    }
}

/// The views of a sequence of rules.
pub open spec fn rule_views(v: Seq<UboRule>) -> Seq<UboRuleView> {
    v.map_values(|r: UboRule| r@)
}

// ----------------------------------------------------------------------------
// Wildcard URL patterns
// ----------------------------------------------------------------------------

/// The regular-expression text for one character of a wildcard pattern.
pub open spec fn escape_wildcard_char(c: char) -> Seq<char> {
    if c == '*' {
        seq!['.', '*']
    } else if c == '?' {
        seq!['\\', '?']
    } else if c == '.' {
        seq!['\\', '.']
    } else if c == '+' {
        seq!['\\', '+']
    } else if c == '^' {
        seq!['[', '/', '?', ':', '&', '=', '#', ']']
    } else if c == '(' || c == ')' || c == '[' || c == ']' || c == '{' || c == '}' || c == '|'
        || c == '$' || c == '\\' {
        seq!['\\', c]
    } else {
        seq![c]
    }
}

/// The regular-expression text for a wildcard pattern.
pub open spec fn wildcard_regex_text(p: Seq<char>) -> Seq<char>
    decreases p.len(),
{
    if p.len() == 0 {
        Seq::<char>::empty()
    } else {
        wildcard_regex_text(p.drop_last()) + escape_wildcard_char(p.last())
    }
}

/// The pattern of the expression a wildcard pattern becomes: none for an empty pattern,
/// for `*`, or when the regex crate rejects the resulting expression.
pub open spec fn wildcard_source(p: Seq<char>) -> Option<Seq<char>> {
    if p.len() == 0 || p == seq!['*'] {
        None
    } else if regex_accepts(wildcard_regex_text(p)) {
        Some(wildcard_regex_text(p))
    } else {
        None
    }
}

/// Appends the regular-expression text for one wildcard character.
fn push_wildcard_char(out: &mut String, c: char)
    ensures
        final(out)@ == old(out)@ + escape_wildcard_char(c),
{
    let ghost start = out@;
    if c == '*' {
        push_char(out, '.');
        push_char(out, '*');
    } else if c == '?' {
        push_char(out, '\\');
        push_char(out, '?');
    } else if c == '.' {
        push_char(out, '\\');
        push_char(out, '.');
    } else if c == '+' {
        push_char(out, '\\');
        push_char(out, '+');
    } else if c == '^' {
        push_char(out, '[');
        push_char(out, '/');
        push_char(out, '?');
        push_char(out, ':');
        push_char(out, '&');
        push_char(out, '=');
        push_char(out, '#');
        push_char(out, ']');
    } else if c == '(' || c == ')' || c == '[' || c == ']' || c == '{' || c == '}' || c == '|'
        || c == '$' || c == '\\' {
        push_char(out, '\\');
        push_char(out, c);
    } else {
        push_char(out, c);
    }
    assert(out@ =~= start + escape_wildcard_char(c));
}

/// Turns a wildcard URL pattern (`*` any text, `^` a separator) into a compiled
/// regular expression; none for an empty pattern, for `*`, or when compiling fails.
pub fn wildcard_to_regex(pattern: &str) -> (r: Option<CompiledRegex>)
    ensures
        regex_source(r) == wildcard_source(pattern@),
{
    let cs = chars_of(pattern);
    if cs.len() == 0 || (cs.len() == 1 && cs[0] == '*') {
        proof {
            if cs@.len() == 1 && cs@[0] == '*' {
                assert(pattern@ =~= seq!['*']);
            }
        }
        return None;
    }
    proof {
        if pattern@ == seq!['*'] {
            assert(pattern@[0] == '*');
        }
    }
    let mut regex_str = String::new();
    let n = cs.len();
    for i in 0..n
        invariant
            n == cs@.len(),
            cs@ == pattern@,
            regex_str@ == wildcard_regex_text(cs@.take(i as int)),
    {
        push_wildcard_char(&mut regex_str, cs[i]);
        assert(cs@.take(i + 1).drop_last() =~= cs@.take(i as int));
    }
    assert(cs@.take(n as int) =~= cs@);
    match CompiledRegex::new(regex_str.as_str()) {
        Ok(re) => Some(re),
        Err(_) => None,
    }
}

// ----------------------------------------------------------------------------
// Domains
// ----------------------------------------------------------------------------

/// A URL's domain matches a configured domain when, compared in lowercase, it is that
/// domain or a subdomain of it.
pub open spec fn domain_matches_spec(url_domain: Seq<char>, config_domain: Seq<char>) -> bool {
    let u = lowercase(url_domain);
    let c = lowercase(config_domain);
    u == c || has_suffix(u, seq!['.'] + c)
}

/// Whether `url_domain` is `config_domain` or one of its subdomains, ignoring case.
pub fn domain_matches(url_domain: &str, config_domain: &str) -> (r: bool)
    ensures
        r == domain_matches_spec(url_domain@, config_domain@),
{
    let u = chars_of(to_lowercase(url_domain).as_str());
    let c = chars_of(to_lowercase(config_domain).as_str());
    if chars_eq(&u, &c) {
        return true;
    }
    let mut dotted: Vec<char> = Vec::new();
    dotted.push('.');
    let dotted = concat(&dotted, &c);
    assert(dotted@ =~= seq!['.'] + c@);
    ends_with(&u, &dotted)
}

/// Matching a domain against itself always succeeds.
pub proof fn lemma_domain_matches_itself(d: Seq<char>)
    ensures
        domain_matches_spec(d, d),
{
}

// ----------------------------------------------------------------------------
// Which parameters a rule removes
// ----------------------------------------------------------------------------

/// The rule's parameter selects `param`.
pub open spec fn param_selected(r: UboRuleView, param: Seq<char>) -> bool {
    if r.is_regex {
        match r.regex {
            Some(src) => regex_finds(src, param),
            None => false,
        }
    } else {
        r.parameter == seq!['*'] || r.parameter == param
    }
}

/// The rule's URL pattern, if any, matches the URL.
pub open spec fn url_selected(r: UboRuleView, full_url: Seq<char>) -> bool {
    match r.url_pattern {
        Some(src) => regex_finds(src, full_url),
        None => true,
    }
}

/// One of the rule's excluded domains matches the URL's domain.
pub open spec fn domain_excluded(r: UboRuleView, url_domain: Seq<char>) -> bool {
    exists|i: int|
        0 <= i < r.excluded_domains.len() && domain_matches_spec(
            url_domain,
            #[trigger] r.excluded_domains[i],
        )
}

/// The rule is global, or one of its domains matches the URL's domain.
pub open spec fn domain_targeted(r: UboRuleView, url_domain: Seq<char>) -> bool {
    r.is_global || exists|i: int|
        0 <= i < r.domains.len() && domain_matches_spec(url_domain, #[trigger] r.domains[i])
}

/// The rule removes `param` from a URL with the given domain.
pub open spec fn rule_removes(
    r: UboRuleView,
    url_domain: Seq<char>,
    full_url: Seq<char>,
    param: Seq<char>,
) -> bool {
    &&& param_selected(r, param)
    &&& url_selected(r, full_url)
    &&& !domain_excluded(r, url_domain)
    &&& domain_targeted(r, url_domain)
}

/// Some rule removes `param` from a URL with the given domain.
pub open spec fn removes_param(
    rules: Seq<UboRuleView>,
    url_domain: Seq<char>,
    full_url: Seq<char>,
    param: Seq<char>,
) -> bool {
    exists|i: int| 0 <= i < rules.len() && rule_removes(#[trigger] rules[i], url_domain, full_url, param)
}

/// Whether some domain in the list matches `url_domain`.
fn any_domain_matches(url_domain: &str, list: &Vec<String>) -> (r: bool)
    ensures
        r == exists|i: int|
            0 <= i < list@.len() && domain_matches_spec(url_domain@, #[trigger] list@[i]@),
{
    let n = list.len();
    for i in 0..n
        invariant
            n == list@.len(),
            forall|j: int| 0 <= j < i ==> !domain_matches_spec(url_domain@, #[trigger] list@[j]@),
    {
        if domain_matches(url_domain, list[i].as_str()) {
            return true;
        }
    }
    false
}

/// Whether one rule removes `param_name`.
fn rule_removes_exec(rule: &UboRule, url_domain: &str, full_url: &str, param_name: &str) -> (r: bool)
    ensures
        r == rule_removes(rule@, url_domain@, full_url@, param_name@),
{
    let param_matches = if rule.is_regex {
        match &rule.regex {
            Some(re) => re.is_match(param_name),
            None => false,
        }
    } else {
        let p = rule.parameter.as_str();
        let star = chars_of("*");
        proof {
            reveal_strlit("*");
        }
        assert(star@ =~= seq!['*']);
        let pc = chars_of(p);
        let nc = chars_of(param_name);
        chars_eq(&pc, &star) || chars_eq(&pc, &nc)
    };
    assert(param_matches == param_selected(rule@, param_name@));
    if !param_matches {
        return false;
    }
    match &rule.url_pattern {
        Some(url_re) => {
            if !url_re.is_match(full_url) {
                return false;
            }
        },
        None => {},
    }
    let excluded = any_domain_matches(url_domain, &rule.excluded_domains);
    proof {
        assert(excluded == domain_excluded(rule@, url_domain@)) by {
            if excluded {
                let i = choose|i: int|
                    0 <= i < rule.excluded_domains@.len() && domain_matches_spec(
                        url_domain@,
                        #[trigger] rule.excluded_domains@[i]@,
                    );
                assert(rule@.excluded_domains[i] == rule.excluded_domains@[i]@);
            }
            if domain_excluded(rule@, url_domain@) {
                let i = choose|i: int|
                    0 <= i < rule@.excluded_domains.len() && domain_matches_spec(
                        url_domain@,
                        #[trigger] rule@.excluded_domains[i],
                    );
                assert(rule@.excluded_domains[i] == rule.excluded_domains@[i]@);
            }
        }
    }
    if excluded {
        return false;
    }
    if rule.is_global {
        return true;
    }
    let targeted = any_domain_matches(url_domain, &rule.domains);
    proof {
        if targeted {
            let i = choose|i: int|
                0 <= i < rule.domains@.len() && domain_matches_spec(
                    url_domain@,
                    #[trigger] rule.domains@[i]@,
                );
            assert(rule@.domains[i] == rule.domains@[i]@);
        }
        if domain_targeted(rule@, url_domain@) {
            let i = choose|i: int|
                0 <= i < rule@.domains.len() && domain_matches_spec(
                    url_domain@,
                    #[trigger] rule@.domains[i],
                );
            assert(rule@.domains[i] == rule.domains@[i]@);
        }
    }
    targeted
}

/// Whether some rule removes the parameter `param_name` from the URL `full_url`,
/// whose domain is `url_domain`.
pub fn should_filter_param(
    url_domain: &str,
    full_url: &str,
    param_name: &str,
    rules: &[UboRule],
) -> (r: bool)
    ensures
        r == removes_param(rule_views(rules@), url_domain@, full_url@, param_name@),
{
    let n = rules.len();
    for i in 0..n
        invariant
            n == rules@.len(),
            forall|j: int|
                0 <= j < i ==> !rule_removes(
                    #[trigger] rule_views(rules@)[j],
                    url_domain@,
                    full_url@,
                    param_name@,
                ),
    {
        if rule_removes_exec(&rules[i], url_domain, full_url, param_name) {
            assert(rule_views(rules@)[i as int] == rules@[i as int]@);
            return true;
        }
        assert(rule_views(rules@)[i as int] == rules@[i as int]@);
    }
    false
}

// ----------------------------------------------------------------------------
// Parsing filter-list lines
// ----------------------------------------------------------------------------

/// The domains a rule is limited to and excluded from, as parsing builds them up.
pub struct DomainSets {
    pub domains: Seq<Seq<char>>,
    pub excluded: Seq<Seq<char>>,
    pub global: bool,
}

/// One entry of a `|`-separated domain list: `~d` excludes `d`, anything else limits
/// the rule to it (and, in a `to=` list, makes the rule non-global).
pub open spec fn add_domain_entry(st: DomainSets, piece: Seq<char>, from_to: bool) -> DomainSets {
    let d = trim(piece);
    if has_prefix(d, seq!['~']) {
        DomainSets { domains: st.domains, excluded: st.excluded.push(lowercase(d.drop_first())), global: st.global }
    } else {
        DomainSets {
            domains: st.domains.push(lowercase(d)),
            excluded: st.excluded,
            global: if from_to { false } else { st.global },
        }
    }
}

/// The entries of a domain list, in order.
pub open spec fn add_domain_list(st: DomainSets, pieces: Seq<Seq<char>>, from_to: bool) -> DomainSets
    decreases pieces.len(),
{
    if pieces.len() == 0 {
        st
    } else {
        add_domain_entry(add_domain_list(st, pieces.drop_last(), from_to), pieces.last(), from_to)
    }
}

/// One rule option: `domain=` limits the rule (and makes it non-global), `to=` limits
/// it by destination; other options change nothing.
pub open spec fn apply_modifier(st: DomainSets, m: Seq<char>) -> DomainSets {
    if has_prefix(m, "domain="@) {
        add_domain_list(
            DomainSets { domains: st.domains, excluded: st.excluded, global: false },
            split_on(m.skip("domain="@.len() as int), '|'),
            false,
        )
    } else if has_prefix(m, "to="@) {
        add_domain_list(st, split_on(m.skip("to="@.len() as int), '|'), true)
    } else {
        st
    }
}

/// The rule options, in order.
pub open spec fn apply_modifiers(st: DomainSets, mods: Seq<Seq<char>>) -> DomainSets
    decreases mods.len(),
{
    if mods.len() == 0 {
        st
    } else {
        apply_modifier(apply_modifiers(st, mods.drop_last()), mods.last())
    }
}

/// Each piece trimmed.
pub open spec fn trim_all(v: Seq<Seq<char>>) -> Seq<Seq<char>> {
    v.map_values(|x: Seq<char>| trim(x))
}

/// The text without one final `$` or `,`.
pub open spec fn drop_separator(s: Seq<char>) -> Seq<char> {
    if s.len() > 0 && (s.last() == '$' || s.last() == ',') {
        s.drop_last()
    } else {
        s
    }
}

/// The domain of a `||domain^` anchor.
pub open spec fn anchor_domain(left: Seq<char>) -> Seq<char> {
    let dp = left.skip("||"@.len() as int);
    let dp2 = if dp.len() > 0 && dp.last() == '^' { dp.drop_last() } else { dp };
    trim_end_char(trim_end_char(dp2, '/'), '^')
}

/// The domains given by the part before `removeparam`: a `||domain` anchor limits the
/// rule to that domain; otherwise the rule starts out global.
pub open spec fn initial_domains(left: Seq<char>) -> DomainSets {
    if has_prefix(left, "||"@) {
        DomainSets {
            domains: seq![lowercase(anchor_domain(left))],
            excluded: Seq::<Seq<char>>::empty(),
            global: false,
        }
    } else {
        DomainSets {
            domains: Seq::<Seq<char>>::empty(),
            excluded: Seq::<Seq<char>>::empty(),
            global: true,
        }
    }
}

/// The parameter and options after `removeparam`: `removeparam=p,opt,...` names `p`;
/// a bare `removeparam` removes every parameter.
pub open spec fn option_parts(right: Seq<char>) -> (Seq<char>, Seq<Seq<char>>) {
    if has_prefix(right, "removeparam="@) {
        let parts = split_on(right.skip("removeparam="@.len() as int), ',');
        (trim(parts[0]), trim_all(parts.drop_first()))
    } else {
        (seq!['*'], Seq::<Seq<char>>::empty())
    }
}

/// The options given before `removeparam` as `$opt,...`.
pub open spec fn left_modifiers(left: Seq<char>) -> Seq<Seq<char>> {
    if has_prefix(left, seq!['$']) {
        trim_all(split_on(left.drop_first(), ','))
    } else {
        Seq::<Seq<char>>::empty()
    }
}

/// A parameter of the form `/re/` is a regular expression.
pub open spec fn is_regex_param(p: Seq<char>) -> bool {
    p.len() > 2 && p[0] == '/' && p.last() == '/'
}

/// The pattern between the slashes of a `/re/` parameter.
pub open spec fn regex_param_source(p: Seq<char>) -> Seq<char> {
    p.subrange(1, p.len() - 1)
}

/// The URL pattern of a rule, from the trimmed part before `removeparam`.
pub open spec fn url_pattern_of(left_clean: Seq<char>) -> Option<Seq<char>> {
    if left_clean.len() > 0 && !has_prefix(left_clean, "||"@) && !has_prefix(left_clean, seq!['$'])
        && left_clean != seq!['*'] {
        wildcard_source(left_clean)
    } else {
        None
    }
}

/// The rule a filter-list line gives, if any. Blank lines, comments (`!`, `#`),
/// exceptions (`@@`), lines without `removeparam`, an empty parameter and a `/re/`
/// parameter the regex crate rejects give none.
pub open spec fn parse_ubo_line_spec(raw: Seq<char>) -> Option<UboRuleView> {
    let line = trim(raw);
    if line.len() == 0 || has_prefix(line, seq!['!']) || has_prefix(line, seq!['#'])
        || has_prefix(line, "@@"@) {
        None
    } else {
        match find_seq(line, "removeparam"@) {
            None => None,
            Some(idx) => {
                let left = drop_separator(drop_separator(line.take(idx)));
                let param = option_parts(line.skip(idx)).0;
                let mods = option_parts(line.skip(idx)).1;
                if param.len() == 0 {
                    None
                } else if is_regex_param(param) && !regex_accepts(regex_param_source(param)) {
                    None
                } else {
                    let st = apply_modifiers(initial_domains(left), mods + left_modifiers(left));
                    Some(
                        UboRuleView {
                            parameter: param,
                            is_regex: is_regex_param(param),
                            regex: if is_regex_param(param) {
                                Some(regex_param_source(param))
                            } else {
                                None
                            },
                            domains: st.domains,
                            excluded_domains: st.excluded,
                            is_global: st.global,
                            url_pattern: url_pattern_of(trim(left)),
                        },
                    )
                }
            },
        }
    }
}

/// Comment lines (starting with `!` or `#` once trimmed) and exception lines (`@@`)
/// never give a rule.
pub proof fn lemma_comment_lines_give_no_rule(raw: Seq<char>)
    requires
        has_prefix(trim(raw), seq!['!']) || has_prefix(trim(raw), seq!['#']) || has_prefix(
            trim(raw),
            "@@"@,
        ),
    ensures
        parse_ubo_line_spec(raw) is None,
{
}

/// The view of an optional rule.
pub open spec fn rule_option_view(r: Option<UboRule>) -> Option<UboRuleView> {
    match r {
        Some(u) => Some(u@),
        None => None,
    }
}

/// The rules of the lines of a filter list, in order, skipping lines that give none.
pub open spec fn parse_lines_spec(lines: Seq<Seq<char>>) -> Seq<UboRuleView>
    decreases lines.len(),
{
    if lines.len() == 0 {
        Seq::<UboRuleView>::empty()
    } else {
        let prev = parse_lines_spec(lines.drop_last());
        match parse_ubo_line_spec(lines.last()) {
            Some(r) => prev.push(r),
            None => prev,
        }
    }
}

/// Domain lists as parsing builds them up.
struct DomainAcc {
    domains: Vec<String>,
    excluded: Vec<String>,
    global: bool,
}

impl View for DomainAcc {
    type V = DomainSets;

    closed spec fn view(&self) -> DomainSets {
        DomainSets {
            domains: string_views(self.domains@),
            excluded: string_views(self.excluded@),
            global: self.global,
        }
    }
}

/// The lowercase string for a character sequence.
fn lowercase_string(v: &Vec<char>) -> (r: String)
    ensures
        r@ == lowercase(v@),
{
    to_lowercase(string_of(v).as_str())
}

fn add_domain_entry_exec(acc: &mut DomainAcc, piece: &Vec<char>, from_to: bool)
    ensures
        final(acc)@ == add_domain_entry(old(acc)@, piece@, from_to),
{
    let d = trim_chars(piece);
    if starts_with_char(&d, '~') {
        let rest = slice_of(&d, 1, d.len());
        assert(rest@ =~= d@.drop_first());
        let low = lowercase_string(&rest);
        acc.excluded.push(low);
        assert(string_views(acc.excluded@) =~= string_views(old(acc).excluded@).push(low@));
        assert(has_prefix(d@, seq!['~'])) by {
            assert(d@.take(1) =~= seq!['~']);
        }
    } else {
        assert(!has_prefix(d@, seq!['~'])) by {
            if has_prefix(d@, seq!['~']) {
                assert(d@.take(1)[0] == '~');
            }
        }
        let low = lowercase_string(&d);
        acc.domains.push(low);
        assert(string_views(acc.domains@) =~= string_views(old(acc).domains@).push(low@));
        if from_to {
            acc.global = false;
        }
    }
}

fn add_domain_list_exec(acc: &mut DomainAcc, list: &Vec<char>, from_to: bool)
    ensures
        final(acc)@ == add_domain_list(old(acc)@, split_on(list@, '|'), from_to),
{
    let pieces = split(list, '|');
    let ghost start = acc@;
    let n = pieces.len();
    for i in 0..n
        invariant
            n == pieces@.len(),
            views(pieces@) == split_on(list@, '|'),
            acc@ == add_domain_list(start, views(pieces@).take(i as int), from_to),
    {
        add_domain_entry_exec(acc, &pieces[i], from_to);
        assert(views(pieces@).take(i + 1).drop_last() =~= views(pieces@).take(i as int));
        assert(views(pieces@)[i as int] == pieces@[i as int]@);
    }
    assert(views(pieces@).take(n as int) =~= views(pieces@));
}

fn apply_modifier_exec(acc: &mut DomainAcc, m: &Vec<char>)
    ensures
        final(acc)@ == apply_modifier(old(acc)@, m@),
{
    let domain_kw = chars_of("domain=");
    let to_kw = chars_of("to=");
    if starts_with(m, &domain_kw) {
        acc.global = false;
        let val = slice_of(m, domain_kw.len(), m.len());
        assert(val@ =~= m@.skip("domain="@.len() as int));
        add_domain_list_exec(acc, &val, false);
    } else if starts_with(m, &to_kw) {
        let val = slice_of(m, to_kw.len(), m.len());
        assert(val@ =~= m@.skip("to="@.len() as int));
        add_domain_list_exec(acc, &val, true);
    }
}

/// Each of `parts[from..]`, trimmed.
fn trim_each(parts: &Vec<Vec<char>>, from: usize) -> (r: Vec<Vec<char>>)
    requires
        from <= parts@.len(),
    ensures
        views(r@) == trim_all(views(parts@).skip(from as int)),
{
    let mut r: Vec<Vec<char>> = Vec::new();
    let n = parts.len();
    let mut j = from;
    while j < n
        invariant
            n == parts@.len(),
            from <= j <= n,
            views(r@) == trim_all(views(parts@).subrange(from as int, j as int)),
        decreases n - j,
    {
        let t = trim_chars(&parts[j]);
        assert(views(parts@)[j as int] == parts@[j as int]@);
        let ghost prev = r@;
        r.push(t);
        assert(views(r@) =~= views(prev).push(t@));
        assert(trim_all(views(parts@).subrange(from as int, j + 1)) =~= trim_all(
            views(parts@).subrange(from as int, j as int),
        ).push(trim(views(parts@)[j as int])));
        j += 1;
    }
    assert(views(parts@).subrange(from as int, n as int) =~= views(parts@).skip(from as int));
    r
}

/// The text without one final `$` or `,`.
fn drop_separator_exec(s: Vec<char>) -> (r: Vec<char>)
    ensures
        r@ == drop_separator(s@),
{
    if ends_with_char(&s, '$') || ends_with_char(&s, ',') {
        let r = slice_of(&s, 0, s.len() - 1);
        assert(r@ =~= s@.drop_last());
        r
    } else {
        s
    }
}

/// The parameter and options after `removeparam`.
fn option_parts_exec(right: &Vec<char>) -> (r: (Vec<char>, Vec<Vec<char>>))
    ensures
        r.0@ == option_parts(right@).0,
        views(r.1@) == option_parts(right@).1,
{
    let prefix = chars_of("removeparam=");
    if starts_with(right, &prefix) {
        let rest = slice_of(right, prefix.len(), right.len());
        assert(rest@ =~= right@.skip("removeparam="@.len() as int));
        let parts = split(&rest, ',');
        proof {
            lemma_split_on_nonempty(rest@, ',');
        }
        let param = trim_chars(&parts[0]);
        assert(views(parts@)[0] == parts@[0]@);
        let mods = trim_each(&parts, 1);
        assert(views(parts@).skip(1) =~= views(parts@).drop_first());
        (param, mods)
    } else {
        let mut star: Vec<char> = Vec::new();
        star.push('*');
        assert(star@ =~= seq!['*']);
        let mods: Vec<Vec<char>> = Vec::new();
        assert(views(mods@) =~= Seq::<Seq<char>>::empty());
        (star, mods)
    }
}

/// The options given before `removeparam` as `$opt,...`.
fn left_modifiers_exec(left: &Vec<char>) -> (r: Vec<Vec<char>>)
    ensures
        views(r@) == left_modifiers(left@),
{
    if starts_with_char(left, '$') {
        assert(has_prefix(left@, seq!['$'])) by {
            assert(left@.take(1) =~= seq!['$']);
        }
        let rest = slice_of(left, 1, left.len());
        assert(rest@ =~= left@.drop_first());
        let parts = split(&rest, ',');
        let r = trim_each(&parts, 0);
        assert(views(parts@).skip(0) =~= views(parts@));
        r
    } else {
        assert(!has_prefix(left@, seq!['$'])) by {
            if has_prefix(left@, seq!['$']) {
                assert(left@.take(1)[0] == '$');
            }
        }
        let r: Vec<Vec<char>> = Vec::new();
        assert(views(r@) =~= Seq::<Seq<char>>::empty());
        r
    }
}

/// The domains given by the part before `removeparam`.
fn initial_domains_exec(left: &Vec<char>) -> (r: DomainAcc)
    ensures
        r@ == initial_domains(left@),
{
    let anchor = chars_of("||");
    if starts_with(left, &anchor) {
        let mut dp = slice_of(left, anchor.len(), left.len());
        assert(dp@ =~= left@.skip("||"@.len() as int));
        if ends_with_char(&dp, '^') {
            let shorter = slice_of(&dp, 0, dp.len() - 1);
            assert(shorter@ =~= dp@.drop_last());
            dp = shorter;
        }
        let clean = trim_end_char_exec(&trim_end_char_exec(&dp, '/'), '^');
        let low = lowercase_string(&clean);
        let mut domains: Vec<String> = Vec::new();
        domains.push(low);
        let excluded: Vec<String> = Vec::new();
        let r = DomainAcc { domains, excluded, global: false };
        assert(r@.domains =~= seq![lowercase(anchor_domain(left@))]);
        assert(r@.excluded =~= Seq::<Seq<char>>::empty());
        r
    } else {
        let r = DomainAcc { domains: Vec::new(), excluded: Vec::new(), global: true };
        assert(r@.domains =~= Seq::<Seq<char>>::empty());
        assert(r@.excluded =~= Seq::<Seq<char>>::empty());
        r
    }
}

/// Whether a character sequence is exactly `*`.
fn is_star(s: &Vec<char>) -> (r: bool)
    ensures
        r == (s@ == seq!['*']),
{
    let r = s.len() == 1 && s[0] == '*';
    proof {
        if r {
            assert(s@ =~= seq!['*']);
        }
        if s@ == seq!['*'] {
            assert(s@[0] == '*');
        }
    }
    r
}

/// The rule a trimmed-or-not line of characters gives.
fn parse_ubo_chars(raw: &Vec<char>) -> (r: Option<UboRule>)
    ensures
        rule_option_view(r) == parse_ubo_line_spec(raw@),
{
    let l = trim_chars(raw);
    let comment_bang = starts_with_char(&l, '!');
    let comment_hash = starts_with_char(&l, '#');
    let exception = starts_with(&l, &chars_of("@@"));
    proof {
        lemma_prefix_char(l@, '!');
        lemma_prefix_char(l@, '#');
    }
    if l.len() == 0 || comment_bang || comment_hash || exception {
        return None;
    }
    let kw = chars_of("removeparam");
    let idx = match find(&l, &kw) {
        Some(i) => i,
        None => {
            return None;
        },
    };
    let left = drop_separator_exec(drop_separator_exec(slice_of(&l, 0, idx)));
    assert(l@.subrange(0, idx as int) =~= l@.take(idx as int));
    let left_clean = trim_chars(&left);
    let mut url_pattern: Option<CompiledRegex> = None;
    if left_clean.len() > 0 && !starts_with(&left_clean, &chars_of("||")) && !starts_with_char(
        &left_clean,
        '$',
    ) && !is_star(&left_clean) {
        url_pattern = wildcard_to_regex(string_of(&left_clean).as_str());
    }
    proof {
        lemma_prefix_char(left_clean@, '$');
    }
    assert(regex_source(url_pattern) == url_pattern_of(trim(left@)));
    let right = slice_of(&l, idx, l.len());
    assert(right@ =~= l@.skip(idx as int));
    let (param, modifiers) = option_parts_exec(&right);
    if param.len() == 0 {
        return None;
    }
    let is_regex = param.len() > 2 && param[0] == '/' && param[param.len() - 1] == '/';
    let mut regex: Option<CompiledRegex> = None;
    if is_regex {
        let inner = slice_of(&param, 1, param.len() - 1);
        match CompiledRegex::new(string_of(&inner).as_str()) {
            Ok(re) => {
                regex = Some(re);
            },
            Err(_) => {
                return None;
            },
        }
    }
    let mut acc = initial_domains_exec(&left);
    let left_mods = left_modifiers_exec(&left);
    let mut all_mods = modifiers;
    let ghost first = views(all_mods@);
    let k = left_mods.len();
    for j in 0..k
        invariant
            k == left_mods@.len(),
            views(all_mods@) == first + views(left_mods@).take(j as int),
    {
        let ghost prev = all_mods@;
        all_mods.push(left_mods[j].clone());
        assert(views(left_mods@)[j as int] == left_mods@[j as int]@);
        assert(views(all_mods@) =~= views(prev).push(left_mods@[j as int]@));
        assert(views(left_mods@).take(j + 1) =~= views(left_mods@).take(j as int).push(
            views(left_mods@)[j as int],
        ));
    }
    assert(views(left_mods@).take(k as int) =~= views(left_mods@));
    let ghost start = acc@;
    let m = all_mods.len();
    for j in 0..m
        invariant
            m == all_mods@.len(),
            acc@ == apply_modifiers(start, views(all_mods@).take(j as int)),
    {
        apply_modifier_exec(&mut acc, &all_mods[j]);
        assert(views(all_mods@)[j as int] == all_mods@[j as int]@);
        assert(views(all_mods@).take(j + 1).drop_last() =~= views(all_mods@).take(j as int));
    }
    assert(views(all_mods@).take(m as int) =~= views(all_mods@));
    let rule = UboRule {
        parameter: string_of(&param),
        is_regex,
        regex,
        domains: acc.domains,
        excluded_domains: acc.excluded,
        is_global: acc.global,
        url_pattern,
    };
    Some(rule)
}

/// The rule a line of a uBlock Origin filter list gives, if any.
pub fn parse_ubo_line(line: &str) -> (r: Option<UboRule>)
    ensures
        rule_option_view(r) == parse_ubo_line_spec(line@),
{
    parse_ubo_chars(&chars_of(line))
}

/// The rules of a uBlock Origin filter list, one per line that gives one, in order.
pub fn parse_rules_from_str(content: &str) -> (r: Vec<UboRule>)
    ensures
        rule_views(r@) == parse_lines_spec(lines_of(content@)),
{
    let all = lines(&chars_of(content));
    let mut rules: Vec<UboRule> = Vec::new();
    let n = all.len();
    for i in 0..n
        invariant
            n == all@.len(),
            views(all@) == lines_of(content@),
            rule_views(rules@) == parse_lines_spec(views(all@).take(i as int)),
    {
        let parsed = parse_ubo_chars(&all[i]);
        assert(views(all@)[i as int] == all@[i as int]@);
        assert(views(all@).take(i + 1).drop_last() =~= views(all@).take(i as int));
        match parsed {
            Some(rule) => {
                let ghost prev = rules@;
                rules.push(rule);
                assert(rule_views(rules@) =~= rule_views(prev).push(rule@));
            },
            None => {},
        }
    }
    assert(views(all@).take(n as int) =~= views(all@));
    rules
}

// ----------------------------------------------------------------------------
// Query strings
// ----------------------------------------------------------------------------

/// The name of a `name=value` pair: the text before the first `=`.
pub open spec fn pair_key(pair: Seq<char>) -> Seq<char> {
    match find_seq(pair, seq!['=']) {
        Some(i) => pair.take(i),
        None => pair,
    }
}

/// The value of a `name=value` pair: the text after the first `=`, or nothing.
pub open spec fn pair_value(pair: Seq<char>) -> Seq<char> {
    match find_seq(pair, seq!['=']) {
        Some(i) => pair.skip(i + 1),
        None => Seq::<char>::empty(),
    }
}

/// A kept pair as written back: `name` alone when the value is empty, else `name=value`.
pub open spec fn kept_pair(pair: Seq<char>) -> Seq<char> {
    if pair_value(pair).len() == 0 {
        pair_key(pair)
    } else {
        pair_key(pair) + seq!['='] + pair_value(pair)
    }
}

/// The pairs of a query that no rule removes, in order, empty pairs dropped.
pub open spec fn kept_pairs(
    url_domain: Seq<char>,
    full_url: Seq<char>,
    pairs: Seq<Seq<char>>,
    rules: Seq<UboRuleView>,
) -> Seq<Seq<char>>
    decreases pairs.len(),
{
    if pairs.len() == 0 {
        Seq::<Seq<char>>::empty()
    } else {
        let prev = kept_pairs(url_domain, full_url, pairs.drop_last(), rules);
        let p = pairs.last();
        if p.len() == 0 || removes_param(rules, url_domain, full_url, pair_key(p)) {
            prev
        } else {
            prev.push(kept_pair(p))
        }
    }
}

/// The non-empty pairs of a query whose name no rule removes, in order.
pub open spec fn surviving_pairs(
    url_domain: Seq<char>,
    full_url: Seq<char>,
    pairs: Seq<Seq<char>>,
    rules: Seq<UboRuleView>,
) -> Seq<Seq<char>> {
    pairs.filter(|p: Seq<char>| p.len() > 0 && !removes_param(rules, url_domain, full_url, pair_key(p)))
}

/// A query keeps every non-empty pair whose name no rule removes and nothing else: as
/// many pairs as there are such pairs, the k-th kept pair written back from the k-th such
/// pair, so that pairs sharing a name are all kept.
pub proof fn lemma_kept_pairs_are_the_surviving_pairs(
    url_domain: Seq<char>,
    full_url: Seq<char>,
    pairs: Seq<Seq<char>>,
    rules: Seq<UboRuleView>,
)
    ensures
        kept_pairs(url_domain, full_url, pairs, rules).len() == surviving_pairs(
            url_domain,
            full_url,
            pairs,
            rules,
        ).len(),
        forall|k: int|
            0 <= k < kept_pairs(url_domain, full_url, pairs, rules).len() ==> #[trigger] kept_pairs(
                url_domain,
                full_url,
                pairs,
                rules,
            )[k] == kept_pair(surviving_pairs(url_domain, full_url, pairs, rules)[k]),
    decreases pairs.len(),
{
    reveal(Seq::filter);
    if pairs.len() > 0 {
        lemma_kept_pairs_are_the_surviving_pairs(url_domain, full_url, pairs.drop_last(), rules);
        let kept = kept_pairs(url_domain, full_url, pairs, rules);
        let prev = kept_pairs(url_domain, full_url, pairs.drop_last(), rules);
        let sv = surviving_pairs(url_domain, full_url, pairs, rules);
        let sp = surviving_pairs(url_domain, full_url, pairs.drop_last(), rules);
        let p = pairs.last();
        if p.len() > 0 && !removes_param(rules, url_domain, full_url, pair_key(p)) {
            assert(sv == sp.push(p));
            assert forall|k: int| 0 <= k < kept.len() implies #[trigger] kept[k] == kept_pair(sv[k]) by {
                if k < prev.len() {
                    assert(kept[k] == prev[k]);
                    assert(sv[k] == sp[k]);
                }
            }
        } else {
            assert(sv == sp);
        }
    }
}

/// The pieces joined with a separator between each two.
pub open spec fn join_with(parts: Seq<Seq<char>>, sep: char) -> Seq<char>
    decreases parts.len(),
{
    if parts.len() == 0 {
        Seq::<char>::empty()
    } else if parts.len() == 1 {
        parts[0]
    } else {
        join_with(parts.drop_last(), sep) + seq![sep] + parts.last()
    }
}

/// The query (without its `?`) rebuilt from the pairs no rule removes: nothing when
/// none is left, else `?` and the kept pairs joined with `&`.
pub open spec fn rebuilt_query(
    url_domain: Seq<char>,
    full_url: Seq<char>,
    query: Seq<char>,
    rules: Seq<UboRuleView>,
) -> Seq<char> {
    let kept = kept_pairs(url_domain, full_url, split_on(query, '&'), rules);
    if kept.len() == 0 {
        Seq::<char>::empty()
    } else {
        seq!['?'] + join_with(kept, '&')
    }
}

/// No rule removes the name of any pair that is kept.
pub proof fn lemma_kept_pairs_not_removed(
    url_domain: Seq<char>,
    full_url: Seq<char>,
    pairs: Seq<Seq<char>>,
    rules: Seq<UboRuleView>,
)
    ensures
        forall|k: int|
            #![trigger kept_pairs(url_domain, full_url, pairs, rules)[k]]
            0 <= k < kept_pairs(url_domain, full_url, pairs, rules).len() ==> exists|j: int|
                0 <= j < pairs.len() && pairs[j].len() > 0 && !removes_param(
                    rules,
                    url_domain,
                    full_url,
                    pair_key(#[trigger] pairs[j]),
                ) && kept_pairs(url_domain, full_url, pairs, rules)[k] == kept_pair(pairs[j]),
    decreases pairs.len(),
{
    if pairs.len() > 0 {
        lemma_kept_pairs_not_removed(url_domain, full_url, pairs.drop_last(), rules);
        let kept = kept_pairs(url_domain, full_url, pairs, rules);
        let prev = kept_pairs(url_domain, full_url, pairs.drop_last(), rules);
        assert forall|k: int| #![trigger kept[k]] 0 <= k < kept.len() implies exists|j: int|
            0 <= j < pairs.len() && pairs[j].len() > 0 && !removes_param(
                rules,
                url_domain,
                full_url,
                pair_key(#[trigger] pairs[j]),
            ) && kept[k] == kept_pair(pairs[j]) by {
            if k < prev.len() {
                let j = choose|j: int|
                    0 <= j < pairs.drop_last().len() && pairs.drop_last()[j].len() > 0
                        && !removes_param(
                        rules,
                        url_domain,
                        full_url,
                        pair_key(#[trigger] pairs.drop_last()[j]),
                    ) && prev[k] == kept_pair(pairs.drop_last()[j]);
                assert(pairs[j] == pairs.drop_last()[j]);
            } else {
                assert(pairs[pairs.len() - 1] == pairs.last());
            }
        }
    }
}

/// The name and value of a `name=value` pair.
fn split_pair(pair: &Vec<char>) -> (r: (Vec<char>, Vec<char>))
    ensures
        r.0@ == pair_key(pair@),
        r.1@ == pair_value(pair@),
{
    let mut eq: Vec<char> = Vec::new();
    eq.push('=');
    assert(eq@ =~= seq!['=']);
    match find(pair, &eq) {
        Some(i) => {
            let plen = pair.len();
            assert(i + eq@.len() <= plen);
            let key = slice_of(pair, 0, i);
            let value = slice_of(pair, i + 1, pair.len());
            assert(key@ =~= pair@.take(i as int));
            assert(value@ =~= pair@.skip(i + 1));
            (key, value)
        },
        None => {
            let value: Vec<char> = Vec::new();
            assert(value@ =~= Seq::<char>::empty());
            (pair.clone(), value)
        },
    }
}

/// The pieces joined with a separator between each two.
fn join_chars(parts: &Vec<Vec<char>>, sep: char) -> (r: Vec<char>)
    ensures
        r@ == join_with(views(parts@), sep),
{
    let mut out: Vec<char> = Vec::new();
    let n = parts.len();
    assert(out@ =~= join_with(views(parts@).take(0), sep));
    for i in 0..n
        invariant
            n == parts@.len(),
            out@ == join_with(views(parts@).take(i as int), sep),
    {
        assert(views(parts@)[i as int] == parts@[i as int]@);
        let ghost t = views(parts@).take(i + 1);
        assert(t.drop_last() =~= views(parts@).take(i as int));
        if i > 0 {
            out.push(sep);
        }
        out = concat(&out, &parts[i]);
        if i == 0 {
            assert(out@ =~= t[0]);
        }
    }
    assert(views(parts@).take(n as int) =~= views(parts@));
    out
}

/// Rebuilds a query string (given without its `?`) from the pairs that no rule removes
/// for a URL `full_url` on `domain`: empty when none is left, else `?` and the kept
/// pairs joined with `&`, an empty value written without its `=`.
pub fn process_query_string_ubo(domain: &str, full_url: &str, query_str: &str, rules: &[UboRule]) -> (r: String)
    ensures
        r@ == rebuilt_query(domain@, full_url@, query_str@, rule_views(rules@)),
{
    let q = chars_of(query_str);
    let pairs = split(&q, '&');
    let ghost rv = rule_views(rules@);
    let mut kept: Vec<Vec<char>> = Vec::new();
    let n = pairs.len();
    for i in 0..n
        invariant
            n == pairs@.len(),
            views(pairs@) == split_on(query_str@, '&'),
            rv == rule_views(rules@),
            views(kept@) == kept_pairs(domain@, full_url@, views(pairs@).take(i as int), rv),
    {
        assert(views(pairs@)[i as int] == pairs@[i as int]@);
        assert(views(pairs@).take(i + 1).drop_last() =~= views(pairs@).take(i as int));
        let pair = &pairs[i];
        if pair.len() > 0 {
            let (key, value) = split_pair(pair);
            let key_s = string_of(&key);
            if !should_filter_param(domain, full_url, key_s.as_str(), rules) {
                let entry = if value.len() == 0 {
                    key
                } else {
                    let mut with_eq = key.clone();
                    with_eq.push('=');
                    concat(&with_eq, &value)
                };
                assert(entry@ =~= kept_pair(pair@));
                let ghost prev = kept@;
                kept.push(entry);
                assert(views(kept@) =~= views(prev).push(entry@));
            }
        }
    }
    assert(views(pairs@).take(n as int) =~= views(pairs@));
    if kept.len() == 0 {
        String::new()
    } else {
        let mut out = String::new();
        push_char(&mut out, '?');
        let joined = join_chars(&kept, '&');
        push_chars(&mut out, &joined);
        assert(out@ =~= seq!['?'] + joined@);
        out
    }
}

// ----------------------------------------------------------------------------
// Links in text
// ----------------------------------------------------------------------------

/// The expression that finds links: protocol, `www.`, domain, path, query, fragment.
pub const URL_PATTERN: &'static str = r"(?i)(?:\b(https?://))?(?:\b(www\.))?\b([a-zA-Z0-9.-]+\.[a-zA-Z]{2,})\b(/[^?\s#]*)?(\?[^\s#]*)?(#[^\s]*)?";

/// A character that would continue a domain name.
pub open spec fn continues_domain(c: char) -> bool {
    c == '.' || char_is_alphanumeric(c) || c == '-'
}

/// The character of the text right after group `i` of a match, if any.
pub open spec fn char_after_group(c: CaptureView, i: int) -> Option<char> {
    if 0 <= i < c.groups.len() {
        match c.groups[i] {
            Some(g) => g.next_char,
            None => None,
        }
    } else {
        None
    }
}

/// A found link, rewritten. A link without a query, or whose domain runs on into more
/// domain characters, stays as it was. Otherwise its query is rebuilt from the pairs no
/// rule removes (punctuation at the end of the query is not part of it), and protocol,
/// `www.`, domain, path, fragment and trailing punctuation are kept. (`URL_PATTERN`
/// requires the domain group in every match; without it nothing is taken to follow it.)
pub open spec fn rewrite_url_spec(c: CaptureView, rules: Seq<UboRuleView>) -> Seq<char> {
    let whole = group_or_empty(c, 0);
    let protocol = group_or_empty(c, 1);
    let www = group_or_empty(c, 2);
    let domain = group_or_empty(c, 3);
    let path = group_or_empty(c, 4);
    let query = group_or_empty(c, 5);
    let fragment = group_or_empty(c, 6);
    if query.len() == 0 {
        whole
    } else if (match char_after_group(c, 3) {
        Some(ch) => continues_domain(ch),
        None => false,
    }) {
        whole
    } else if fragment.len() > 0 {
        let k = punct_tail_start(fragment);
        protocol + www + domain + path + rebuilt_query(domain, whole, query.drop_first(), rules)
            + fragment.take(k) + fragment.skip(k)
    } else {
        let k = punct_tail_start(query);
        let base = query.take(k);
        let clean = if base.len() > 1 {
            rebuilt_query(domain, whole, base.drop_first(), rules)
        } else {
            Seq::<char>::empty()
        };
        protocol + www + domain + path + clean + query.skip(k)
    }
}

/// The text with every found link rewritten and everything between links kept.
pub open spec fn rewrite_all(caps: Seq<CaptureView>, rules: Seq<UboRuleView>) -> Seq<char>
    decreases caps.len(),
{
    if caps.len() == 0 {
        Seq::<char>::empty()
    } else {
        rewrite_all(caps.drop_last(), rules) + caps.last().gap + rewrite_url_spec(caps.last(), rules)
    }
}

/// The text with the removable query parameters of its links removed.
pub open spec fn filter_spec(text: Seq<char>, rules: Seq<UboRuleView>) -> Seq<char> {
    if regex_accepts(URL_PATTERN@) {
        let found = regex_captures(URL_PATTERN@, text);
        rewrite_all(found.0, rules) + found.1
    } else {
        text
    }
}

/// No link found in the text has a query string.
pub open spec fn links_without_query(text: Seq<char>) -> bool {
    forall|k: int|
        0 <= k < regex_captures(URL_PATTERN@, text).0.len() ==> group_or_empty(
            #[trigger] regex_captures(URL_PATTERN@, text).0[k],
            5,
        ).len() == 0
}

/// Rewriting links that have no query leaves them, and the text between them, as it was.
proof fn lemma_rewrite_all_without_query(caps: Seq<CaptureView>, rules: Seq<UboRuleView>)
    requires
        forall|k: int| 0 <= k < caps.len() ==> group_or_empty(#[trigger] caps[k], 5).len() == 0,
    ensures
        rewrite_all(caps, rules) == covered_text(caps),
    decreases caps.len(),
{
    if caps.len() > 0 {
        assert(group_or_empty(caps[caps.len() - 1], 5).len() == 0);
        assert forall|k: int| 0 <= k < caps.drop_last().len() implies group_or_empty(
            #[trigger] caps.drop_last()[k],
            5,
        ).len() == 0 by {
            assert(caps.drop_last()[k] == caps[k]);
        }
        lemma_rewrite_all_without_query(caps.drop_last(), rules);
    }
}

/// The text of group `i` of a match, or the empty string.
fn group_str(c: &Capture, i: usize) -> (r: &str)
    ensures
        r@ == group_or_empty(c@, i as int),
{
    if i < c.groups.len() {
        match &c.groups[i] {
            Some(g) => {
                return g.text.as_str();
            },
            None => {},
        }
    }
    let e = "";
    proof {
        reveal_strlit("");
    }
    assert(e@ =~= Seq::<char>::empty());
    e
}

/// The character of the text right after group `i` of a match.
fn group_next_char(c: &Capture, i: usize) -> (r: Option<char>)
    ensures
        r == char_after_group(c@, i as int),
{
    if i < c.groups.len() {
        match &c.groups[i] {
            Some(g) => g.next_char,
            None => None,
        }
    } else {
        None
    }
}

/// The text of a string without its first character.
fn drop_first_char(s: &str) -> (r: String)
    requires
        s@.len() > 0,
    ensures
        r@ == s@.drop_first(),
{
    let cs = chars_of(s);
    let rest = slice_of(&cs, 1, cs.len());
    assert(rest@ =~= s@.drop_first());
    string_of(&rest)
}

/// One found link, rewritten.
fn rewrite_url(c: &Capture, rules: &[UboRule]) -> (r: String)
    ensures
        r@ == rewrite_url_spec(c@, rule_views(rules@)),
{
    let whole = group_str(c, 0);
    let protocol = group_str(c, 1);
    let www = group_str(c, 2);
    let domain = group_str(c, 3);
    let path = group_str(c, 4);
    let query = group_str(c, 5);
    let fragment = group_str(c, 6);
    if query.is_empty() {
        return whole.to_owned();
    }
    match group_next_char(c, 3) {
        Some(ch) => {
            if ch == '.' || is_alphanumeric(ch) || ch == '-' {
                return whole.to_owned();
            }
        },
        None => {},
    }
    let mut out = String::new();
    push_str(&mut out, protocol);
    push_str(&mut out, www);
    push_str(&mut out, domain);
    push_str(&mut out, path);
    if !fragment.is_empty() {
        let (f_base, f_punct) = strip_trailing_punctuation(fragment);
        let query_str = drop_first_char(query);
        let clean_query = process_query_string_ubo(domain, whole, query_str.as_str(), rules);
        push_str(&mut out, clean_query.as_str());
        push_str(&mut out, f_base);
        push_str(&mut out, f_punct);
    } else {
        let (q_base, q_punct) = strip_trailing_punctuation(query);
        if chars_of(q_base).len() > 1 {
            let query_str = drop_first_char(q_base);
            let clean_query = process_query_string_ubo(domain, whole, query_str.as_str(), rules);
            push_str(&mut out, clean_query.as_str());
        }
        push_str(&mut out, q_punct);
    }
    out
}

/// Removes, from every link in the text, the query parameters that the rules remove;
/// the text between links is kept as it is, and so is every link without a query.
/// (`URL_PATTERN` is a fixed expression the regex crate accepts; were it rejected, the
/// text would come back as it is.)
pub fn filter_query_parameters(text: &str, ubo_rules: &[UboRule]) -> (r: String)
    ensures
        r@ == filter_spec(text@, rule_views(ubo_rules@)),
        links_without_query(text@) ==> r@ == text@,
{
    let url_re = match CompiledRegex::new(URL_PATTERN) {
        Ok(re) => re,
        Err(_) => {
            return text.to_owned();
        },
    };
    let (caps, tail) = url_re.captures(text);
    let ghost cv = captures_view(caps@);
    let mut out = String::new();
    let n = caps.len();
    assert(out@ =~= rewrite_all(cv.take(0), rule_views(ubo_rules@)));
    for i in 0..n
        invariant
            n == caps@.len(),
            cv == captures_view(caps@),
            out@ == rewrite_all(cv.take(i as int), rule_views(ubo_rules@)),
    {
        assert(cv[i as int] == caps@[i as int]@);
        assert(cv.take(i + 1).drop_last() =~= cv.take(i as int));
        push_str(&mut out, caps[i].gap.as_str());
        let piece = rewrite_url(&caps[i], ubo_rules);
        push_str(&mut out, piece.as_str());
    }
    assert(cv.take(n as int) =~= cv);
    push_str(&mut out, tail.as_str());
    proof {
        if links_without_query(text@) {
            assert forall|k: int| 0 <= k < cv.len() implies group_or_empty(#[trigger] cv[k], 5).len()
                == 0 by {
                assert(cv[k] == regex_captures(URL_PATTERN@, text@).0[k]);
            }
            lemma_rewrite_all_without_query(cv, rule_views(ubo_rules@));
        }
    }
    out
}

// ----------------------------------------------------------------------------
// What every parsed rule satisfies, and parsing a list piece by piece
// ----------------------------------------------------------------------------

/// Text that `str::to_lowercase` returned for some input.
pub open spec fn is_lowercased(d: Seq<char>) -> bool {
    exists|x: Seq<char>| d == lowercase(x)
}

/// Domain sets in which every domain and excluded domain went through `to_lowercase`,
/// and in which a rule limited to some domain is not global.
pub open spec fn domain_sets_hold(st: DomainSets) -> bool {
    &&& st.domains.len() > 0 ==> !st.global
    &&& forall|i: int| 0 <= i < st.domains.len() ==> is_lowercased(#[trigger] st.domains[i])
    &&& forall|i: int| 0 <= i < st.excluded.len() ==> is_lowercased(#[trigger] st.excluded[i])
}

proof fn lemma_domain_entry_keeps(st: DomainSets, piece: Seq<char>, from_to: bool)
    requires
        domain_sets_hold(st),
        from_to || !st.global,
    ensures
        domain_sets_hold(add_domain_entry(st, piece, from_to)),
        !st.global ==> !add_domain_entry(st, piece, from_to).global,
{
    let d = trim(piece);
    let next = add_domain_entry(st, piece, from_to);
    if has_prefix(d, seq!['~']) {
        assert(is_lowercased(lowercase(d.drop_first())));
        assert forall|i: int| 0 <= i < next.excluded.len() implies is_lowercased(
            #[trigger] next.excluded[i],
        ) by {
            if i < st.excluded.len() {
                assert(next.excluded[i] == st.excluded[i]);
            }
        }
    } else {
        assert(is_lowercased(lowercase(d)));
        assert forall|i: int| 0 <= i < next.domains.len() implies is_lowercased(
            #[trigger] next.domains[i],
        ) by {
            if i < st.domains.len() {
                assert(next.domains[i] == st.domains[i]);
            }
        }
    }
}

proof fn lemma_domain_list_keeps(st: DomainSets, pieces: Seq<Seq<char>>, from_to: bool)
    requires
        domain_sets_hold(st),
        from_to || !st.global,
    ensures
        domain_sets_hold(add_domain_list(st, pieces, from_to)),
        !st.global ==> !add_domain_list(st, pieces, from_to).global,
    decreases pieces.len(),
{
    if pieces.len() > 0 {
        lemma_domain_list_keeps(st, pieces.drop_last(), from_to);
        lemma_domain_entry_keeps(add_domain_list(st, pieces.drop_last(), from_to), pieces.last(), from_to);
    }
}

proof fn lemma_modifiers_keep(st: DomainSets, mods: Seq<Seq<char>>)
    requires
        domain_sets_hold(st),
    ensures
        domain_sets_hold(apply_modifiers(st, mods)),
    decreases mods.len(),
{
    if mods.len() > 0 {
        lemma_modifiers_keep(st, mods.drop_last());
        let prev = apply_modifiers(st, mods.drop_last());
        let m = mods.last();
        if has_prefix(m, "domain="@) {
            lemma_domain_list_keeps(
                DomainSets { domains: prev.domains, excluded: prev.excluded, global: false },
                split_on(m.skip("domain="@.len() as int), '|'),
                false,
            );
        } else if has_prefix(m, "to="@) {
            lemma_domain_list_keeps(prev, split_on(m.skip("to="@.len() as int), '|'), true);
        }
    }
}

/// Every rule a line gives has a non-empty parameter; it is a regular expression exactly
/// when it carries one, whose pattern is the parameter between its slashes; a rule
/// limited to some domain is not global; and each of its domains and excluded domains is
/// what `to_lowercase` gave for some text.
pub proof fn lemma_parsed_rule_shape(raw: Seq<char>)
    ensures
        parse_ubo_line_spec(raw) matches Some(r) ==> {
            &&& r.parameter.len() > 0
            &&& (r.is_regex <==> r.regex is Some)
            &&& r.is_regex ==> r.parameter.len() > 2 && r.regex == Some(
                r.parameter.subrange(1, r.parameter.len() - 1),
            )
            &&& r.domains.len() > 0 ==> !r.is_global
            &&& forall|i: int| 0 <= i < r.domains.len() ==> is_lowercased(#[trigger] r.domains[i])
            &&& forall|i: int|
                0 <= i < r.excluded_domains.len() ==> is_lowercased(
                    #[trigger] r.excluded_domains[i],
                )
        },
{
    let line = trim(raw);
    match find_seq(line, "removeparam"@) {
        Some(idx) => {
            let left = drop_separator(drop_separator(line.take(idx)));
            let mods = option_parts(line.skip(idx)).1;
            if has_prefix(left, "||"@) {
                let init = initial_domains(left);
                assert(is_lowercased(lowercase(anchor_domain(left))));
                assert(init.domains[0] == lowercase(anchor_domain(left)));
            }
            lemma_modifiers_keep(initial_domains(left), mods + left_modifiers(left));
        },
        None => {},
    }
}

/// A line that is empty once trimmed gives no rule.
proof fn lemma_blank_line_no_rule(x: Seq<char>)
    requires
        trim(x).len() == 0,
    ensures
        parse_ubo_line_spec(x) is None,
{
}

/// Trimming the start of a longer text: the added character is kept unless everything
/// before it was whitespace.
proof fn lemma_trim_start_push(y: Seq<char>, c: char)
    ensures
        trim_start(y.push(c)) == (if trim_start(y).len() == 0 {
            trim_start(seq![c])
        } else {
            trim_start(y).push(c)
        }),
    decreases y.len(),
{
    if y.len() == 0 {
        assert(y.push(c) =~= seq![c]);
    } else {
        assert(y.push(c).drop_first() =~= y.drop_first().push(c));
        assert(y.push(c)[0] == y[0]);
        if char_is_whitespace(y[0]) {
            lemma_trim_start_push(y.drop_first(), c);
        }
    }
}

/// A carriage return at the end of a line makes no difference to trimming it.
proof fn lemma_trim_strip_cr(x: Seq<char>)
    ensures
        trim(strip_cr(x)) == trim(x),
{
    if x.len() > 0 && x.last() == '\r' {
        let y = x.drop_last();
        assert(y.push('\r') =~= x);
        assert(strip_cr(x) == y);
        assert(char_is_whitespace('\r')) by {
            assert('\r' as u32 == 0x0d);
        }
        lemma_trim_start_push(y, '\r');
        let t = trim_start(y);
        if t.len() == 0 {
            let one = seq!['\r'];
            assert(one.len() == 1 && one[0] == '\r');
            assert(one.drop_first() =~= Seq::<char>::empty());
            assert(trim_start(one) == trim_start(Seq::<char>::empty()));
            assert(trim_start(Seq::<char>::empty()) =~= Seq::<char>::empty());
            assert(trim_start(x) =~= Seq::<char>::empty());
            assert(t =~= Seq::<char>::empty());
        } else {
            assert(trim_start(x) == t.push('\r'));
            assert(t.push('\r').last() == '\r');
            assert(t.push('\r').drop_last() =~= t);
            assert(trim_end(t.push('\r')) == trim_end(t));
        }
    }
}

/// Pieces that give the same rules, one by one, give the same list.
proof fn lemma_parse_lines_pointwise(xs: Seq<Seq<char>>, ys: Seq<Seq<char>>)
    requires
        xs.len() == ys.len(),
        forall|i: int|
            0 <= i < xs.len() ==> parse_ubo_line_spec(#[trigger] xs[i]) == parse_ubo_line_spec(
                ys[i],
            ),
    ensures
        parse_lines_spec(xs) == parse_lines_spec(ys),
    decreases xs.len(),
{
    if xs.len() > 0 {
        assert forall|i: int| 0 <= i < xs.drop_last().len() implies parse_ubo_line_spec(
            #[trigger] xs.drop_last()[i],
        ) == parse_ubo_line_spec(ys.drop_last()[i]) by {
            assert(xs.drop_last()[i] == xs[i]);
            assert(ys.drop_last()[i] == ys[i]);
        }
        lemma_parse_lines_pointwise(xs.drop_last(), ys.drop_last());
        assert(xs.last() == xs[xs.len() - 1]);
    }
}

/// The rules of two lists of lines, one after the other.
proof fn lemma_parse_lines_append(xs: Seq<Seq<char>>, ys: Seq<Seq<char>>)
    ensures
        parse_lines_spec(xs + ys) == parse_lines_spec(xs) + parse_lines_spec(ys),
    decreases ys.len(),
{
    if ys.len() == 0 {
        assert(xs + ys =~= xs);
        assert(parse_lines_spec(xs) + parse_lines_spec(ys) =~= parse_lines_spec(xs));
    } else {
        lemma_parse_lines_append(xs, ys.drop_last());
        assert((xs + ys).drop_last() =~= xs + ys.drop_last());
        assert((xs + ys).last() == ys.last());
        match parse_ubo_line_spec(ys.last()) {
            Some(r) => {
                assert(parse_lines_spec(xs) + parse_lines_spec(ys.drop_last()).push(r)
                    =~= (parse_lines_spec(xs) + parse_lines_spec(ys.drop_last())).push(r));
            },
            None => {},
        }
    }
}

/// Splitting at a separator that joins two texts gives the pieces of each.
proof fn lemma_split_on_join(a: Seq<char>, b: Seq<char>, sep: char)
    ensures
        split_on(a.push(sep) + b, sep) == split_on(a, sep) + split_on(b, sep),
    decreases b.len(),
{
    lemma_split_on_nonempty(a, sep);
    if b.len() == 0 {
        assert(a.push(sep) + b =~= a.push(sep));
        assert(a.push(sep).drop_last() =~= a);
        assert(split_on(a, sep) + split_on(b, sep) =~= split_on(a, sep).push(Seq::<char>::empty()));
    } else {
        let x = a.push(sep) + b;
        assert(x.drop_last() =~= a.push(sep) + b.drop_last());
        assert(x.last() == b.last());
        lemma_split_on_join(a, b.drop_last(), sep);
        lemma_split_on_nonempty(b.drop_last(), sep);
        let sa = split_on(a, sep);
        let sb = split_on(b.drop_last(), sep);
        if b.last() == sep {
            assert((sa + sb).push(Seq::<char>::empty()) =~= sa + sb.push(Seq::<char>::empty()));
        } else {
            let r = sa + sb;
            assert(r.update(r.len() - 1, r.last().push(b.last())) =~= sa + sb.update(
                sb.len() - 1,
                sb.last().push(b.last()),
            ));
        }
    }
}

/// The rules of a text's lines are those of its `\n`-separated pieces: a carriage
/// return before a line feed is whitespace, and a final empty piece gives no rule.
proof fn lemma_parse_lines_of_pieces(s: Seq<char>)
    ensures
        parse_lines_spec(lines_of(s)) == parse_lines_spec(split_on(s, '\n')),
{
    let parts = split_on(s, '\n');
    lemma_split_on_nonempty(s, '\n');
    let ls = lines_of(s);
    let n = ls.len();
    assert forall|i: int| 0 <= i < n implies parse_ubo_line_spec(#[trigger] ls[i])
        == parse_ubo_line_spec(parts.take(n as int)[i]) by {
        lemma_trim_strip_cr(parts[i]);
    }
    lemma_parse_lines_pointwise(ls, parts.take(n as int));
    if n < parts.len() {
        assert(parts.take(n as int) =~= parts.drop_last());
        assert(parts.last().len() == 0) by {
            if s.len() > 0 {
                assert(s.last() == '\n');
            }
        }
        lemma_blank_line_no_rule(parts.last());
    } else {
        assert(parts.take(n as int) =~= parts);
    }
}

/// A filter list made of two texts joined by a line feed gives the rules of the first
/// followed by those of the second.
pub proof fn lemma_parse_rules_concat(a: Seq<char>, b: Seq<char>)
    ensures
        parse_lines_spec(lines_of(a.push('\n') + b)) == parse_lines_spec(lines_of(a))
            + parse_lines_spec(lines_of(b)),
{
    lemma_parse_lines_of_pieces(a.push('\n') + b);
    lemma_parse_lines_of_pieces(a);
    lemma_parse_lines_of_pieces(b);
    lemma_split_on_join(a, b, '\n');
    lemma_parse_lines_append(split_on(a, '\n'), split_on(b, '\n'));
}

// ----------------------------------------------------------------------------
// What single option lines mean
// ----------------------------------------------------------------------------

/// A rule that is neither a regular expression nor `*` selects one name only, its own
/// parameter: it removes no other name; and when it is global, with no URL pattern and no
/// excluded domain, it removes that name from every URL.
pub proof fn lemma_plain_rule_removes_only_its_name(
    r: UboRuleView,
    url_domain: Seq<char>,
    full_url: Seq<char>,
    name: Seq<char>,
)
    requires
        !r.is_regex,
        r.parameter != seq!['*'],
    ensures
        rule_removes(r, url_domain, full_url, name) ==> name == r.parameter,
        r.is_global && r.url_pattern is None && r.excluded_domains.len() == 0 ==> (rule_removes(
            r,
            url_domain,
            full_url,
            name,
        ) <==> name == r.parameter),
{
}

/// A piece of an option list: not empty, and without commas, dollar signs or whitespace.
pub open spec fn plain_option_text(s: Seq<char>) -> bool {
    &&& s.len() > 0
    &&& forall|i: int|
        0 <= i < s.len() ==> #[trigger] s[i] != ',' && s[i] != '$' && !char_is_whitespace(s[i])
}

proof fn lemma_trim_unchanged(s: Seq<char>)
    requires
        s.len() > 0,
        !char_is_whitespace(s[0]),
        !char_is_whitespace(s.last()),
    ensures
        trim(s) == s,
{
    assert(trim_start(s) == s);
}

proof fn lemma_split_without_sep(s: Seq<char>, sep: char)
    requires
        forall|i: int| 0 <= i < s.len() ==> s[i] != sep,
    ensures
        split_on(s, sep) == seq![s],
    decreases s.len(),
{
    if s.len() == 0 {
        assert(s =~= Seq::<char>::empty());
    } else {
        lemma_split_without_sep(s.drop_last(), sep);
        assert(s.drop_last().push(s.last()) =~= s);
        assert(seq![s.drop_last()].update(0, s.drop_last().push(s.last())) =~= seq![s]);
    }
}

proof fn lemma_find_from_first(s: Seq<char>, p: Seq<char>, k: int, m: int)
    requires
        0 <= k <= m,
        occurs_at(s, p, m),
        forall|j: int| k <= j < m ==> !occurs_at(s, p, j),
    ensures
        find_from(s, p, k) == Some(m),
    decreases m - k,
{
    if k < m {
        assert(!occurs_at(s, p, k));
        lemma_find_from_first(s, p, k + 1, m);
    }
}

/// The literal texts the parser looks for, character by character.
proof fn lemma_option_literals()
    ensures
        "removeparam"@ =~= seq!['r', 'e', 'm', 'o', 'v', 'e', 'p', 'a', 'r', 'a', 'm'],
        "removeparam="@ =~= seq!['r', 'e', 'm', 'o', 'v', 'e', 'p', 'a', 'r', 'a', 'm', '='],
        "domain="@ =~= seq!['d', 'o', 'm', 'a', 'i', 'n', '='],
        "@@"@ =~= seq!['@', '@'],
        "||"@ =~= seq!['|', '|'],
        !char_is_whitespace('$'),
        !char_is_whitespace('d'),
{
    reveal_strlit("removeparam");
    reveal_strlit("removeparam=");
    reveal_strlit("domain=");
    reveal_strlit("@@");
    reveal_strlit("||");
    assert('$' as u32 == 0x24);
    assert('d' as u32 == 0x64);
}

/// A line starting with `$` is no comment, exception or anchor.
proof fn lemma_dollar_line(line: Seq<char>)
    requires
        line.len() > 0,
        line[0] == '$',
    ensures
        has_prefix(line, seq!['$']),
        !has_prefix(line, seq!['!']),
        !has_prefix(line, seq!['#']),
        !has_prefix(line, "@@"@),
        !has_prefix(line, "||"@),
{
    lemma_option_literals();
    assert(line.take(1) =~= seq!['$']);
    if has_prefix(line, "@@"@) {
        assert(line.take(2)[0] == '$');
    }
    if has_prefix(line, "||"@) {
        assert(line.take(2)[0] == '$');
    }
    if has_prefix(line, seq!['!']) {
        assert(line.take(1)[0] == '$');
    }
    if has_prefix(line, seq!['#']) {
        assert(line.take(1)[0] == '$');
    }
}

/// The options after `removeparam=`: the parameter and the options that follow it.
proof fn lemma_option_parts_of(p: Seq<char>, more: Seq<char>)
    requires
        plain_option_text(p),
        forall|i: int| 0 <= i < more.len() ==> more[i] != ',',
        more.len() > 0,
        !char_is_whitespace(more[0]),
        !char_is_whitespace(more.last()),
    ensures
        option_parts("removeparam="@ + p) == (p, Seq::<Seq<char>>::empty()),
        option_parts("removeparam="@ + p + seq![','] + more) == (p, seq![more]),
{
    lemma_option_literals();
    let rpe = "removeparam="@;
    lemma_trim_unchanged(p);
    lemma_trim_unchanged(more);
    lemma_split_without_sep(p, ',');
    lemma_split_without_sep(more, ',');
    let x = rpe + p;
    assert(x.take(rpe.len() as int) =~= rpe);
    assert(x.skip(rpe.len() as int) =~= p);
    assert(seq![p].drop_first() =~= Seq::<Seq<char>>::empty());
    assert(trim_all(Seq::<Seq<char>>::empty()) =~= Seq::<Seq<char>>::empty());
    let y = rpe + p + seq![','] + more;
    assert(y.take(rpe.len() as int) =~= rpe);
    assert(y.skip(rpe.len() as int) =~= p.push(',') + more);
    lemma_split_on_join(p, more, ',');
    let parts = split_on(p.push(',') + more, ',');
    assert(parts =~= seq![p, more]);
    assert(parts.drop_first() =~= seq![more]);
    assert(trim_all(seq![more]) =~= seq![more]);
}

/// `$removeparam=p` with a plain parameter `p` gives one rule, for every domain and URL,
/// that removes the parameter named exactly `p` and no other: a parameter that merely
/// starts with `p` is kept.
pub proof fn lemma_plain_removeparam_line(
    p: Seq<char>,
    url_domain: Seq<char>,
    full_url: Seq<char>,
    name: Seq<char>,
)
    requires
        plain_option_text(p),
        p != seq!['*'],
        !is_regex_param(p),
    ensures
        parse_lines_spec(lines_of(seq!['$'] + "removeparam="@ + p)).len() == 1,
        removes_param(
            parse_lines_spec(lines_of(seq!['$'] + "removeparam="@ + p)),
            url_domain,
            full_url,
            name,
        ) <==> name == p,
{
    lemma_option_literals();
    let rp = "removeparam"@;
    let rpe = "removeparam="@;
    let c = seq!['$'] + rpe + p;
    lemma_dollar_line(c);
    lemma_trim_unchanged(c);
    // The first occurrence of `removeparam` is right after the `$`.
    assert(c.subrange(1, 1 + rp.len() as int) =~= rp);
    assert(!occurs_at(c, rp, 0)) by {
        assert(c.subrange(0, rp.len() as int)[0] == '$');
    }
    lemma_find_from_first(c, rp, 0, 1);
    assert(c.take(1) =~= seq!['$']);
    assert(seq!['$'].drop_last() =~= Seq::<char>::empty());
    let left = drop_separator(drop_separator(c.take(1)));
    assert(left =~= Seq::<char>::empty());
    assert(c.skip(1) =~= rpe + p);
    lemma_option_parts_of(p, seq!['x']);
    assert(left_modifiers(left) =~= Seq::<Seq<char>>::empty());
    assert(trim(left) =~= Seq::<char>::empty());
    let st = apply_modifiers(
        initial_domains(left),
        Seq::<Seq<char>>::empty() + left_modifiers(left),
    );
    assert(Seq::<Seq<char>>::empty() + left_modifiers(left) =~= Seq::<Seq<char>>::empty());
    let r = UboRuleView {
        parameter: p,
        is_regex: false,
        regex: None,
        domains: Seq::<Seq<char>>::empty(),
        excluded_domains: Seq::<Seq<char>>::empty(),
        is_global: true,
        url_pattern: None,
    };
    assert(parse_ubo_line_spec(c) == Some(r));
    // The text is one line.
    assert forall|i: int| 0 <= i < c.len() implies c[i] != '\n' by {
        if i > rpe.len() {
            assert(c[i] == p[i - 1 - rpe.len()]);
            assert('\n' as u32 == 0x0a);
        }
    }
    lemma_split_without_sep(c, '\n');
    assert(c.last() != '\n');
    assert(lines_of(c) =~= seq![c]);
    assert(seq![c].drop_last() =~= Seq::<Seq<char>>::empty());
    assert(seq![c].last() == c);
    assert(parse_lines_spec(seq![c]) == parse_lines_spec(Seq::<Seq<char>>::empty()).push(r));
    assert(parse_lines_spec(lines_of(c)) =~= seq![r]);
    lemma_plain_rule_removes_only_its_name(r, url_domain, full_url, name);
    if name == p {
        assert(rule_removes(seq![r][0], url_domain, full_url, name));
    }
}

/// The rule of a `$` line whose parameter is `p` and whose only option is `opt`.
spec fn single_option_rule(p: Seq<char>, opt: Seq<char>) -> Option<UboRuleView> {
    if is_regex_param(p) && !regex_accepts(regex_param_source(p)) {
        None
    } else {
        let st = apply_modifiers(initial_domains(Seq::<char>::empty()), seq![opt]);
        Some(
            UboRuleView {
                parameter: p,
                is_regex: is_regex_param(p),
                regex: if is_regex_param(p) {
                    Some(regex_param_source(p))
                } else {
                    None
                },
                domains: st.domains,
                excluded_domains: st.excluded,
                is_global: st.global,
                url_pattern: None,
            },
        )
    }
}

/// In `$domain=d,removeparam=p`, the first `removeparam` follows the comma after `d`.
proof fn lemma_removeparam_after_domain(d: Seq<char>, p: Seq<char>)
    requires
        plain_option_text(d),
        !contains_seq(d, "removeparam"@),
    ensures
        find_seq(seq!['$'] + "domain="@ + d + seq![','] + "removeparam="@ + p, "removeparam"@)
            == Some(9 + d.len() as int),
{
    lemma_option_literals();
    let rp = "removeparam"@;
    let a = seq!['$'] + "domain="@ + d + seq![','] + "removeparam="@ + p;
    let m: int = 9 + d.len() as int;
    assert(a.subrange(m, m + rp.len() as int) =~= rp);
    assert forall|j: int| 0 <= j < m implies !occurs_at(a, rp, j) by {
        if occurs_at(a, rp, j) {
            let w = a.subrange(j, j + rp.len());
            assert(w[0] == a[j]);
            if j < 8 {
                assert(a[j] != 'r');
            } else if j + rp.len() > m - 1 {
                assert(w[m - 1 - j] == a[m - 1]);
                assert(a[m - 1] == ',');
            } else {
                assert(w =~= d.subrange(j - 8, j - 8 + rp.len()));
                assert(occurs_at(d, rp, j - 8));
            }
        }
    }
    lemma_find_from_first(a, rp, 0, m);
}

/// `$domain=d,removeparam=p` gives the rule with parameter `p` and the one option
/// `domain=d`.
proof fn lemma_domain_first_line(d: Seq<char>, p: Seq<char>)
    requires
        plain_option_text(d),
        plain_option_text(p),
        !contains_seq(d, "removeparam"@),
    ensures
        parse_ubo_line_spec(seq!['$'] + "domain="@ + d + seq![','] + "removeparam="@ + p)
            == single_option_rule(p, "domain="@ + d),
{
    lemma_option_literals();
    let rpe = "removeparam="@;
    let dd = "domain="@ + d;
    assert(forall|i: int| 0 <= i < dd.len() ==> dd[i] != ',');
    let a = seq!['$'] + "domain="@ + d + seq![','] + rpe + p;
    lemma_dollar_line(a);
    lemma_trim_unchanged(a);
    lemma_trim_unchanged(dd);
    lemma_removeparam_after_domain(d, p);
    let m: int = 9 + d.len() as int;
    assert(a.take(m) =~= (seq!['$'] + dd).push(','));
    assert((seq!['$'] + dd).push(',').drop_last() =~= seq!['$'] + dd);
    let left_a = seq!['$'] + dd;
    assert(left_a.last() == d.last());
    assert(drop_separator(drop_separator(a.take(m))) == left_a);
    assert(a.skip(m) =~= rpe + p);
    lemma_option_parts_of(p, dd);
    lemma_dollar_line(left_a);
    assert(left_a.drop_first() =~= dd);
    lemma_split_without_sep(dd, ',');
    assert(trim_all(seq![dd]) =~= seq![dd]);
    assert(left_modifiers(left_a) == seq![dd]);
    lemma_trim_unchanged(left_a);
    assert(initial_domains(left_a) == initial_domains(Seq::<char>::empty()));
    assert(Seq::<Seq<char>>::empty() + seq![dd] =~= seq![dd]);
}

/// `$removeparam=p,domain=d` gives the rule with parameter `p` and the one option
/// `domain=d`.
proof fn lemma_domain_last_line(d: Seq<char>, p: Seq<char>)
    requires
        plain_option_text(d),
        plain_option_text(p),
    ensures
        parse_ubo_line_spec(seq!['$'] + "removeparam="@ + p + seq![','] + "domain="@ + d)
            == single_option_rule(p, "domain="@ + d),
{
    lemma_option_literals();
    let rp = "removeparam"@;
    let rpe = "removeparam="@;
    let dd = "domain="@ + d;
    assert(forall|i: int| 0 <= i < dd.len() ==> dd[i] != ',');
    let b = seq!['$'] + rpe + p + seq![','] + "domain="@ + d;
    lemma_dollar_line(b);
    lemma_trim_unchanged(b);
    assert(b.subrange(1, 1 + rp.len() as int) =~= rp);
    assert(!occurs_at(b, rp, 0)) by {
        assert(b.subrange(0, rp.len() as int)[0] == '$');
    }
    lemma_find_from_first(b, rp, 0, 1);
    assert(b.take(1) =~= seq!['$']);
    assert(seq!['$'].drop_last() =~= Seq::<char>::empty());
    let left_b = drop_separator(drop_separator(b.take(1)));
    assert(left_b =~= Seq::<char>::empty());
    assert(b.skip(1) =~= rpe + p + seq![','] + dd);
    lemma_trim_unchanged(dd);
    lemma_option_parts_of(p, dd);
    assert(left_modifiers(left_b) =~= Seq::<Seq<char>>::empty());
    assert(trim(left_b) =~= Seq::<char>::empty());
    assert(seq![dd] + Seq::<Seq<char>>::empty() =~= seq![dd]);
}

/// Options written before `removeparam`, as `$domain=d,removeparam=p`, count like those
/// written after it, as `$removeparam=p,domain=d`: both lines give the same rule, which
/// is limited to the domains of `d` and so not global.
pub proof fn lemma_options_before_removeparam_count_alike(d: Seq<char>, p: Seq<char>)
    requires
        plain_option_text(d),
        plain_option_text(p),
        !contains_seq(d, "removeparam"@),
    ensures
        parse_ubo_line_spec(seq!['$'] + "domain="@ + d + seq![','] + "removeparam="@ + p)
            == parse_ubo_line_spec(seq!['$'] + "removeparam="@ + p + seq![','] + "domain="@ + d),
        parse_ubo_line_spec(seq!['$'] + "domain="@ + d + seq![','] + "removeparam="@ + p) matches Some(
            r,
        ) ==> !r.is_global,
{
    lemma_domain_first_line(d, p);
    lemma_domain_last_line(d, p);
    lemma_option_literals();
    let dm = "domain="@;
    let dd = dm + d;
    let init = initial_domains(Seq::<char>::empty());
    assert(seq![dd].drop_last() =~= Seq::<Seq<char>>::empty());
    assert(dd.take(dm.len() as int) =~= dm);
    let st0 = DomainSets { domains: init.domains, excluded: init.excluded, global: false };
    lemma_domain_list_keeps(st0, split_on(dd.skip(dm.len() as int), '|'), false);
    assert(seq![dd].last() == dd);
    assert(apply_modifiers(init, Seq::<Seq<char>>::empty()) == init);
    assert(apply_modifiers(init, seq![dd]) == apply_modifier(init, dd));
}

} // verus!
