//! What happens to new clipboard text: tracking parameters are stripped from its links,
//! then the literal replacements and then the regular-expression rules are applied.
use vstd::prelude::*;
use crate::config::{
    CompiledRule, SimpleReplacement, accepted_rules, compiled_views, default_rule_pairs,
    replacement_views,
};
use crate::matcher::{regex_accepts, regex_finds, regex_replaces};
use crate::text::{chars_eq, chars_of, contains_literal, contains_seq, replace_literal, replace_spec};
use crate::ubo::{UboRule, filter_query_parameters, filter_spec, rule_views};

verus! {

// ----------------------------------------------------------------------------
// The whole transformation
// ----------------------------------------------------------------------------

/// The text after the literal replacements, in order, and whether any of them found
/// its pattern.
pub open spec fn after_replacements(t: Seq<char>, reps: Seq<(Seq<char>, Seq<char>)>) -> (
    Seq<char>,
    bool,
)
    decreases reps.len(),
{
    if reps.len() == 0 {
        (t, false)
    } else {
        let prev = after_replacements(t, reps.drop_last());
        let rep = reps.last();
        if contains_seq(prev.0, rep.0) {
            (replace_spec(prev.0, rep.0, rep.1), true)
        } else {
            prev
        }
    }
}

/// The text after the regular-expression rules, in order, and whether any of them
/// changed it.
pub open spec fn after_rules(t: Seq<char>, rules: Seq<(Seq<char>, Seq<char>)>) -> (Seq<char>, bool)
    decreases rules.len(),
{
    if rules.len() == 0 {
        (t, false)
    } else {
        let prev = after_rules(t, rules.drop_last());
        let rule = rules.last();
        if regex_finds(rule.0, prev.0) && regex_replaces(rule.0, prev.0, rule.1) != prev.0 {
            (regex_replaces(rule.0, prev.0, rule.1), true)
        } else {
            prev
        }
    }
}

/// The clipboard text after all three stages, and whether any stage acted on it:
/// the filtering changed it, a literal pattern was found, or a rule changed it.
pub open spec fn transform_spec(
    text: Seq<char>,
    ubo: Seq<crate::ubo::UboRuleView>,
    reps: Seq<(Seq<char>, Seq<char>)>,
    rules: Seq<(Seq<char>, Seq<char>)>,
) -> (Seq<char>, bool) {
    let filtered = filter_spec(text, ubo);
    let replaced = after_replacements(filtered, reps);
    let ruled = after_rules(replaced.0, rules);
    (ruled.0, filtered != text || replaced.1 || ruled.1)
}

/// A stage that reports no action leaves its text as it was.
proof fn lemma_after_replacements_unchanged(t: Seq<char>, reps: Seq<(Seq<char>, Seq<char>)>)
    ensures
        !after_replacements(t, reps).1 ==> after_replacements(t, reps).0 == t,
    decreases reps.len(),
{
    if reps.len() > 0 {
        lemma_after_replacements_unchanged(t, reps.drop_last());
    }
}

proof fn lemma_after_rules_unchanged(t: Seq<char>, rules: Seq<(Seq<char>, Seq<char>)>)
    ensures
        !after_rules(t, rules).1 ==> after_rules(t, rules).0 == t,
    decreases rules.len(),
{
    if rules.len() > 0 {
        lemma_after_rules_unchanged(t, rules.drop_last());
    }
}

/// When the transformation reports no change, the text is exactly what it was; the
/// clipboard is only written when something acted on it.
pub proof fn lemma_transform_unchanged_text(
    text: Seq<char>,
    ubo: Seq<crate::ubo::UboRuleView>,
    reps: Seq<(Seq<char>, Seq<char>)>,
    rules: Seq<(Seq<char>, Seq<char>)>,
)
    ensures
        !transform_spec(text, ubo, reps, rules).1 ==> transform_spec(text, ubo, reps, rules).0
            == text,
{
    let filtered = filter_spec(text, ubo);
    lemma_after_replacements_unchanged(filtered, reps);
    lemma_after_rules_unchanged(after_replacements(filtered, reps).0, rules);
}

/// Applies the filtering of tracking parameters, then the literal replacements, then
/// the regular-expression rules to clipboard text. Returns the new text and whether
/// any stage acted on it.
pub fn transform_text(
    text: &str,
    ubo_rules: &[UboRule],
    replacements: &[SimpleReplacement],
    rules: &[CompiledRule],
) -> (r: (String, bool))
    ensures
        (r.0@, r.1) == transform_spec(
            text@,
            rule_views(ubo_rules@),
            replacement_views(replacements@),
            compiled_views(rules@),
        ),
{
    let filtered = filter_query_parameters(text, ubo_rules);
    let input_chars = chars_of(text);
    let mut current = chars_of(filtered.as_str());
    let mut changed = !chars_eq(&current, &input_chars);
    let ghost reps = replacement_views(replacements@);
    let ghost rv = compiled_views(rules@);
    let n = replacements.len();
    assert(after_replacements(current@, reps.take(0)) == (current@, false));
    let ghost filtered_v = current@;
    let ghost filter_changed = changed;
    for i in 0..n
        invariant
            n == replacements@.len(),
            reps == replacement_views(replacements@),
            (current@, changed) == (after_replacements(filtered_v, reps.take(i as int)).0,
                filter_changed || after_replacements(filtered_v, reps.take(i as int)).1),
    {
        let rep = &replacements[i];
        let pat = chars_of(rep.pattern.as_str());
        assert(reps.take(i + 1).drop_last() =~= reps.take(i as int));
        assert(reps[i as int] == (rep.pattern@, rep.to@));
        if contains_literal(&current, &pat) {
            let to = chars_of(rep.to.as_str());
            current = replace_literal(&current, &pat, &to);
            changed = true;
        }
    }
    assert(reps.take(n as int) =~= reps);
    let ghost replaced_v = current@;
    let ghost replaced_changed = changed;
    let m = rules.len();
    for j in 0..m
        invariant
            m == rules@.len(),
            rv == compiled_views(rules@),
            (current@, changed) == (after_rules(replaced_v, rv.take(j as int)).0, replaced_changed
                || after_rules(replaced_v, rv.take(j as int)).1),
    {
        let rule = &rules[j];
        assert(rv.take(j + 1).drop_last() =~= rv.take(j as int));
        assert(rv[j as int] == (rule.regex.source(), rule.to@));
        let cur_s = crate::text::string_of(&current);
        if rule.regex.is_match(cur_s.as_str()) {
            let new_text = rule.regex.replace_all(cur_s.as_str(), rule.to.as_str());
            let new_chars = chars_of(new_text.as_str());
            if !chars_eq(&new_chars, &current) {
                current = new_chars;
                changed = true;
            }
        }
    }
    assert(rv.take(m as int) =~= rv);
    (crate::text::string_of(&current), changed)
}

// ----------------------------------------------------------------------------
// The built-in rules
// ----------------------------------------------------------------------------

/// One rule applied to a text: the text with every match of `pattern` replaced by `to`
/// when there is a match and the replacement changes the text, else the text as it was.
pub open spec fn rule_step(pattern: Seq<char>, to: Seq<char>, t: Seq<char>) -> Seq<char> {
    if regex_finds(pattern, t) && regex_replaces(pattern, t, to) != t {
        regex_replaces(pattern, t, to)
    } else {
        t
    }
}

/// The built-in rules, applied to any text: first x.com status links become fixupx.com
/// links, then twitter.com status links fxtwitter.com links, then pixiv artwork links,
/// with or without a language segment before `artworks/`, phixiv.net links that keep
/// that segment. (Each pattern is one the regex crate accepts.)
pub proof fn lemma_default_rules_rewrite_links(u: Seq<char>)
    requires
        regex_accepts(r"(?:\bhttps?://)?(?:\bwww\.)?\bx\.com/([a-zA-Z0-9_]{1,15}/status/\d+)"@),
        regex_accepts(r"(?:\bhttps?://)?(?:\bwww\.)?\btwitter\.com/([a-zA-Z0-9_]{1,15}/status/\d+)"@),
        regex_accepts(r"(?:\bhttps?://)?(?:\bwww\.)?\bpixiv\.net/([^/]+/)?artworks/(\d+)"@),
    ensures
        after_rules(u, accepted_rules(default_rule_pairs())).0 == rule_step(
            r"(?:\bhttps?://)?(?:\bwww\.)?\bpixiv\.net/([^/]+/)?artworks/(\d+)"@,
            "https://phixiv.net/${1}artworks/$2"@,
            rule_step(
                r"(?:\bhttps?://)?(?:\bwww\.)?\btwitter\.com/([a-zA-Z0-9_]{1,15}/status/\d+)"@,
                "https://fxtwitter.com/$1"@,
                rule_step(
                    r"(?:\bhttps?://)?(?:\bwww\.)?\bx\.com/([a-zA-Z0-9_]{1,15}/status/\d+)"@,
                    "https://fixupx.com/$1"@,
                    u,
                ),
            ),
        ),
{
    let all = default_rule_pairs();
    let e = Seq::<(Seq<char>, Seq<char>)>::empty();
    let one = all.drop_last().drop_last();
    let two = all.drop_last();
    assert(one.drop_last() =~= e);
    assert(one.last() == all[0]);
    assert(two.drop_last() =~= one);
    assert(two.last() == all[1]);
    assert(all.last() == all[2]);
    assert(accepted_rules(e) == e);
    assert(accepted_rules(one) =~= one);
    assert(accepted_rules(two) =~= two);
    assert(accepted_rules(all) =~= all);
    assert(after_rules(u, e) == (u, false));
    assert(after_rules(u, one).0 == rule_step(all[0].0, all[0].1, u));
    assert(after_rules(u, two).0 == rule_step(all[1].0, all[1].1, after_rules(u, one).0));
    assert(after_rules(u, all).0 == rule_step(all[2].0, all[2].1, after_rules(u, two).0));
}


} // verus!
