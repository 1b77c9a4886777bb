//! Regular expressions, through the `regex` crate.
//!
//! A `CompiledRegex` keeps the pattern it was compiled from next to the compiled
//! `regex::Regex`; its fields are private to this module and the one way to make one
//! is `CompiledRegex::new`, so the pattern always names the compiled expression.
//! What the crate computes for a pattern and a haystack is named by the
//! specification functions below.
use vstd::prelude::*;

verus! {

#[verifier::external_type_specification]
#[verifier::external_body]
pub struct ExRegex(regex::Regex);

#[verifier::external_type_specification]
#[verifier::external_body]
pub struct ExRegexError(regex::Error);

/// Whether `regex::Regex::new` accepts the pattern.
pub uninterp spec fn regex_accepts(pattern: Seq<char>) -> bool;

/// What `regex::Regex::is_match` answers for the pattern and haystack.
pub uninterp spec fn regex_finds(pattern: Seq<char>, haystack: Seq<char>) -> bool;

/// What `regex::Regex::replace_all` returns for the pattern, haystack and replacement string.
pub uninterp spec fn regex_replaces(
    pattern: Seq<char>,
    haystack: Seq<char>,
    replacement: Seq<char>,
) -> Seq<char>;

/// What `regex::Regex::captures_iter` finds for the pattern in the haystack, in order,
/// with the text after the last match.
pub uninterp spec fn regex_captures(pattern: Seq<char>, haystack: Seq<char>) -> (
    Seq<CaptureView>,
    Seq<char>,
);

/// One capture group that took part in a match: its text and the character of the
/// haystack right after it, if there is one.
pub struct GroupMatch {
    pub text: String,
    pub next_char: Option<char>,
}

/// One match of a regular expression: the haystack text between the previous match
/// (or the start) and this one, and its capture groups, group 0 being the whole match.
pub struct Capture {
    pub gap: String,
    pub groups: Vec<Option<GroupMatch>>,
}

/// The view of a group that took part in a match.
pub struct GroupView {
    pub text: Seq<char>,
    pub next_char: Option<char>,
}

/// The view of a match.
pub struct CaptureView {
    pub gap: Seq<char>,
    pub groups: Seq<Option<GroupView>>,
}

impl View for GroupMatch {
    type V = GroupView;

    open spec fn view(&self) -> GroupView {
        GroupView { text: self.text@, next_char: self.next_char }
    }
}

/// The view of a group slot of a match.
pub open spec fn group_slot_view(g: Option<GroupMatch>) -> Option<GroupView> {
    match g {
        Some(m) => Some(m@),
        None => None,
    }
}

impl View for Capture {
    type V = CaptureView;

    open spec fn view(&self) -> CaptureView {
        CaptureView {
            gap: self.gap@,
            groups: self.groups@.map_values(|g: Option<GroupMatch>| group_slot_view(g)),
        }
    }
}

/// The views of a sequence of matches.
pub open spec fn captures_view(c: Seq<Capture>) -> Seq<CaptureView> {
    c.map_values(|x: Capture| x@)
}

/// The text of group `i` of a match, if that group took part in it.
pub open spec fn group_text(c: CaptureView, i: int) -> Option<Seq<char>> {
    if 0 <= i < c.groups.len() {
        match c.groups[i] {
            Some(g) => Some(g.text),
            None => None,
        }
    } else {
        None
    }
}

/// The text of group `i` of a match, or nothing if that group did not take part.
pub open spec fn group_or_empty(c: CaptureView, i: int) -> Seq<char> {
    match group_text(c, i) {
        Some(t) => t,
        None => Seq::<char>::empty(),
    }
}

/// The haystack covered by the matches: each gap followed by its whole match.
pub open spec fn covered_text(caps: Seq<CaptureView>) -> Seq<char>
    decreases caps.len(),
{
    if caps.len() == 0 {
        Seq::<char>::empty()
    } else {
        covered_text(caps.drop_last()) + caps.last().gap + group_or_empty(caps.last(), 0)
    }
}

/// A regular expression with the pattern it was compiled from.
pub struct CompiledRegex {
    source: String,
    re: regex::Regex,
}

impl CompiledRegex {
    /// The pattern this expression was compiled from.
    pub closed spec fn source(&self) -> Seq<char> {
        self.source@
    }

    /// `regex::Regex::new`: compiles the pattern; an error exactly when the crate
    /// rejects it.
    #[verifier::external_body]
    pub(crate) fn new(pattern: &str) -> (r: Result<CompiledRegex, regex::Error>)
        ensures
            r is Ok <==> regex_accepts(pattern@),
            r matches Ok(c) ==> c.source() == pattern@,
    {
        match regex::Regex::new(pattern) {
            Ok(re) => Ok(CompiledRegex { source: pattern.to_string(), re }),
            Err(e) => Err(e),
        }
    }

    /// The pattern this expression was compiled from.
    pub fn as_str(&self) -> (r: &str)
        ensures
            r@ == self.source(),
    {
        self.source.as_str()
    }

    /// `regex::Regex::is_match`: whether the expression matches anywhere in the haystack.
    #[verifier::external_body]
    pub(crate) fn is_match(&self, haystack: &str) -> (b: bool)
        ensures
            b == regex_finds(self.source(), haystack@),
    {
        self.re.is_match(haystack)
    }

    /// `regex::Regex::replace_all` with a replacement string (where `$1`, `${1}`, ...
    /// stand for capture groups). The crate documents that a haystack without a match
    /// comes back unchanged.
    #[verifier::external_body]
    pub(crate) fn replace_all(&self, haystack: &str, replacement: &str) -> (r: String)
        ensures
            r@ == regex_replaces(self.source(), haystack@, replacement@),
            !regex_finds(self.source(), haystack@) ==> r@ == haystack@,
    {
        self.re.replace_all(haystack, replacement).into_owned()
    }

    /// `regex::Regex::captures_iter`: the successive non-overlapping matches, each with
    /// the haystack text before it and its groups (the char after each group taken from
    /// the haystack), and the haystack after the last match. As the crate documents,
    /// group 0 of every match is present, and the gaps and whole matches in order,
    /// followed by the rest, make up the haystack.
    #[verifier::external_body]
    pub(crate) fn captures(&self, haystack: &str) -> (r: (Vec<Capture>, String))
        ensures
            (captures_view(r.0@), r.1@) == regex_captures(self.source(), haystack@),
            forall|k: int|
                0 <= k < r.0@.len() ==> #[trigger] group_text(r.0@[k]@, 0) is Some,
            haystack@ == covered_text(captures_view(r.0@)) + r.1@,
    {
        let (mut out, mut last) = (Vec::new(), 0);
        for caps in self.re.captures_iter(haystack) {
            let groups = (0..caps.len()).map(|i| caps.get(i).map(|g| GroupMatch {
                text: g.as_str().to_string(),
                next_char: haystack[g.end()..].chars().next(),
            })).collect();
            out.push(Capture { gap: haystack[last..caps.get_match().start()].to_string(), groups });
            last = caps.get_match().end();
        }
        (out, haystack[last..].to_string())
    }
}

} // verus!
