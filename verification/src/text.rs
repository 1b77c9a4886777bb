//! Character-level text primitives: the sequences of `char` that strings view as,
//! and the searching, splitting and trimming that the rule engine is built from.
use vstd::prelude::*;
use vstd::string::StringSliceAdditionalSpecFns;

verus! {

// ----------------------------------------------------------------------------
// What std decides about single characters and case
// ----------------------------------------------------------------------------

/// Whether a character has Unicode's `White_Space` property, as `char::is_whitespace`
/// decides it: tab, line feed, vertical tab, form feed, carriage return, space, next
/// line, no-break space, ogham space mark, the spaces U+2000 to U+200A, line separator,
/// paragraph separator, narrow no-break space, medium mathematical space and
/// ideographic space.
pub open spec fn char_is_whitespace(c: char) -> bool {
    let u = c as u32;
    (0x09 <= u <= 0x0d) || u == 0x20 || u == 0x85 || u == 0xa0 || u == 0x1680 || (0x2000 <= u
        <= 0x200a) || u == 0x2028 || u == 0x2029 || u == 0x202f || u == 0x205f || u == 0x3000
}

/// Whether `char::is_alphanumeric` holds of a character (Unicode `Alphabetic` or `Numeric`).
pub uninterp spec fn char_is_alphanumeric(c: char) -> bool;

/// What `str::to_lowercase` returns for a string with the given characters.
pub uninterp spec fn lowercase(s: Seq<char>) -> Seq<char>;

/// Whether a character is whitespace (Unicode `White_Space`), as `char::is_whitespace`.
pub fn is_whitespace(c: char) -> (b: bool)
    ensures
        b == char_is_whitespace(c),
{
    let u = c as u32;
    (0x09 <= u && u <= 0x0d) || u == 0x20 || u == 0x85 || u == 0xa0 || u == 0x1680 || (0x2000 <= u
        && u <= 0x200a) || u == 0x2028 || u == 0x2029 || u == 0x202f || u == 0x205f || u == 0x3000
}

/// `char::is_alphanumeric`; its result is taken to be `char_is_alphanumeric(c)`.
#[verifier::external_body]
pub(crate) fn is_alphanumeric(c: char) -> (b: bool)
    ensures
        b == char_is_alphanumeric(c),
{
    c.is_alphanumeric()
}

/// `str::to_lowercase`; its result is taken to be `lowercase(s@)`.
#[verifier::external_body]
pub(crate) fn to_lowercase(s: &str) -> (r: String)
    ensures
        r@ == lowercase(s@),
{
    s.to_lowercase()
}

/// `String::push`: the string afterwards holds one more character at its end.
#[verifier::external_body]
pub(crate) fn push_char(s: &mut String, c: char)
    ensures
        final(s)@ == old(s)@.push(c),
{
    s.push(c);
}

// ----------------------------------------------------------------------------
// Specifications
// ----------------------------------------------------------------------------

/// `p` is a prefix of `s`.
pub open spec fn has_prefix(s: Seq<char>, p: Seq<char>) -> bool {
    p.len() <= s.len() && s.take(p.len() as int) == p
}

/// `p` is a suffix of `s`.
pub open spec fn has_suffix(s: Seq<char>, p: Seq<char>) -> bool {
    p.len() <= s.len() && s.skip(s.len() - p.len()) == p
}

/// `p` occurs in `s` starting at index `i`.
pub open spec fn occurs_at(s: Seq<char>, p: Seq<char>, i: int) -> bool {
    0 <= i && i + p.len() <= s.len() && s.subrange(i, i + p.len()) == p
}

/// `p` occurs somewhere in `s`.
pub open spec fn contains_seq(s: Seq<char>, p: Seq<char>) -> bool {
    exists|i: int| occurs_at(s, p, i)
}

/// The first index at or after `i` where `p` occurs in `s`.
pub open spec fn find_from(s: Seq<char>, p: Seq<char>, i: int) -> Option<int>
    decreases s.len() + 1 - i,
{
    if i < 0 || i + p.len() > s.len() {
        None
    } else if occurs_at(s, p, i) {
        Some(i)
    } else {
        find_from(s, p, i + 1)
    }
}

/// The first index where `p` occurs in `s` (`str::find`, counted in characters).
pub open spec fn find_seq(s: Seq<char>, p: Seq<char>) -> Option<int> {
    find_from(s, p, 0)
}

/// The pieces of `s` between the occurrences of `sep` (`str::split` by a character).
pub open spec fn split_on(s: Seq<char>, sep: char) -> Seq<Seq<char>>
    decreases s.len(),
{
    if s.len() == 0 {
        seq![Seq::<char>::empty()]
    } else {
        let rest = split_on(s.drop_last(), sep);
        if s.last() == sep {
            rest.push(Seq::<char>::empty())
        } else {
            rest.update(rest.len() - 1, rest.last().push(s.last()))
        }
    }
}

/// `s` without its leading whitespace.
pub open spec fn trim_start(s: Seq<char>) -> Seq<char>
    decreases s.len(),
{
    if s.len() > 0 && char_is_whitespace(s[0]) {
        trim_start(s.drop_first())
    } else {
        s
    }
}

/// `s` without its trailing whitespace.
pub open spec fn trim_end(s: Seq<char>) -> Seq<char>
    decreases s.len(),
{
    if s.len() > 0 && char_is_whitespace(s.last()) {
        trim_end(s.drop_last())
    } else {
        s
    }
}

/// `s` without leading and trailing whitespace (`str::trim`).
pub open spec fn trim(s: Seq<char>) -> Seq<char> {
    trim_end(trim_start(s))
}

/// `s` without the copies of `c` at its end (`str::trim_end_matches` with a character).
pub open spec fn trim_end_char(s: Seq<char>, c: char) -> Seq<char>
    decreases s.len(),
{
    if s.len() > 0 && s.last() == c {
        trim_end_char(s.drop_last(), c)
    } else {
        s
    }
}

/// The views of a sequence of character vectors.
pub open spec fn views(v: Seq<Vec<char>>) -> Seq<Seq<char>> {
    v.map_values(|x: Vec<char>| x@)
}

/// A line without the carriage return that ends it, if any.
pub open spec fn strip_cr(s: Seq<char>) -> Seq<char> {
    if s.len() > 0 && s.last() == '\r' {
        s.drop_last()
    } else {
        s
    }
}

/// The lines of `s` (`str::lines`): split at `\n`, a `\r` before a `\n` dropped,
/// and no empty line after a final line ending.
pub open spec fn lines_of(s: Seq<char>) -> Seq<Seq<char>> {
    let parts = split_on(s, '\n');
    let n = if s.len() == 0 || s.last() == '\n' {
        parts.len() - 1
    } else {
        parts.len() as int
    };
    Seq::new(n as nat, |i: int| if i < parts.len() - 1 { strip_cr(parts[i]) } else { parts[i] })
}

// ----------------------------------------------------------------------------
// Lemmas
// ----------------------------------------------------------------------------

/// `split_on` always yields at least one piece.
pub proof fn lemma_split_on_nonempty(s: Seq<char>, sep: char)
    ensures
        split_on(s, sep).len() >= 1,
    decreases s.len(),
{
    if s.len() > 0 {
        lemma_split_on_nonempty(s.drop_last(), sep);
    }
}

/// A one-character prefix is a first character.
pub proof fn lemma_prefix_char(s: Seq<char>, c: char)
    ensures
        has_prefix(s, seq![c]) == (s.len() > 0 && s[0] == c),
{
    if s.len() > 0 {
        assert(s.take(1) =~= seq![s[0]]);
        if has_prefix(s, seq![c]) {
            assert(s.take(1)[0] == c);
        }
    }
}

/// Trimming the start of a suffix that began after leading whitespace changes nothing.
proof fn lemma_trim_start_skip(s: Seq<char>, i: int)
    requires
        0 <= i < s.len(),
        char_is_whitespace(s[i]),
    ensures
        trim_start(s.skip(i)) == trim_start(s.skip(i + 1)),
{
    assert(s.skip(i).drop_first() =~= s.skip(i + 1));
}

/// Trimming the end of a prefix that ends in whitespace changes nothing.
proof fn lemma_trim_end_take(s: Seq<char>, i: int)
    requires
        0 < i <= s.len(),
        char_is_whitespace(s[i - 1]),
    ensures
        trim_end(s.take(i)) == trim_end(s.take(i - 1)),
{
    assert(s.take(i).drop_last() =~= s.take(i - 1));
}

// ----------------------------------------------------------------------------
// Executable primitives
// ----------------------------------------------------------------------------

/// The characters of a string slice, in order.
pub fn chars_of(s: &str) -> (v: Vec<char>)
    ensures
        v@ == s@,
{
    let mut v: Vec<char> = Vec::new();
    for c in it: s.chars()
        invariant
            v@ == it.seq().take(it.index() as int),
    {
        v.push(c);
    }
    v
}

/// Appends the given characters to a string.
pub fn push_chars(dst: &mut String, src: &Vec<char>)
    ensures
        final(dst)@ == old(dst)@ + src@,
{
    let ghost start = dst@;
    let n = src.len();
    for i in 0..n
        invariant
            n == src@.len(),
            dst@ == start + src@.take(i as int),
    {
        push_char(dst, src[i]);
        assert(src@.take(i + 1) =~= src@.take(i as int).push(src@[i as int]));
    }
    assert(src@.take(n as int) =~= src@);
}

/// Appends the characters of a string slice to a string.
pub fn push_str(dst: &mut String, src: &str)
    ensures
        final(dst)@ == old(dst)@ + src@,
{
    let cs = chars_of(src);
    push_chars(dst, &cs);
}

/// A string with the given characters.
pub fn string_of(v: &Vec<char>) -> (s: String)
    ensures
        s@ == v@,
{
    let mut s = String::new();
    push_chars(&mut s, v);
    assert(s@ =~= v@);
    s
}

/// The characters of `s` from index `lo` up to (not including) `hi`.
pub fn slice_of(s: &Vec<char>, lo: usize, hi: usize) -> (r: Vec<char>)
    requires
        lo <= hi <= s@.len(),
    ensures
        r@ == s@.subrange(lo as int, hi as int),
{
    let mut r: Vec<char> = Vec::new();
    let mut i = lo;
    while i < hi
        invariant
            lo <= i <= hi <= s@.len(),
            r@ == s@.subrange(lo as int, i as int),
        decreases hi - i,
    {
        r.push(s[i]);
        i += 1;
        assert(s@.subrange(lo as int, i as int) =~= s@.subrange(lo as int, i - 1).push(
            s@[i - 1],
        ));
    }
    r
}

/// The concatenation of two character vectors.
pub fn concat(a: &Vec<char>, b: &Vec<char>) -> (r: Vec<char>)
    ensures
        r@ == a@ + b@,
{
    let mut r = a.clone();
    let n = b.len();
    for i in 0..n
        invariant
            n == b@.len(),
            r@ == a@ + b@.take(i as int),
    {
        r.push(b[i]);
        assert(b@.take(i + 1) =~= b@.take(i as int).push(b@[i as int]));
    }
    assert(b@.take(n as int) =~= b@);
    r
}

/// Whether two character vectors are equal.
pub fn chars_eq(a: &Vec<char>, b: &Vec<char>) -> (r: bool)
    ensures
        r == (a@ == b@),
{
    if a.len() != b.len() {
        return false;
    }
    let n = a.len();
    for i in 0..n
        invariant
            n == a@.len(),
            n == b@.len(),
            a@.take(i as int) == b@.take(i as int),
    {
        if a[i] != b[i] {
            return false;
        }
        assert(a@.take(i + 1) =~= a@.take(i as int).push(a@[i as int]));
        assert(b@.take(i + 1) =~= b@.take(i as int).push(b@[i as int]));
    }
    assert(a@ =~= a@.take(n as int));
    assert(b@ =~= b@.take(n as int));
    true
}

/// Whether `p` occurs in `s` at index `i`.
pub fn occurs_at_exec(s: &Vec<char>, p: &Vec<char>, i: usize) -> (r: bool)
    ensures
        r == occurs_at(s@, p@, i as int),
{
    if i > s.len() || p.len() > s.len() - i {
        return false;
    }
    let n = p.len();
    for j in 0..n
        invariant
            n == p@.len(),
            s.len() == s@.len(),
            i + n <= s.len(),
            s@.subrange(i as int, i + j) == p@.take(j as int),
    {
        if s[i + j] != p[j] {
            assert(s@.subrange(i as int, i + n)[j as int] != p@[j as int]);
            return false;
        }
        assert(s@.subrange(i as int, i + j + 1) =~= s@.subrange(i as int, i + j).push(
            s@[i + j],
        ));
        assert(p@.take(j + 1) =~= p@.take(j as int).push(p@[j as int]));
    }
    assert(p@.take(n as int) =~= p@);
    true
}

/// Whether `p` is a prefix of `s`.
pub fn starts_with(s: &Vec<char>, p: &Vec<char>) -> (r: bool)
    ensures
        r == has_prefix(s@, p@),
{
    let r = occurs_at_exec(s, p, 0);
    assert(s@.subrange(0, p@.len() as int) =~= s@.take(p@.len() as int));
    r
}

/// Whether `p` is a suffix of `s`.
pub fn ends_with(s: &Vec<char>, p: &Vec<char>) -> (r: bool)
    ensures
        r == has_suffix(s@, p@),
{
    if p.len() > s.len() {
        return false;
    }
    let r = occurs_at_exec(s, p, s.len() - p.len());
    assert(s@.subrange(s@.len() - p@.len(), s@.len() as int) =~= s@.skip(
        s@.len() - p@.len(),
    ));
    r
}

/// Whether `s` starts with the character `c`.
pub fn starts_with_char(s: &Vec<char>, c: char) -> (r: bool)
    ensures
        r == (s@.len() > 0 && s@[0] == c),
{
    s.len() > 0 && s[0] == c
}

/// Whether `s` ends with the character `c`.
pub fn ends_with_char(s: &Vec<char>, c: char) -> (r: bool)
    ensures
        r == (s@.len() > 0 && s@.last() == c),
{
    s.len() > 0 && s[s.len() - 1] == c
}

/// The first index where `p` occurs in `s`.
pub fn find(s: &Vec<char>, p: &Vec<char>) -> (r: Option<usize>)
    ensures
        match r {
            Some(i) => find_seq(s@, p@) == Some(i as int) && occurs_at(s@, p@, i as int),
            None => find_seq(s@, p@) is None,
        },
{
    let mut i: usize = 0;
    while i <= s.len() && p.len() <= s.len() - i
        invariant
            i <= s@.len() + 1,
            find_seq(s@, p@) == find_from(s@, p@, i as int),
        decreases s@.len() + 1 - i,
    {
        if occurs_at_exec(s, p, i) {
            assert(find_from(s@, p@, i as int) == Some(i as int));
            return Some(i);
        }
        assert(find_from(s@, p@, i as int) == find_from(s@, p@, i + 1));
        if i >= s.len() {
            assert(find_from(s@, p@, i + 1) is None);
            return None;
        }
        i += 1;
    }
    None
}

/// The pieces of `s` between the occurrences of `sep`.
pub fn split(s: &Vec<char>, sep: char) -> (r: Vec<Vec<char>>)
    ensures
        views(r@) == split_on(s@, sep),
{
    let mut pieces: Vec<Vec<char>> = Vec::new();
    let mut cur: Vec<char> = Vec::new();
    let n = s.len();
    assert(s@.take(0) =~= Seq::<char>::empty());
    assert(views(pieces@).push(cur@) =~= split_on(s@.take(0), sep));
    for i in 0..n
        invariant
            n == s@.len(),
            views(pieces@).push(cur@) == split_on(s@.take(i as int), sep),
    {
        let c = s[i];
        let ghost before = s@.take(i as int);
        assert(s@.take(i + 1).drop_last() =~= before);
        proof {
            lemma_split_on_nonempty(before, sep);
        }
        if c == sep {
            pieces.push(cur);
            cur = Vec::new();
            assert(views(pieces@).push(cur@) =~= split_on(s@.take(i + 1), sep));
        } else {
            cur.push(c);
            assert(views(pieces@).push(cur@) =~= split_on(s@.take(i + 1), sep));
        }
    }
    pieces.push(cur);
    assert(s@.take(n as int) =~= s@);
    assert(views(pieces@) =~= split_on(s@, sep));
    pieces
}

/// The number of whitespace characters at the start of `s`.
fn leading_ws(s: &Vec<char>) -> (lo: usize)
    ensures
        lo <= s@.len(),
        trim_start(s@) == s@.skip(lo as int),
{
    let n = s.len();
    let mut lo: usize = 0;
    assert(s@.skip(0) =~= s@);
    while lo < n && is_whitespace(s[lo])
        invariant
            n == s@.len(),
            lo <= n,
            trim_start(s@) == trim_start(s@.skip(lo as int)),
        decreases n - lo,
    {
        proof {
            lemma_trim_start_skip(s@, lo as int);
        }
        lo += 1;
    }
    lo
}

/// The end of `s.skip(lo)` once its trailing whitespace is gone, as an index into `s`.
fn trailing_ws_start(s: &Vec<char>, lo: usize) -> (hi: usize)
    requires
        lo <= s@.len(),
    ensures
        lo <= hi <= s@.len(),
        trim_end(s@.skip(lo as int)) == s@.subrange(lo as int, hi as int),
{
    let n = s.len();
    let ghost t = s@.skip(lo as int);
    let mut hi: usize = n;
    assert(t.take(t.len() as int) =~= t);
    while hi > lo && is_whitespace(s[hi - 1])
        invariant
            n == s@.len(),
            lo <= hi <= n,
            t == s@.skip(lo as int),
            trim_end(t) == trim_end(t.take(hi - lo)),
        decreases hi - lo,
    {
        proof {
            lemma_trim_end_take(t, hi - lo);
        }
        hi -= 1;
    }
    assert(t.take(hi - lo) =~= s@.subrange(lo as int, hi as int));
    hi
}

/// `s` without leading and trailing whitespace.
pub fn trim_chars(s: &Vec<char>) -> (r: Vec<char>)
    ensures
        r@ == trim(s@),
{
    let lo = leading_ws(s);
    let hi = trailing_ws_start(s, lo);
    slice_of(s, lo, hi)
}

/// `s` without the copies of `c` at its end.
pub fn trim_end_char_exec(s: &Vec<char>, c: char) -> (r: Vec<char>)
    ensures
        r@ == trim_end_char(s@, c),
{
    let mut hi = s.len();
    assert(s@.take(hi as int) =~= s@);
    while hi > 0 && s[hi - 1] == c
        invariant
            hi <= s@.len(),
            trim_end_char(s@, c) == trim_end_char(s@.take(hi as int), c),
        decreases hi,
    {
        assert(s@.take(hi as int).drop_last() =~= s@.take(hi - 1));
        hi -= 1;
    }
    slice_of(s, 0, hi)
}

/// The lines of `s`, as `str::lines` gives them.
pub fn lines(s: &Vec<char>) -> (r: Vec<Vec<char>>)
    ensures
        views(r@) == lines_of(s@),
{
    let parts = split(s, '\n');
    proof {
        lemma_split_on_nonempty(s@, '\n');
    }
    let n = if s.len() == 0 || s[s.len() - 1] == '\n' {
        parts.len() - 1
    } else {
        parts.len()
    };
    let mut out: Vec<Vec<char>> = Vec::new();
    for i in 0..n
        invariant
            n <= parts@.len(),
            views(parts@) == split_on(s@, '\n'),
            n == lines_of(s@).len(),
            views(out@) == lines_of(s@).take(i as int),
    {
        let p = &parts[i];
        assert(views(parts@)[i as int] == parts@[i as int]@);
        let line = if i + 1 < parts.len() && ends_with_char(p, '\r') {
            let l = slice_of(p, 0, p.len() - 1);
            assert(p@.subrange(0, p@.len() - 1) =~= p@.drop_last());
            l
        } else {
            p.clone()
        };
        assert(line@ == lines_of(s@)[i as int]);
        let ghost prev = out@;
        out.push(line);
        assert(out@ == prev.push(line));
        assert(views(out@) =~= views(prev).push(line@));
        assert(views(out@) =~= lines_of(s@).take(i + 1));
    }
    assert(views(out@) =~= lines_of(s@));
    out
}

// ----------------------------------------------------------------------------
// Literal replacement (`str::contains`, `str::replace`)
// ----------------------------------------------------------------------------

/// `s` with every occurrence of `pat`, taken from left to right without overlap,
/// replaced by `to`; an empty pattern puts `to` before every character and at the end.
pub open spec fn replace_spec(s: Seq<char>, pat: Seq<char>, to: Seq<char>) -> Seq<char>
    decreases s.len(),
{
    if pat.len() == 0 {
        if s.len() == 0 {
            to
        } else {
            to + seq![s[0]] + replace_spec(s.drop_first(), pat, to)
        }
    } else if s.len() < pat.len() {
        s
    } else if s.take(pat.len() as int) == pat {
        to + replace_spec(s.skip(pat.len() as int), pat, to)
    } else {
        seq![s[0]] + replace_spec(s.drop_first(), pat, to)
    }
}

/// Whether `pat` occurs in `s`.
pub fn contains_literal(s: &Vec<char>, pat: &Vec<char>) -> (r: bool)
    ensures
        r == contains_seq(s@, pat@),
{
    let n = s.len();
    let mut i: usize = 0;
    while i < n
        invariant
            n == s@.len(),
            i <= n,
            forall|j: int| 0 <= j < i ==> !occurs_at(s@, pat@, j),
        decreases n - i,
    {
        if occurs_at_exec(s, pat, i) {
            return true;
        }
        i += 1;
    }
    let last = occurs_at_exec(s, pat, n);
    assert(last == contains_seq(s@, pat@)) by {
        if !last {
            assert forall|j: int| !occurs_at(s@, pat@, j) by {
                if 0 <= j && j + pat@.len() <= s@.len() && j != n {
                    assert(j < i);
                }
            }
        }
    }
    last
}

/// `s` with every occurrence of `pat` replaced by `to`, as `str::replace` does it.
pub fn replace_literal(s: &Vec<char>, pat: &Vec<char>, to: &Vec<char>) -> (r: Vec<char>)
    ensures
        r@ == replace_spec(s@, pat@, to@),
{
    let n = s.len();
    let m = pat.len();
    let mut out: Vec<char> = Vec::new();
    let mut i: usize = 0;
    assert(s@.skip(0) =~= s@);
    while i < n
        invariant
            n == s@.len(),
            m == pat@.len(),
            i <= n,
            out@ + replace_spec(s@.skip(i as int), pat@, to@) == replace_spec(s@, pat@, to@),
        decreases n - i,
    {
        let ghost rest = s@.skip(i as int);
        if m == 0 {
            let ghost before = out@;
            out = concat(&out, to);
            out.push(s[i]);
            assert(rest.drop_first() =~= s@.skip(i + 1));
            assert(out@ + replace_spec(s@.skip(i + 1), pat@, to@) =~= before + replace_spec(
                rest,
                pat@,
                to@,
            ));
            i += 1;
        } else if m <= n - i && occurs_at_exec(s, pat, i) {
            let ghost before = out@;
            out = concat(&out, to);
            assert(rest.take(m as int) =~= s@.subrange(i as int, i + m));
            assert(rest.skip(m as int) =~= s@.skip(i + m));
            assert(out@ + replace_spec(s@.skip(i + m), pat@, to@) =~= before + replace_spec(
                rest,
                pat@,
                to@,
            ));
            i += m;
        } else {
            let ghost before = out@;
            out.push(s[i]);
            if m <= n - i {
                assert(rest.take(m as int) =~= s@.subrange(i as int, i + m));
            }
            assert(rest.drop_first() =~= s@.skip(i + 1));
            assert(out@ + replace_spec(s@.skip(i + 1), pat@, to@) =~= before + replace_spec(
                rest,
                pat@,
                to@,
            ));
            i += 1;
        }
    }
    assert(s@.skip(n as int) =~= Seq::<char>::empty());
    if m == 0 {
        out = concat(&out, to);
    }
    assert(out@ =~= replace_spec(s@, pat@, to@));
    out
}

// ----------------------------------------------------------------------------
// Trailing punctuation
// ----------------------------------------------------------------------------

/// The punctuation that may follow a link in running text without belonging to it.
pub open spec fn is_trailing_punct(c: char) -> bool {
    c == '.' || c == ',' || c == ';' || c == ':' || c == '!' || c == '?' || c == ')' || c == ']'
        || c == '"' || c == '\''
}

/// Where the run of trailing punctuation at the end of `s` begins.
pub open spec fn punct_tail_start(s: Seq<char>) -> int
    decreases s.len(),
{
    if s.len() > 0 && is_trailing_punct(s.last()) {
        punct_tail_start(s.drop_last())
    } else {
        s.len() as int
    }
}

/// The byte that encodes a punctuation character, read as that character.
fn is_trailing_punct_byte(b: u8) -> (r: bool)
    ensures
        r == is_trailing_punct(b as char),
{
    b == 46 || b == 44 || b == 59 || b == 58 || b == 33 || b == 63 || b == 41 || b == 93 || b == 34
        || b == 39
}

proof fn lemma_ascii_bits(b: u8)
    requires
        b <= 0x7f,
    ensures
        (b & 0x7f) == b,
{
    assert((b & 0x7f) == b) by (bit_vector)
        requires
            b <= 0x7f,
    ;
}

proof fn lemma_ascii_scalar(v: u32)
    requires
        v <= 0x7f,
    ensures
        ((v & 0x7f) as u8) as u32 == v,
{
    assert(((v & 0x7f) as u8) as u32 == v) by (bit_vector)
        requires
            v <= 0x7f,
    ;
}

/// Valid UTF-8 made of ASCII bytes decodes to those bytes read as characters.
proof fn lemma_decode_ascii(b: Seq<u8>)
    requires
        vstd::utf8::valid_utf8(b),
        forall|i: int| 0 <= i < b.len() ==> b[i] <= 0x7f,
    ensures
        vstd::utf8::decode_utf8(b).len() == b.len(),
        forall|i: int| 0 <= i < b.len() ==> vstd::utf8::decode_utf8(b)[i] == b[i] as char,
    decreases b.len(),
{
    if b.len() > 0 {
        lemma_ascii_bits(b[0]);
        let rest = vstd::utf8::pop_first_scalar(b);
        assert(rest =~= b.subrange(1, b.len() as int));
        lemma_decode_ascii(rest);
        assert forall|i: int| 0 <= i < b.len() implies vstd::utf8::decode_utf8(b)[i] == b[i]
            as char by {
            if i > 0 {
                assert(vstd::utf8::decode_utf8(b)[i] == vstd::utf8::decode_utf8(rest)[i - 1]);
                assert(rest[i - 1] == b[i]);
            }
        }
    }
}

/// Encoding a sequence with one more character appends that character's encoding.
proof fn lemma_encode_push(a: Seq<char>, c: char)
    ensures
        vstd::utf8::encode_utf8(a.push(c)) == vstd::utf8::encode_utf8(a) + vstd::utf8::encode_scalar(
            c as u32,
        ),
    decreases a.len(),
{
    if a.len() == 0 {
        assert(a.push(c).drop_first() =~= Seq::<char>::empty());
        assert(a.push(c)[0] == c);
        assert(vstd::utf8::encode_utf8(Seq::<char>::empty()) =~= Seq::<u8>::empty());
        assert(vstd::utf8::encode_utf8(a.push(c)) =~= vstd::utf8::encode_scalar(c as u32));
    } else {
        lemma_encode_push(a.drop_first(), c);
        assert(a.push(c).drop_first() =~= a.drop_first().push(c));
        assert(vstd::utf8::encode_utf8(a.push(c)) =~= vstd::utf8::encode_utf8(a)
            + vstd::utf8::encode_scalar(c as u32));
    }
}

/// A string slice is the decoding of its own bytes, and those bytes are valid UTF-8.
proof fn lemma_str_bytes(s: &str)
    ensures
        vstd::utf8::valid_utf8(s.spec_bytes()),
        vstd::utf8::decode_utf8(s.spec_bytes()) == s@,
{
    vstd::utf8::encode_utf8_valid_utf8(s@);
    vstd::utf8::encode_utf8_decode_utf8(s@);
}

/// The run of trailing punctuation is determined by a split whose tail is all
/// punctuation and whose head does not end in punctuation.
proof fn lemma_punct_tail_start(s: Seq<char>, k: int)
    requires
        0 <= k <= s.len(),
        forall|i: int| k <= i < s.len() ==> is_trailing_punct(s[i]),
        k == 0 || !is_trailing_punct(s[k - 1]),
    ensures
        punct_tail_start(s) == k,
    decreases s.len(),
{
    if s.len() > k {
        lemma_punct_tail_start(s.drop_last(), k);
    }
}

/// Splitting off the trailing punctuation loses nothing: the two parts make up the text,
/// the second is all punctuation, and the first does not end in punctuation.
pub proof fn lemma_punct_split_parts(s: Seq<char>)
    ensures
        0 <= punct_tail_start(s) <= s.len(),
        s.take(punct_tail_start(s)) + s.skip(punct_tail_start(s)) == s,
        forall|i: int| punct_tail_start(s) <= i < s.len() ==> is_trailing_punct(#[trigger] s[i]),
        punct_tail_start(s) == 0 || !is_trailing_punct(s[punct_tail_start(s) - 1]),
    decreases s.len(),
{
    if s.len() > 0 && is_trailing_punct(s.last()) {
        let t = s.drop_last();
        lemma_punct_split_parts(t);
        let k = punct_tail_start(t);
        assert forall|i: int| k <= i < s.len() implies is_trailing_punct(#[trigger] s[i]) by {
            if i < s.len() - 1 {
                assert(s[i] == t[i]);
            }
        }
        if k > 0 {
            assert(s[k - 1] == t[k - 1]);
        }
    }
    assert(s.take(punct_tail_start(s)) + s.skip(punct_tail_start(s)) =~= s);
}

/// Splits `s` into the text before its trailing punctuation and that punctuation.
pub fn strip_trailing_punctuation(s: &str) -> (r: (&str, &str))
    ensures
        r.0@ == s@.take(punct_tail_start(s@)),
        r.1@ == s@.skip(punct_tail_start(s@)),
{
    let bytes = s.as_bytes();
    let ghost bs = s.spec_bytes();
    let mut end = bytes.len();
    while end > 0 && is_trailing_punct_byte(bytes[end - 1])
        invariant
            bytes@ == bs,
            end <= bs.len(),
            forall|i: int| end <= i < bs.len() ==> is_trailing_punct(#[trigger] bs[i] as char),
        decreases end,
    {
        end -= 1;
    }
    proof {
        lemma_str_bytes(s);
        vstd::utf8::is_char_boundary_start_end_of_seq(bs);
        if end < bs.len() {
            vstd::utf8::is_char_boundary_iff_is_leading_byte(bs, end as int);
        }
    }
    let r = s.split_at(end);
    proof {
        let b0 = bs.subrange(0, end as int);
        let b1 = bs.subrange(end as int, bs.len() as int);
        lemma_str_bytes(r.0);
        lemma_str_bytes(r.1);
        vstd::utf8::decode_utf8_split(bs, end as int);
        assert(s@ == r.0@ + r.1@);
        assert forall|i: int| 0 <= i < b1.len() implies b1[i] <= 0x7f by {
            assert(b1[i] == bs[end + i]);
            assert(is_trailing_punct(bs[end + i] as char));
        }
        lemma_decode_ascii(b1);
        assert forall|i: int| r.0@.len() <= i < s@.len() implies is_trailing_punct(s@[i]) by {
            assert(s@[i] == r.1@[i - r.0@.len()]);
            assert(b1[i - r.0@.len()] == bs[end + i - r.0@.len()]);
        }
        if end > 0 {
            let c = r.0@.last();
            if is_trailing_punct(c) {
                vstd::utf8::decode_utf8_encode_utf8(b0);
                lemma_encode_push(r.0@.drop_last(), c);
                assert(r.0@.drop_last().push(c) =~= r.0@);
                lemma_ascii_scalar(c as u32);
                assert(b0.last() == bs[end - 1]);
                assert(false);
            }
        }
        lemma_punct_tail_start(s@, r.0@.len() as int);
        assert(r.0@ =~= s@.take(r.0@.len() as int));
        assert(r.1@ =~= s@.skip(r.0@.len() as int));
    }
    r
}

// ----------------------------------------------------------------------------
// Shortening text for one-line messages
// ----------------------------------------------------------------------------

/// `s` with each line feed turned into a space and each carriage return removed.
pub open spec fn clean_line_breaks(s: Seq<char>) -> Seq<char>
    decreases s.len(),
{
    if s.len() == 0 {
        s
    } else {
        let r = clean_line_breaks(s.drop_last());
        if s.last() == '\n' {
            r.push(' ')
        } else if s.last() == '\r' {
            r
        } else {
            r.push(s.last())
        }
    }
}

/// `s` on one line, cut to `max_len` characters with `...` at the end when longer.
pub open spec fn truncated(s: Seq<char>, max_len: int) -> Seq<char> {
    let c = clean_line_breaks(s);
    if c.len() > max_len {
        c.take(max_len - 3) + seq!['.', '.', '.']
    } else {
        c
    }
}

/// `s` on one line (line feeds become spaces, carriage returns go), and if that has
/// more than `max_len` characters, its first `max_len - 3` followed by `...`.
pub fn truncate_str(s: &str, max_len: usize) -> (r: String)
    requires
        max_len >= 3 || clean_line_breaks(s@).len() <= max_len,
    ensures
        r@ == truncated(s@, max_len as int),
        r@.len() <= max_len,
{
    let cs = chars_of(s);
    let mut clean: Vec<char> = Vec::new();
    let n = cs.len();
    for i in 0..n
        invariant
            n == cs@.len(),
            cs@ == s@,
            clean@ == clean_line_breaks(cs@.take(i as int)),
    {
        assert(cs@.take(i + 1).drop_last() =~= cs@.take(i as int));
        let c = cs[i];
        if c == '\n' {
            clean.push(' ');
        } else if c != '\r' {
            clean.push(c);
        }
    }
    assert(cs@.take(n as int) =~= cs@);
    if clean.len() > max_len {
        let mut out = slice_of(&clean, 0, max_len - 3);
        out.push('.');
        out.push('.');
        out.push('.');
        assert(out@ =~= clean@.take(max_len - 3) + seq!['.', '.', '.']);
        string_of(&out)
    } else {
        string_of(&clean)
    }
}

// ----------------------------------------------------------------------------
// What a literal replacement does
// ----------------------------------------------------------------------------

/// With a non-empty pattern, a text in which the pattern never occurs comes back as it is.
pub proof fn lemma_replace_without_occurrence(s: Seq<char>, pat: Seq<char>, to: Seq<char>)
    requires
        pat.len() > 0,
        !contains_seq(s, pat),
    ensures
        replace_spec(s, pat, to) == s,
    decreases s.len(),
{
    if s.len() >= pat.len() {
        assert(!occurs_at(s, pat, 0));
        assert(s.take(pat.len() as int) =~= s.subrange(0, pat.len() as int));
        let t = s.drop_first();
        assert(!contains_seq(t, pat)) by {
            if contains_seq(t, pat) {
                let j = choose|j: int| occurs_at(t, pat, j);
                assert(t.subrange(j, j + pat.len()) =~= s.subrange(j + 1, j + 1 + pat.len()));
                assert(occurs_at(s, pat, j + 1));
            }
        }
        lemma_replace_without_occurrence(t, pat, to);
        assert(seq![s[0]] + t =~= s);
    }
}

/// With a non-empty pattern, every occurrence is replaced, left to right: the text before
/// the first occurrence is kept, that occurrence becomes `to`, and the rest of the text
/// after it is replaced in the same way.
pub proof fn lemma_replace_at_first_occurrence(s: Seq<char>, pat: Seq<char>, to: Seq<char>, i: int)
    requires
        pat.len() > 0,
        occurs_at(s, pat, i),
        forall|j: int| 0 <= j < i ==> !occurs_at(s, pat, j),
    ensures
        replace_spec(s, pat, to) == s.take(i) + to + replace_spec(s.skip(i + pat.len()), pat, to),
    decreases i,
{
    assert(s.take(pat.len() as int) =~= s.subrange(0, pat.len() as int));
    if i == 0 {
        assert(s.take(0) + to =~= to);
    } else {
        assert(!occurs_at(s, pat, 0));
        let t = s.drop_first();
        assert(t.subrange(i - 1, i - 1 + pat.len()) =~= s.subrange(i, i + pat.len()));
        assert forall|j: int| 0 <= j < i - 1 implies !occurs_at(t, pat, j) by {
            if occurs_at(t, pat, j) {
                assert(t.subrange(j, j + pat.len()) =~= s.subrange(j + 1, j + 1 + pat.len()));
                assert(occurs_at(s, pat, j + 1));
            }
        }
        lemma_replace_at_first_occurrence(t, pat, to, i - 1);
        let rest = replace_spec(s.skip(i + pat.len()), pat, to);
        assert(t.skip(i - 1 + pat.len()) =~= s.skip(i + pat.len()));
        assert(seq![s[0]] + (t.take(i - 1) + to + rest) =~= s.take(i) + to + rest);
    }
}

} // verus!
